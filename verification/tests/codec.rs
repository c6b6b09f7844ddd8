//! The canonical block document: exact text, exact parser.

use timestampvm::block::{Block, Status};
use timestampvm::ids::Id;
use timestampvm::Error;

fn zeros_hex() -> String {
    let mut s = String::new();
    let mut i = 0;
    while i < 64 {
        s.push('0');
        i += 1;
    }
    s
}

#[test]
fn encoding_is_the_exact_canonical_text() {
    let blk = Block::new(Id::empty(), 7, 1699999999, vec![0xab, 0xcd], Status::default()).unwrap();
    let expected = format!(
        "{{\"parent_id\":\"0x{}\",\"height\":7,\"timestamp\":1699999999,\"data\":\"0xabcd\"}}",
        zeros_hex()
    );
    assert_eq!(blk.bytes(), expected.as_bytes());
    assert_eq!(blk.to_slice().unwrap(), expected.into_bytes());
}

#[test]
fn zero_fields_and_empty_data_encode_exactly() {
    let blk = Block::new(Id::empty(), 0, 0, Vec::new(), Status::default()).unwrap();
    let expected = format!(
        "{{\"parent_id\":\"0x{}\",\"height\":0,\"timestamp\":0,\"data\":\"0x\"}}",
        zeros_hex()
    );
    assert_eq!(blk.bytes(), expected.as_bytes());
}

#[test]
fn canonical_text_decodes_to_the_fields() {
    let text = format!(
        "{{\"parent_id\":\"0x{}\",\"height\":12,\"timestamp\":34,\"data\":\"0x0001ff\"}}",
        zeros_hex()
    );
    let blk = Block::from_slice(text.as_bytes()).unwrap();
    assert_eq!(blk.parent_id(), Id::empty());
    assert_eq!(blk.height(), 12);
    assert_eq!(blk.timestamp(), 34);
    assert_eq!(blk.data(), &[0x00u8, 0x01, 0xff][..]);
    assert_eq!(blk.bytes(), text.as_bytes());
    assert_eq!(blk.status(), Status::Processing);
}

#[test]
fn malformed_documents_are_rejected() {
    let ok = format!(
        "{{\"parent_id\":\"0x{}\",\"height\":1,\"timestamp\":2,\"data\":\"0x\"}}",
        zeros_hex()
    );
    assert!(Block::from_slice(ok.as_bytes()).is_ok());

    let cases: Vec<String> = vec![
        // empty and truncated
        String::new(),
        ok[..ok.len() - 1].to_string(),
        // trailing garbage
        format!("{} ", ok),
        // wrong field order
        format!(
            "{{\"height\":1,\"parent_id\":\"0x{}\",\"timestamp\":2,\"data\":\"0x\"}}",
            zeros_hex()
        ),
        // short parent
        "{\"parent_id\":\"0x00\",\"height\":1,\"timestamp\":2,\"data\":\"0x\"}".to_string(),
        // uppercase hex in data
        ok.replace("\"0x\"}", "\"0xAB\"}"),
        // odd number of hex digits in data
        ok.replace("\"0x\"}", "\"0xabc\"}"),
        // leading zero in a number
        ok.replace("\"height\":1", "\"height\":01"),
        // number too large for a 64-bit field
        ok.replace("\"height\":1", "\"height\":18446744073709551616"),
        // missing digits
        ok.replace("\"height\":1", "\"height\":"),
    ];
    for text in cases {
        let r = Block::from_slice(text.as_bytes());
        assert_eq!(r.unwrap_err(), Error::InvalidData);
    }
}

#[test]
fn largest_u64_fields_round_trip() {
    let blk = Block::new(Id::empty(), u64::MAX, u64::MAX, b"m".to_vec(), Status::default())
        .unwrap();
    let again = Block::from_slice(blk.bytes()).unwrap();
    assert_eq!(again.height(), u64::MAX);
    assert_eq!(again.timestamp(), u64::MAX);
    assert_eq!(again.id(), blk.id());
}

#[test]
fn decoded_id_is_digest_of_received_bytes() {
    // two decodes of byte-identical input give the same id
    let text = format!(
        "{{\"parent_id\":\"0x{}\",\"height\":5,\"timestamp\":6,\"data\":\"0x77\"}}",
        zeros_hex()
    );
    let a = Block::from_slice(text.as_bytes()).unwrap();
    let b = Block::from_slice(text.as_bytes()).unwrap();
    assert_eq!(a.id(), b.id());
    assert_eq!(a, b);
}

#[test]
fn json_text_matches_the_canonical_bytes() {
    let blk = Block::new(Id::empty(), 2, 3, vec![0x0f], Status::default()).unwrap();
    let text = blk.to_json_string().unwrap();
    assert_eq!(text.as_bytes(), blk.bytes());
    assert!(text.starts_with("{\"parent_id\":\"0x"));
    assert!(text.ends_with("\"data\":\"0x0f\"}"));
}
