//! The genesis document: exact text, escaping, round trips.

use timestampvm::genesis::Genesis;
use timestampvm::Error;

#[test]
fn default_payload_encodes_exactly() {
    let g = Genesis::default();
    assert_eq!(g.data, "Hello from Rust VM!");
    let bytes = g.to_vec().unwrap();
    assert_eq!(bytes, b"{\"data\":\"Hello from Rust VM!\"}".to_vec());
}

#[test]
fn seed_document_decodes() {
    let g = Genesis::from_slice(b"{\"data\":\"seed\"}").unwrap();
    assert_eq!(g.data, "seed");
}

#[test]
fn round_trip_with_escapes() {
    let g = Genesis { data: "a\"b\\c".to_string() };
    let bytes = g.to_vec().unwrap();
    assert_eq!(bytes, b"{\"data\":\"a\\\"b\\\\c\"}".to_vec());
    let back = Genesis::from_slice(&bytes).unwrap();
    assert_eq!(back, g);
}

#[test]
fn round_trip_with_multibyte_text() {
    let g = Genesis { data: "núcleo — ブロック".to_string() };
    let bytes = g.to_vec().unwrap();
    let back = Genesis::from_slice(&bytes).unwrap();
    assert_eq!(back.data, g.data);
}

#[test]
fn malformed_genesis_documents_are_rejected() {
    let cases: Vec<Vec<u8>> = vec![
        b"".to_vec(),
        b"{\"data\":\"seed\"".to_vec(),
        b"{\"data\":\"seed\"} ".to_vec(),
        b"{\"Data\":\"seed\"}".to_vec(),
        b"{\"data\":\"se\\ned\"}".to_vec(),
        b"{\"data\":\"seed\\\"}".to_vec(),
        // a raw byte that is not UTF-8 inside the string body
        vec![
            0x7b, 0x22, 0x64, 0x61, 0x74, 0x61, 0x22, 0x3a, 0x22, 0xff, 0x22, 0x7d,
        ],
    ];
    for bytes in cases {
        assert_eq!(Genesis::from_slice(&bytes).unwrap_err(), Error::InvalidData);
    }
}
