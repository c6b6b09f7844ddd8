//! Identifiers: the empty value, byte access, and hexadecimal text.

use timestampvm::block::{Block, Status};
use timestampvm::ids::Id;

#[test]
fn empty_id_is_all_zeros() {
    let id = Id::empty();
    assert!(id.is_empty());
    assert_eq!(id.as_slice(), &[0u8; 32][..]);
    let mut zeros = String::new();
    for _ in 0..64 {
        zeros.push('0');
    }
    assert_eq!(id.to_hex(), zeros);
}

#[test]
fn content_ids_are_not_empty_and_round_trip_through_bytes() {
    let blk = Block::new(Id::empty(), 0, 0, b"x".to_vec(), Status::default()).unwrap();
    let id = blk.id();
    assert!(!id.is_empty());
    let copy = Id::from_bytes(id.as_slice());
    assert_eq!(copy, id);
    assert_eq!(copy.to_hex(), id.to_hex());
    assert_eq!(id.to_hex().len(), 64);
}
