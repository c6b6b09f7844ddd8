//! Block construction, canonical encoding, validation, and decisions.

use timestampvm::block::{Block, Status};
use timestampvm::ids::Id;
use timestampvm::state::State;
use timestampvm::Error;

#[test]
fn test_block() {
    let mut genesis_blk = Block::new(
        Id::empty(),
        0,
        1699000000,
        vec![7, 1, 8, 2, 8, 1, 8, 2, 8, 4],
        Status::default(),
    )
    .unwrap();

    let serialized = genesis_blk.to_slice().unwrap();
    let deserialized = Block::from_slice(&serialized).unwrap();
    assert_eq!(genesis_blk, deserialized);

    let mut state = State::new();
    assert!(!state.has_last_accepted_block());

    genesis_blk.verify(&mut state).unwrap();
    genesis_blk.accept(&mut state).unwrap();
    assert_eq!(genesis_blk.status(), Status::Accepted);
    assert!(state.has_last_accepted_block());

    let last_accepted_blk_id = state.get_last_accepted_block_id().unwrap();
    assert_eq!(last_accepted_blk_id, genesis_blk.id());

    let read_blk = state.get_block(&genesis_blk.id()).unwrap();
    assert_eq!(genesis_blk, read_blk);

    let mut blk1 = Block::new(
        genesis_blk.id(),
        genesis_blk.height() + 1,
        genesis_blk.timestamp() + 1,
        vec![9, 9, 9, 9, 9, 1, 2, 3, 4, 5],
        Status::default(),
    )
    .unwrap();
    blk1.verify(&mut state).unwrap();
    blk1.accept(&mut state).unwrap();
    assert_eq!(blk1.status(), Status::Accepted);

    let last_accepted_blk_id = state.get_last_accepted_block_id().unwrap();
    assert_eq!(last_accepted_blk_id, blk1.id());

    let read_blk = state.get_block(&blk1.id()).unwrap();
    assert_eq!(blk1, read_blk);

    let mut blk2 = Block::new(
        blk1.id(),
        blk1.height() + 1,
        blk1.timestamp() + 1,
        vec![0, 1, 2, 3, 4, 5, 6, 7, 8, 9],
        Status::default(),
    )
    .unwrap();
    blk2.verify(&mut state).unwrap();
    blk2.reject(&mut state).unwrap();
    assert_eq!(blk2.status(), Status::Rejected);

    // "blk2" is rejected, so the last accepted block must be "blk1"
    let last_accepted_blk_id = state.get_last_accepted_block_id().unwrap();
    assert_eq!(last_accepted_blk_id, blk1.id());

    let read_blk = state.get_block(&blk2.id()).unwrap();
    assert_eq!(blk2, read_blk);

    let mut blk3 = Block::new(
        blk2.id(),
        blk2.height() - 1,
        blk2.timestamp() + 1,
        vec![1, 1, 2, 2, 3, 3, 4, 4, 5, 5],
        Status::default(),
    )
    .unwrap();
    assert!(blk3.verify(&mut state).is_err());

    assert!(state.has_last_accepted_block());
}

#[test]
fn valid_child_verifies_and_violations_fail() {
    let mut state = State::new();
    let mut parent = Block::new(Id::empty(), 0, 100, b"p".to_vec(), Status::default()).unwrap();
    parent.verify(&mut state).unwrap();
    parent.accept(&mut state).unwrap();

    // exactly one above the parent, timestamp not behind: verifies
    let good = Block::new(parent.id(), 1, 100, b"c".to_vec(), Status::default()).unwrap();
    assert!(good.verify(&mut state).is_ok());

    // height gap
    let skip = Block::new(parent.id(), 2, 100, b"c".to_vec(), Status::default()).unwrap();
    assert_eq!(skip.verify(&mut state).unwrap_err(), Error::InvalidData);

    // timestamp regression
    let early = Block::new(parent.id(), 1, 99, b"c".to_vec(), Status::default()).unwrap();
    assert_eq!(early.verify(&mut state).unwrap_err(), Error::InvalidData);

    // unknown parent: `skip` failed verification, so its id is unknown
    let orphan = Block::new(skip.id(), 5, 100, b"c".to_vec(), Status::default()).unwrap();
    assert_eq!(orphan.verify(&mut state).unwrap_err(), Error::NotFound);
}

#[test]
fn verify_is_idempotent_on_decided_blocks() {
    let mut state = State::new();
    let mut blk = Block::new(Id::empty(), 0, 5, b"x".to_vec(), Status::default()).unwrap();
    blk.verify(&mut state).unwrap();
    blk.accept(&mut state).unwrap();

    // re-verification of an already decided block succeeds, twice over
    assert!(blk.verify(&mut state).is_ok());
    assert!(blk.verify(&mut state).is_ok());
    // and the decision still stands
    let read = state.get_block(&blk.id()).unwrap();
    assert_eq!(read.status(), Status::Accepted);
}

#[test]
fn decode_of_constructed_bytes_reproduces_id() {
    let blk = Block::new(Id::empty(), 3, 42, vec![0xde, 0xad], Status::default()).unwrap();
    let again = Block::from_slice(blk.bytes()).unwrap();
    assert_eq!(again.id(), blk.id());
    assert_eq!(again.parent_id(), blk.parent_id());
    assert_eq!(again.height(), blk.height());
    assert_eq!(again.timestamp(), blk.timestamp());
    assert_eq!(again.data(), blk.data());
    assert_eq!(again.bytes(), blk.bytes());
}

#[test]
fn ids_differ_when_data_differs() {
    // both encodings share their first 32 bytes, so this fails if the
    // digest were any simple function of the prefix, such as the input
    // itself
    let a = Block::new(Id::empty(), 1, 2, b"one".to_vec(), Status::default()).unwrap();
    let b = Block::new(Id::empty(), 1, 2, b"two".to_vec(), Status::default()).unwrap();
    assert_ne!(a.id(), b.id());
    // and byte-identical fields give byte-identical ids
    let c = Block::new(Id::empty(), 1, 2, b"one".to_vec(), Status::default()).unwrap();
    assert_eq!(a.id(), c.id());
}

#[test]
fn accept_moves_head_and_reject_leaves_it() {
    let mut state = State::new();
    let mut genesis = Block::new(Id::empty(), 0, 1, b"g".to_vec(), Status::default()).unwrap();
    genesis.verify(&mut state).unwrap();
    genesis.accept(&mut state).unwrap();
    assert_eq!(state.get_last_accepted_block_id().unwrap(), genesis.id());

    let mut bad = Block::new(genesis.id(), 1, 1, b"b".to_vec(), Status::default()).unwrap();
    bad.verify(&mut state).unwrap();
    bad.reject(&mut state).unwrap();
    // the rejected block never became canonical
    assert_eq!(state.get_last_accepted_block_id().unwrap(), genesis.id());
    // but remains queryable for history
    assert_eq!(state.get_block(&bad.id()).unwrap().status(), Status::Rejected);

    let mut good = Block::new(genesis.id(), 1, 2, b"c".to_vec(), Status::default()).unwrap();
    good.verify(&mut state).unwrap();
    good.accept(&mut state).unwrap();
    assert_eq!(state.get_last_accepted_block_id().unwrap(), good.id());
}
