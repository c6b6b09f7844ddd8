//! The controller: bootstrap phases, proposals, building, parsing, and
//! the end-to-end lifecycle.

use timestampvm::block::{Block, Status};
use timestampvm::ids::Id;
use timestampvm::state::State;
use timestampvm::vm::{SnowState, Vm, PROPOSE_LIMIT_BYTES};
use timestampvm::Error;

fn fresh_vm() -> Vm {
    let mut vm = Vm::new("0.0.1".to_string());
    vm.initialize(b"{\"data\":\"seed\"}", State::new()).unwrap();
    vm
}

#[test]
fn propose_respects_the_size_limit() {
    let mut vm = fresh_vm();
    // exactly at the limit: accepted
    vm.propose_block(vec![0u8; PROPOSE_LIMIT_BYTES]).unwrap();
    // one byte over: refused, as InvalidInput
    let r = vm.propose_block(vec![0u8; PROPOSE_LIMIT_BYTES + 1]);
    assert_eq!(r.unwrap_err(), Error::InvalidInput);
}

#[test]
fn build_with_empty_queue_fails_and_one_proposal_builds_once() {
    let mut vm = fresh_vm();
    assert!(vm.build_block().is_err());

    vm.propose_block(b"payload".to_vec()).unwrap();
    assert!(vm.take_block_ready());
    let built = vm.build_block().unwrap();
    assert_eq!(built.data(), b"payload");
    assert_eq!(built.height(), 1);
    assert_eq!(built.status(), Status::Processing);
    // the built block already passed verification: re-verifying it
    // succeeds immediately
    let st = vm.state.state.as_mut().unwrap();
    assert!(built.verify(st).is_ok());

    // the queue was emptied by the build
    assert!(vm.build_block().is_err());
}

#[test]
fn end_to_end_lifecycle() {
    // initialize with no prior state and the "seed" genesis: a height-0
    // block is accepted and becomes last-accepted
    let mut vm = Vm::new("0.0.1".to_string());
    vm.initialize(b"{\"data\":\"seed\"}", State::new()).unwrap();
    let genesis_id = vm.last_accepted().unwrap();
    let genesis_blk = vm.get_block(&genesis_id).unwrap();
    assert_eq!(genesis_blk.height(), 0);
    assert_eq!(genesis_blk.parent_id(), Id::empty());
    assert_eq!(genesis_blk.data(), b"seed");
    assert_eq!(genesis_blk.status(), Status::Accepted);

    // propose ten bytes, build: a height-1 child of the genesis block
    // with a timestamp not before its parent's
    vm.propose_block(vec![1, 2, 3, 4, 5, 6, 7, 8, 9, 10]).unwrap();
    let mut built = vm.build_block().unwrap();
    assert_eq!(built.height(), 1);
    assert_eq!(built.parent_id(), genesis_id);
    assert!(built.timestamp() >= genesis_blk.timestamp());
    assert_eq!(built.data(), &[1, 2, 3, 4, 5, 6, 7, 8, 9, 10][..]);

    // accept it: it becomes last-accepted
    let built_id = built.id();
    {
        let st = vm.state.state.as_mut().unwrap();
        built.accept(st).unwrap();
    }
    assert_eq!(vm.last_accepted().unwrap(), built_id);

    // a block at its parent's height minus one fails verification with
    // InvalidData
    let bad = Block::new(built_id, 0, built.timestamp() + 1, b"x".to_vec(), Status::default())
        .unwrap();
    let st = vm.state.state.as_mut().unwrap();
    assert_eq!(bad.verify(st).unwrap_err(), Error::InvalidData);
}

#[test]
fn initialize_resumes_from_existing_history() {
    // a store that already has an accepted block
    let mut store = State::new();
    let mut head = Block::new(Id::empty(), 0, 9, b"old".to_vec(), Status::default()).unwrap();
    head.verify(&mut store).unwrap();
    head.accept(&mut store).unwrap();

    let mut vm = Vm::new("0.0.1".to_string());
    vm.initialize(b"{\"data\":\"seed\"}", store).unwrap();
    // the existing head was adopted; no new genesis block was created
    assert_eq!(vm.last_accepted().unwrap(), head.id());
    let read = vm.get_block(&head.id()).unwrap();
    assert_eq!(read.data(), b"old");
}

#[test]
fn initialize_rejects_malformed_genesis() {
    let mut vm = Vm::new("0.0.1".to_string());
    let r = vm.initialize(b"not a genesis document", State::new());
    assert_eq!(r.unwrap_err(), Error::InvalidData);
    // still uninitialized
    assert_eq!(vm.last_accepted().unwrap_err(), Error::NotFound);
}

#[test]
fn parse_block_keeps_single_identity() {
    let mut vm = fresh_vm();
    vm.propose_block(b"data".to_vec()).unwrap();
    let mut built = vm.build_block().unwrap();
    let bytes = built.bytes().to_vec();

    // two parses of identical bytes agree on the identifier
    let p1 = vm.parse_block(&bytes).unwrap();
    let p2 = vm.parse_block(&bytes).unwrap();
    assert_eq!(p1.id(), p2.id());
    assert_eq!(p1.id(), built.id());

    // once the block is decided, a parse observes the decision
    {
        let st = vm.state.state.as_mut().unwrap();
        built.accept(st).unwrap();
    }
    let p3 = vm.parse_block(&bytes).unwrap();
    assert_eq!(p3.status(), Status::Accepted);
}

#[test]
fn parse_block_rejects_malformed_bytes() {
    let vm = fresh_vm();
    assert_eq!(vm.parse_block(b"junk").unwrap_err(), Error::InvalidData);
}

#[test]
fn set_state_drives_the_bootstrap_flag() {
    let mut vm = fresh_vm();
    assert!(!vm.is_bootstrapped());
    vm.set_state(SnowState::Initializing).unwrap();
    assert!(!vm.is_bootstrapped());
    vm.set_state(SnowState::Bootstrapping).unwrap();
    assert!(!vm.is_bootstrapped());
    vm.set_state(SnowState::NormalOp).unwrap();
    assert!(vm.is_bootstrapped());
    // state sync is refused and leaves the flag alone
    assert_eq!(vm.set_state(SnowState::StateSyncing).unwrap_err(), Error::Unsupported);
    assert!(vm.is_bootstrapped());
}

#[test]
fn set_preference_is_unchecked_and_build_reports_a_missing_parent() {
    let mut vm = fresh_vm();
    // any identifier is adopted without an existence check
    let dangling = Block::new(Id::empty(), 3, 3, b"q".to_vec(), Status::default()).unwrap();
    vm.set_preference(dangling.id()).unwrap();
    // a build against the dangling preference fails with NotFound and
    // keeps the queued payload
    vm.propose_block(b"kept".to_vec()).unwrap();
    assert_eq!(vm.build_block().unwrap_err(), Error::NotFound);
    // repointing at the real head lets the same payload build
    let head = vm.last_accepted().unwrap();
    vm.set_preference(head).unwrap();
    let built = vm.build_block().unwrap();
    assert_eq!(built.data(), b"kept");
}

#[test]
fn lookups_and_stubs_report_their_errors() {
    let vm = Vm::new("0.0.1".to_string());
    // before initialization everything store-backed is NotFound
    assert_eq!(vm.last_accepted().unwrap_err(), Error::NotFound);
    assert_eq!(vm.get_block(&Id::empty()).unwrap_err(), Error::NotFound);
    assert_eq!(vm.parse_block(b"{}").unwrap_err(), Error::NotFound);

    let vm = fresh_vm();
    let unknown = Block::new(Id::empty(), 2, 2, b"u".to_vec(), Status::default()).unwrap();
    assert_eq!(vm.get_block(&unknown.id()).unwrap_err(), Error::NotFound);

    // the deliberately unimplemented surface
    assert_eq!(vm.issue_tx().unwrap_err(), Error::Unsupported);
    assert_eq!(vm.get_ancestors(&Id::empty(), 1, 1, 1).unwrap_err(), Error::Unsupported);
    assert_eq!(vm.batched_parse_block(&[]).unwrap_err(), Error::Unsupported);
    assert_eq!(vm.get_block_id_at_height(4).unwrap_err(), Error::NotFound);
    assert!(vm.verify_height_index().is_ok());
    assert_eq!(vm.state_sync_enabled().unwrap(), false);
    assert_eq!(vm.health_check().unwrap(), b"200".to_vec());
    assert_eq!(vm.version().unwrap(), "0.0.1");
    assert!(vm.shutdown().is_ok());
}

#[test]
fn proposals_coalesce_into_one_pending_signal() {
    let mut vm = fresh_vm();
    assert!(!vm.take_block_ready());
    vm.propose_block(b"a".to_vec()).unwrap();
    vm.propose_block(b"b".to_vec()).unwrap();
    // two proposals, one signal
    assert!(vm.take_block_ready());
    assert!(!vm.take_block_ready());
    // both payloads are still queued, oldest first
    assert_eq!(vm.build_block().unwrap().data(), b"a");
    assert_eq!(vm.build_block().unwrap().data(), b"b");
}
