//! A minimal block-chain state machine: a linear, content-addressed chain of
//! blocks, validated against their parents and decided (accepted or rejected)
//! by an external consensus engine.
//!
//! The major components:
//!
//! * [`block`]: the block entity, with its canonical encoding,
//!   content-derived identifier, parent-relative validation, and the
//!   accept/reject transitions.
//! * [`state`]: the chain store, holding the committed history, the
//!   last-accepted pointer, and the verified-candidate map.
//! * [`vm`]: the chain controller, driving the bootstrap phases, the
//!   pending-data queue, and the build/parse/get operations a consensus
//!   engine calls.
//! * [`genesis`]: the one-time bootstrap payload.
//! * [`codec`]: the canonical byte formats and their exact parsers.
//! * [`ids`]: fixed-width content identifiers.
//! * [`api`] and [`client`]: the value shapes a transport layer
//!   exchanges on the chain's behalf.

use vstd::prelude::*;

pub mod api;
pub mod block;
pub mod client;
pub mod codec;
pub mod genesis;
pub mod ids;
pub mod state;
pub mod vm;

verus! {

/// The failure taxonomy surfaced to the consensus engine.
#[derive(Clone, Copy, Debug, PartialEq, Eq, Structural)]
pub enum Error {
    /// A block, store, or last-accepted pointer that does not exist.
    NotFound,
    /// A validation or decode failure: height mismatch, timestamp
    /// regression, malformed input bytes.
    InvalidData,
    /// An oversized proposal.
    InvalidInput,
    /// A deliberately unimplemented operation.
    Unsupported,
}

} // verus!
