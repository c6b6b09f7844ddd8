//! Response envelopes for the operation surface that a transport layer
//! serves on the chain's behalf. The transport itself (request framing,
//! HTTP, process plumbing) is an external collaborator.

use vstd::prelude::*;

pub mod chain_handlers;

verus! {

/// The liveness reply.
#[derive(Clone, Copy, Debug)]
pub struct PingResponse {
    /// Always true when the service answered at all.
    pub success: bool,
}

/// The service behind the chain-independent handlers.
#[derive(Debug)]
pub struct StaticService {}

impl StaticService {
    /// A fresh service; it carries no state.
    pub fn new() -> StaticService {
        StaticService {}
    }

    /// Answers a liveness probe.
    pub fn ping(&self) -> (r: PingResponse)
        ensures
            r.success,
    {
        PingResponse { success: true }
    }
}

} // verus!
