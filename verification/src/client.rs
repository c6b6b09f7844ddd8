//! Reply envelopes a remote caller of the chain's operation surface
//! receives. The HTTP plumbing that fills them is an external
//! collaborator.

use vstd::prelude::*;

verus! {

/// Envelope of a liveness reply.
#[derive(Debug)]
pub struct PingResponse {
    /// The reply protocol's version text.
    pub jsonrpc: String,
    /// The request this replies to.
    pub id: u32,
    /// The reply itself, absent on a transport error.
    pub result: Option<crate::api::PingResponse>,
}

/// Envelope of a last-accepted reply.
#[derive(Debug)]
pub struct LastAcceptedResponse {
    /// The reply protocol's version text.
    pub jsonrpc: String,
    /// The request this replies to.
    pub id: u32,
    /// The reply itself, absent on a transport error.
    pub result: Option<crate::api::chain_handlers::LastAcceptedResponse>,
}

/// Envelope of a block-lookup reply.
#[derive(Debug)]
pub struct GetBlockResponse {
    /// The reply protocol's version text.
    pub jsonrpc: String,
    /// The request this replies to.
    pub id: u32,
    /// The reply itself, absent on a transport error.
    pub result: Option<crate::api::chain_handlers::GetBlockResponse>,
}

/// Envelope of a proposal reply.
#[derive(Debug)]
pub struct ProposeBlockResponse {
    /// The reply protocol's version text.
    pub jsonrpc: String,
    /// The request this replies to.
    pub id: u32,
    /// The reply itself, absent on a transport error.
    pub result: Option<crate::api::chain_handlers::ProposeBlockResponse>,
}

} // verus!
