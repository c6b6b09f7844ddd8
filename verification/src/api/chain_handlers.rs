//! Argument and response shapes for the chain-specific handlers.

use vstd::prelude::*;
use crate::block::Block;
use crate::ids::Id;

verus! {

/// Arguments of a proposal: the raw payload to queue.
#[derive(Debug)]
pub struct ProposeBlockArgs {
    /// The payload bytes.
    pub data: Vec<u8>,
}

/// Reply to a proposal.
#[derive(Clone, Copy, Debug)]
pub struct ProposeBlockResponse {
    /// Whether the payload entered the queue.
    pub success: bool,
}

/// Arguments of a block lookup: the identifier's text form.
#[derive(Debug)]
pub struct GetBlockArgs {
    /// The identifier, as transported.
    pub id: String,
}

/// Reply to a block lookup.
#[derive(Debug)]
pub struct GetBlockResponse {
    /// The block found.
    pub block: Block,
}

/// Reply to a last-accepted query.
#[derive(Clone, Copy, Debug)]
pub struct LastAcceptedResponse {
    /// The canonical head's identifier.
    pub id: Id,
}

} // verus!
