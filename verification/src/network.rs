//! The gossip wire messages and the chain-sync decision.
//!
//! The transport itself (peer discovery, publish/subscribe, dialing) is
//! outside the library; these are the values that cross it, and the one
//! decision the protocol makes about when to ask peers for missing blocks.

use vstd::prelude::*;

use crate::types::{Heartbeat, PulseBlock};

verus! {

/// A request for the chain from a height on.
#[derive(Debug)]
pub struct ChainSyncRequest {
    /// The first height the requester is missing.
    pub from_height: u64,
}

/// A bounded slice of blocks answering a sync request, ascending.
#[derive(Debug)]
pub struct ChainSyncResponse {
    /// The blocks, ascending by index.
    pub blocks: Vec<PulseBlock>,
}

/// A message received from the network.
#[derive(Debug)]
pub enum NetworkMessage {
    /// A gossiped heartbeat.
    Heartbeat(Heartbeat),
    /// A gossiped block.
    Block(PulseBlock),
    /// A peer asks for blocks.
    ChainSyncRequest(ChainSyncRequest),
    /// A peer answers with blocks.
    ChainSyncResponse(ChainSyncResponse),
}

/// A command for the network task.
#[derive(Debug)]
pub enum NetworkCommand {
    /// Publish a heartbeat.
    BroadcastHeartbeat(Heartbeat),
    /// Publish a block.
    BroadcastBlock(PulseBlock),
    /// Publish a sync request.
    BroadcastChainSyncRequest(ChainSyncRequest),
    /// Publish a sync response.
    BroadcastChainSyncResponse(ChainSyncResponse),
    /// Dial a peer address.
    DialPeer(String),
}

/// The chain-sync decision: a peer block that is more than one ahead of the
/// local tip means blocks are missing, so ask for everything from the next
/// height on; a block at most one ahead needs no sync.
pub fn sync_request_for(tip_height: u64, incoming_index: u64) -> (r: Option<ChainSyncRequest>)
    ensures
        incoming_index > tip_height + 1 ==> (r matches Some(q) && q.from_height as int
            == tip_height + 1),
        incoming_index <= tip_height + 1 ==> r is None,
{
    if tip_height < u64::MAX && incoming_index > tip_height + 1 {
        Some(ChainSyncRequest { from_height: tip_height + 1 })
    } else {
        None
    }
}

} // verus!
