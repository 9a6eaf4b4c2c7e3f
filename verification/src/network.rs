//! What a node answers to its peers.
//!
//! Sending and receiving is not done here. This module decides what a
//! message from a peer calls for: what is sent back, and what is to be noted
//! about the peer.

use vstd::prelude::*;
use vstd::string::*;
use crate::block::{Block, BlockRecord};
use crate::blockchain::{block_records, TriadChainBlockchain};
use crate::mining::GeometricChallenge;
use crate::PROTOCOL_VERSION;

verus! {

/// How far the connection to a peer has come.
#[derive(Debug, Clone, Copy, PartialEq, Eq)]
pub enum ConnectionState {
    Disconnected,
    Connecting,
    Connected,
    Syncing,
    Ready,
}

/// A message between peers.
#[derive(Debug)]
pub enum NetworkMessage {
    /// Two peers introduce themselves.
    Handshake { peer_id: String, version: String, blockchain_height: u64 },
    /// A request for the blocks from a height on.
    BlockRequest { start_height: u64, count: u32 },
    /// The blocks asked for.
    BlockResponse { blocks: Vec<Block> },
    /// A block that was just mined.
    NewBlock { block: Block },
    /// A transaction, as bytes.
    TransactionBroadcast { transaction_id: String, transaction_data: Vec<u8> },
    /// A challenge for the miners.
    MiningChallenge { challenge: GeometricChallenge },
    /// The peers a peer knows, by their socket addresses as text.
    PeerDiscovery { known_peers: Vec<String> },
    /// A sign of life.
    Ping,
    /// The answer to a sign of life.
    Pong,
}

/// What a message gives to note about the peer that sent it.
#[derive(Debug)]
pub enum PeerEffect {
    /// The peer is entered as connected, with what it said of itself.
    Register { peer_id: String, version: String, blockchain_height: u64 },
    /// The peer was seen just now.
    Touch,
    /// Nothing.
    Nothing,
}

/// The part of `blocks` that a request for `count` blocks from
/// `start_height` on asks for.
pub open spec fn requested(blocks: Seq<BlockRecord>, start_height: u64, count: u32) -> Seq<BlockRecord> {
    if start_height >= blocks.len() {
        Seq::<BlockRecord>::empty()
    } else if start_height + count >= blocks.len() {
        blocks.subrange(start_height as int, blocks.len() as int)
    } else {
        blocks.subrange(start_height as int, start_height + count)
    }
}

/// The number of blocks to ask a peer for: as many as the peer is ahead, as
/// far as 32 bits hold the number.
pub open spec fn blocks_behind(our_height: u64, peer_height: u64) -> u32 {
    ((peer_height - our_height) % 0x1_0000_0000) as u32
}

/// Whether a message goes out to a peer in `state`: whether the peer is
/// connected or ready.
pub fn is_broadcast_target(state: &ConnectionState) -> (r: bool)
    ensures
        r == (*state == ConnectionState::Connected || *state == ConnectionState::Ready),
{
    match state {
        ConnectionState::Connected => true,
        ConnectionState::Ready => true,
        _ => false,
    }
}

/// The blocks of `blockchain` that a request for `count` blocks from
/// `start_height` on asks for.
pub fn blocks_from(blockchain: &TriadChainBlockchain, start_height: u64, count: u32) -> (r: Vec<Block>)
    ensures
        block_records(r@) == requested(blockchain.chain(), start_height, count),
{
    let blocks = blockchain.blocks();
    let mut found: Vec<Block> = Vec::new();
    let len = blocks.len();
    if start_height >= len as u64 {
        assert(block_records(found@) =~= Seq::<BlockRecord>::empty());
        return found;
    }
    let start = start_height as usize;
    let end = if count as u64 >= len as u64 - start_height {
        len
    } else {
        start + count as usize
    };
    let mut i: usize = start;
    while i < end
        invariant
            start <= i <= end <= blocks.len(),
            found@.len() == i - start,
            forall|k: int| 0 <= k < i - start ==> (#[trigger] found@[k])@ == blocks@[start + k]@,
        decreases end - i,
    {
        found.push(blocks[i].clone());
        i = i + 1;
    }
    assert(block_records(found@) =~= block_records(blocks@).subrange(start as int, end as int));
    found
}

/// The handshake of the node `node_id` on `blockchain`.
pub fn handshake(node_id: &str, blockchain: &TriadChainBlockchain) -> (r: NetworkMessage)
    ensures
        r matches NetworkMessage::Handshake { peer_id, version, blockchain_height } && peer_id@ == node_id@
            && version@ == PROTOCOL_VERSION@ && blockchain_height == blockchain.chain().len(),
{
    NetworkMessage::Handshake {
        peer_id: node_id.to_owned(),
        version: PROTOCOL_VERSION.to_owned(),
        blockchain_height: blockchain.blocks().len() as u64,
    }
}

/// What the node `node_id` answers to `message`: a handshake to a
/// handshake, the blocks asked for to a request for blocks, a pong to a
/// ping, and nothing to anything else.
pub fn response_to(
    message: &NetworkMessage,
    node_id: &str,
    blockchain: &TriadChainBlockchain,
) -> (r: Option<NetworkMessage>)
    ensures
        match *message {
            NetworkMessage::Handshake { .. } => r matches Some(
                NetworkMessage::Handshake { peer_id, version, blockchain_height },
            ) && peer_id@ == node_id@ && version@ == PROTOCOL_VERSION@ && blockchain_height
                == blockchain.chain().len(),
            NetworkMessage::BlockRequest { start_height, count } => r matches Some(
                NetworkMessage::BlockResponse { blocks },
            ) && block_records(blocks@) == requested(blockchain.chain(), start_height, count),
            NetworkMessage::Ping => r matches Some(NetworkMessage::Pong),
            _ => r is None,
        },
{
    match message {
        NetworkMessage::Handshake { .. } => Some(handshake(node_id, blockchain)),
        NetworkMessage::BlockRequest { start_height, count } => Some(
            NetworkMessage::BlockResponse { blocks: blocks_from(blockchain, *start_height, *count) },
        ),
        NetworkMessage::Ping => Some(NetworkMessage::Pong),
        _ => None,
    }
}

/// What `message` gives to note about the peer that sent it: a handshake
/// registers the peer, a pong shows that it is alive.
pub fn peer_effect(message: &NetworkMessage) -> (r: PeerEffect)
    ensures
        match *message {
            NetworkMessage::Handshake { peer_id, version, blockchain_height } => r matches PeerEffect::Register {
                peer_id: p,
                version: v,
                blockchain_height: h,
            } && p@ == peer_id@ && v@ == version@ && h == blockchain_height,
            NetworkMessage::Pong => r matches PeerEffect::Touch,
            _ => r matches PeerEffect::Nothing,
        },
{
    match message {
        NetworkMessage::Handshake { peer_id, version, blockchain_height } => PeerEffect::Register {
            peer_id: peer_id.clone(),
            version: version.clone(),
            blockchain_height: *blockchain_height,
        },
        NetworkMessage::Pong => PeerEffect::Touch,
        _ => PeerEffect::Nothing,
    }
}

/// The request that brings a node at `our_height` up to a peer at
/// `peer_height`: for the blocks from its own height on, as many as the
/// peer is ahead. No request where the peer is not ahead.
pub fn sync_request(our_height: u64, peer_height: u64) -> (r: Option<NetworkMessage>)
    ensures
        peer_height <= our_height ==> r is None,
        peer_height > our_height ==> (r matches Some(NetworkMessage::BlockRequest { start_height, count })
            && start_height == our_height && count == blocks_behind(our_height, peer_height)),
{
    if peer_height > our_height {
        let behind = peer_height - our_height;
        Some(
            NetworkMessage::BlockRequest {
                start_height: our_height,
                count: (behind % 0x1_0000_0000) as u32,
            },
        )
    } else {
        None
    }
}

} // verus!
