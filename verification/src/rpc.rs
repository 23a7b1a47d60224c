//! Peer-to-peer message shapes, the transport interface, and the no-op
//! transport used by a single-node cluster.

use vstd::prelude::*;
use crate::error::RaftError;
use crate::raft::{Entry, NodeId, State};

verus! {

/// Protocol header carried by every peer message.
#[derive(Clone, Copy, Debug)]
pub struct Header {
    pub version: u32,
}

/// A liveness probe between peers.
#[derive(Debug)]
pub struct Ping {
    pub header: Header,
    pub id: NodeId,
    pub message: String,
}

/// A candidate's request for a vote.
#[derive(Debug)]
pub struct VoteRequest {
    pub header: Header,
    pub term: u64,
    pub candidate_id: NodeId,
    pub last_index: u64,
    pub last_term: u64,
}

/// A voter's answer.
#[derive(Debug)]
pub struct VoteResponse {
    pub header: Header,
    pub term: u64,
    pub granted: bool,
}

/// Replication request: entries to append after a validated previous point.
#[derive(Debug)]
pub struct AppendRequest {
    pub header: Header,
    pub term: u64,
    pub leader: NodeId,
    pub prev_entry: u64,
    pub prev_term: u64,
    pub entries: Vec<Entry>,
    pub leader_index: u64,
}

/// Replication acknowledgement.
#[derive(Debug)]
pub struct AppendResponse {
    pub header: Header,
    pub term: u64,
    pub last_log: u64,
    pub success: bool,
}

/// A request for a peer's identity.
#[derive(Debug)]
pub struct InfoRequest {}

/// The peer's identity.
#[derive(Debug)]
pub struct InfoResponse {
    pub node_id: NodeId,
}

/// Everything one peer can say to another on the wire.
#[derive(Debug)]
pub enum Message {
    Ping(Ping),
    AddNodeRequest(String),
    AppendRequest(AppendRequest),
    VoteRequest(VoteRequest),
    VoteResponse(VoteResponse),
    InfoRequest(InfoRequest),
    InfoResponse(InfoResponse),
}

/// What a role's step produces for the transport to carry.
#[derive(Debug)]
pub enum RpcMessage {
    Heartbeat(u64, NodeId),
    Append {
        term: u64,
        leader_id: NodeId,
        prev_log_index: u64,
        prev_log_term: u64,
        entries: Vec<Entry>,
        leader_commit: u64,
    },
    AppendAck { node_id: NodeId, term: u64, index: u64, success: bool },
    Vote { term: u64, candidate_id: NodeId, last_log_index: u64, last_log_term: u64 },
    Ballot { term: u64, voter_id: NodeId, granted: bool },
}

/// An outbound message and the peer it is addressed to.
#[derive(Debug)]
pub struct Envelope {
    pub to: NodeId,
    pub msg: RpcMessage,
}

/// Why a transport call failed.
#[derive(Debug)]
pub enum RpcError {
    /// A connection error occurred; the underlying kind is preserved.
    Connection(RaftError),
}

/// The transport a node speaks through. Implementations deliver the message
/// shapes above; the engine itself never touches a socket.
pub trait Rpc {
    fn heartbeat(&self, node_id: NodeId, term: u64, index: u64, entries: &Vec<Entry>) -> Result<
        (),
        RpcError,
    >;

    fn respond_vote(&self, state: &State, candidate_id: NodeId, granted: bool);

    fn request_vote(&self, state: &State, node_id: NodeId);

    fn ping(&self, node_id: NodeId);

    fn get_header(&self) -> Header;

    fn add_self_to_cluster(&self, address: &str) -> Result<(), RpcError>;
}

/// A transport that drops everything: what a single-node cluster speaks.
pub struct NoopRpc {}

impl NoopRpc {
    pub fn new() -> (r: NoopRpc) {
        NoopRpc {}
    }
}

impl Default for NoopRpc {
    fn default() -> Self {
        NoopRpc {}
    }
}

impl Rpc for NoopRpc {
    fn heartbeat(&self, _node_id: NodeId, _term: u64, _index: u64, _entries: &Vec<Entry>) -> (r:
        Result<(), RpcError>)
        ensures
            r is Ok,
    {
        Ok(())
    }

    fn respond_vote(&self, _state: &State, _candidate_id: NodeId, _granted: bool) {
    }

    fn request_vote(&self, _state: &State, _node_id: NodeId) {
    }

    fn ping(&self, _node_id: NodeId) {
    }

    /// The no-op transport speaks protocol version zero.
    fn get_header(&self) -> (r: Header)
        ensures
            r.version == 0,
    {
        Header { version: 0 }
    }

    fn add_self_to_cluster(&self, _address: &str) -> (r: Result<(), RpcError>)
        ensures
            r is Ok,
    {
        Ok(())
    }
}

} // verus!
