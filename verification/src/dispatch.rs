//! The broker dispatcher's verified core: wire framing, the request
//! header, and the routing rules that send each request to the local log,
//! to the consensus group, or back with a leadership hint.

use vstd::prelude::*;
use crate::codec::{be16, be32, be32_bytes, copy_range, push_u32, read_u16, read_u32};
use crate::controller::{spec_topic_index, ControllerState};
use crate::raft::NodeId;

verus! {

/// One frame taken off the wire: the payload bytes and how many input
/// bytes (prefix included) it spanned.
pub open spec fn spec_take_frame(s: Seq<u8>) -> Option<(Seq<u8>, int)> {
    if s.len() < 4 {
        None
    } else {
        let n = be32(s, 0) as int;
        if 4 + n > s.len() {
            None
        } else {
            Some((s.subrange(4, 4 + n), 4 + n))
        }
    }
}

/// Takes the first length-prefixed frame off `buf`, if one is complete.
pub fn take_frame(buf: &Vec<u8>) -> (r: Option<(Vec<u8>, usize)>)
    ensures
        match r {
            Some((frame, used)) => spec_take_frame(buf@) == Some((frame@, used as int)),
            None => spec_take_frame(buf@) is None,
        },
{
    let len = buf.len();
    if len < 4 {
        return None;
    }
    let n: u64 = read_u32(buf, 0) as u64;
    if 4 + n > len as u64 {
        return None;
    }
    let used: usize = (4 + n) as usize;
    let frame = copy_range(buf, 4, used);
    Some((frame, used))
}

/// Wraps a payload in the 4-byte big-endian length prefix. Taking a frame
/// off the result hands the payload back whole.
pub fn encode_frame(payload: &Vec<u8>) -> (r: Vec<u8>)
    requires
        payload@.len() <= u32::MAX,
    ensures
        r@ == be32_bytes(payload@.len() as u32) + payload@,
        spec_take_frame(r@) == Some((payload@, 4 + payload@.len() as int)),
{
    let mut out: Vec<u8> = Vec::new();
    push_u32(&mut out, payload.len() as u32);
    let mut i: usize = 0;
    proof {
        assert(out@ =~= be32_bytes(payload@.len() as u32) + payload@.take(0));
    }
    while i < payload.len()
        invariant
            i <= payload@.len(),
            out@ == be32_bytes(payload@.len() as u32) + payload@.take(i as int),
            be32(out@, 0) == payload@.len(),
        decreases payload@.len() - i,
    {
        out.push(payload[i]);
        proof {
            assert(out@ =~= be32_bytes(payload@.len() as u32) + payload@.take(i + 1));
        }
        i = i + 1;
    }
    proof {
        assert(payload@.take(payload@.len() as int) =~= payload@);
        assert(out@.subrange(4, 4 + payload@.len() as int) =~= payload@);
    }
    out
}

/// The fixed request header every client frame starts with.
#[derive(Debug)]
pub struct RequestHeader {
    pub api_key: i16,
    pub api_version: i16,
    pub correlation_id: i32,
    pub client_id: Option<Vec<u8>>,
}

/// Reads the request header: api key, api version, correlation id, and the
/// nullable client id (length -1 meaning null).
pub fn parse_request_header(frame: &Vec<u8>) -> (r: Option<RequestHeader>)
    ensures
        r matches Some(h) ==> (frame@.len() >= 10 && h.api_key == be16(frame@, 0) as i16
            && h.api_version == be16(frame@, 2) as i16 && h.correlation_id == be32(
            frame@,
            4,
        ) as i32 && (be16(frame@, 8) == 0xffffu16 <==> h.client_id is None)),
        r is None ==> (frame@.len() < 10 || (be16(frame@, 8) != 0xffffu16 && frame@.len() < 10
            + be16(frame@, 8))),
{
    let len = frame.len();
    if len < 10 {
        return None;
    }
    let api_key = read_u16(frame, 0) as i16;
    let api_version = read_u16(frame, 2) as i16;
    let correlation_id = read_u32(frame, 4) as i32;
    let id_len = read_u16(frame, 8);
    if id_len == 0xffff {
        return Some(RequestHeader { api_key, api_version, correlation_id, client_id: None });
    }
    if (len as u64) < 10 + (id_len as u64) {
        return None;
    }
    let client_id = copy_range(frame, 10, 10 + (id_len as usize));
    Some(RequestHeader { api_key, api_version, correlation_id, client_id: Some(client_id) })
}

/// Where the dispatcher sends one decoded request.
#[derive(Clone, Copy, PartialEq, Eq, Structural, Debug)]
pub enum Route {
    /// Served from the local controller snapshot, no consensus round-trip.
    Snapshot,
    /// Serialized into an entry payload and proposed to the Raft node.
    Proposal,
    /// Served by the local partition log, leadership permitting.
    Log,
    /// Not an API this broker implements.
    Unsupported,
}

/// The dispatch rule by API key: metadata reads from the snapshot,
/// topic mutations through consensus, produce/fetch/offsets from the log.
pub fn route_api(api_key: i16) -> (r: Route)
    ensures
        r == Route::Snapshot <==> (api_key == 3 || api_key == 18 || api_key == 10),
        r == Route::Proposal <==> (api_key == 19 || api_key == 20),
        r == Route::Log <==> (api_key == 0 || api_key == 1 || api_key == 2),
{
    if api_key == 3 || api_key == 18 || api_key == 10 {
        Route::Snapshot
    } else if api_key == 19 || api_key == 20 {
        Route::Proposal
    } else if api_key == 0 || api_key == 1 || api_key == 2 {
        Route::Log
    } else {
        Route::Unsupported
    }
}

/// What a produce or fetch against one partition resolves to.
#[derive(Clone, Copy, PartialEq, Eq, Structural, Debug)]
pub enum PartitionDispatch {
    /// This broker leads the partition: serve from the local log.
    Local,
    /// Another broker leads it: answer with the hint.
    NotLeader { leader_hint: Option<NodeId> },
    /// No such topic or partition in the metadata.
    Unknown,
}

/// Decides a produce/fetch: local exactly when this broker leads the
/// partition in the controller's current metadata; otherwise the current
/// leader is handed back as the routing hint.
pub fn dispatch_partition(
    state: &ControllerState,
    topic: &Vec<u8>,
    partition: u32,
    me: NodeId,
) -> (r: PartitionDispatch)
    ensures
        ({
            let ti = spec_topic_index(state@.topics, topic@);
            if ti < 0 {
                r == PartitionDispatch::Unknown
            } else if partition >= state@.topics[ti].assignments.len() {
                r == PartitionDispatch::Unknown
            } else if state@.topics[ti].assignments[partition as int].leader == me {
                r == PartitionDispatch::Local
            } else {
                r == (PartitionDispatch::NotLeader {
                    leader_hint: Some(state@.topics[ti].assignments[partition as int].leader),
                })
            }
        }),
{
    match state.find_topic(topic) {
        None => PartitionDispatch::Unknown,
        Some(i) => {
            let t = &state.topics[i];
            if (partition as usize) >= t.assignments.len() {
                PartitionDispatch::Unknown
            } else {
                let leader = t.assignments[partition as usize].leader;
                if leader == me {
                    PartitionDispatch::Local
                } else {
                    PartitionDispatch::NotLeader { leader_hint: Some(leader) }
                }
            }
        },
    }
}

} // verus!
