//! Leader-side replication progress: one record per peer, and the quorum
//! rule that advances the commit index.

use vstd::prelude::*;
use crate::raft::NodeId;

verus! {

/// A leader streams at most this many entries ahead of a confirmed match.
pub const MAX_INFLIGHT: u64 = 64;

/// Match point and send cursor for one peer.
///
/// `index` is the highest index known replicated on the peer; `next` is the
/// next index to send.
#[derive(Clone, Copy, Debug)]
pub struct Progress {
    pub index: u64,
    pub next: u64,
}

impl Progress {
    /// The send cursor is always ahead of the confirmed match.
    pub open spec fn wf(self) -> bool {
        self.index < self.next
    }
}

/// The replication mode a peer is in.
///
/// Probe sends one entry at a time to find the match point; Replicate streams
/// batches; Snapshot is a placeholder for state transfer, not implemented.
#[derive(Clone, Copy, Debug)]
pub enum ProgressHandle {
    Probe(Progress),
    Replicate(Progress),
    Snapshot(Progress),
}

impl ProgressHandle {
    pub open spec fn spec_progress(self) -> Progress {
        match self {
            ProgressHandle::Probe(p) => p,
            ProgressHandle::Replicate(p) => p,
            ProgressHandle::Snapshot(p) => p,
        }
    }

    pub open spec fn wf(self) -> bool {
        self.spec_progress().wf()
    }

    /// The match point and send cursor, whatever the mode.
    pub fn progress(&self) -> (r: Progress)
        ensures
            r == self.spec_progress(),
    {
        match self {
            ProgressHandle::Probe(p) => *p,
            ProgressHandle::Replicate(p) => *p,
            ProgressHandle::Snapshot(p) => *p,
        }
    }
}

/// Progress of one identified peer.
#[derive(Clone, Copy, Debug)]
pub struct PeerProgress {
    pub node_id: NodeId,
    pub handle: ProgressHandle,
}

/// Leader-only table: replication progress per peer, the leader excluded.
#[derive(Debug)]
pub struct ReplicationProgress {
    pub peers: Vec<PeerProgress>,
}

/// How many of the peers in `s` acknowledge index `n` or beyond.
pub open spec fn peer_ack_count(s: Seq<PeerProgress>, n: u64) -> int
    decreases s.len(),
{
    if s.len() == 0 {
        0
    } else {
        peer_ack_count(s.drop_last(), n) + if s.last().handle.spec_progress().index >= n {
            1int
        } else {
            0int
        }
    }
}

/// `n` is acknowledged by a strict majority of the `cluster_size` nodes,
/// the leader itself (which always holds its own log) included.
pub open spec fn quorum_acked(
    s: Seq<PeerProgress>,
    n: u64,
    self_match: u64,
    cluster_size: int,
) -> bool {
    2 * (peer_ack_count(s, n) + if self_match >= n {
        1int
    } else {
        0int
    }) > cluster_size
}

proof fn lemma_ack_count_take(s: Seq<PeerProgress>, n: u64, i: int)
    requires
        0 <= i < s.len(),
    ensures
        peer_ack_count(s.take(i + 1), n) == peer_ack_count(s.take(i), n) + if s[i].handle.spec_progress().index
            >= n {
            1int
        } else {
            0int
        },
{
    let t = s.take(i + 1);
    assert(t.drop_last() =~= s.take(i));
    assert(t.last() == s[i]);
}

/// How `record_success(node_id, index)` rewrites the table: the matched
/// peer rises to `Replicate` with its match point at `max(old, index)` and
/// the cursor just past it; every other peer is untouched.
pub open spec fn spec_success_update(
    p0: ReplicationProgress,
    p1: ReplicationProgress,
    node_id: NodeId,
    index: u64,
) -> bool {
    &&& p1.peers@.len() == p0.peers@.len()
    &&& forall|i: int|
        0 <= i < p0.peers@.len() && p0.peers@[i].node_id != node_id ==> (
        #[trigger] p1.peers@[i]) == p0.peers@[i]
    &&& forall|i: int|
        0 <= i < p0.peers@.len() && p0.peers@[i].node_id == node_id ==> ((
        #[trigger] p1.peers@[i]).handle matches ProgressHandle::Replicate(p) && p.index == (
        if index >= p0.peers@[i].handle.spec_progress().index {
            index
        } else {
            p0.peers@[i].handle.spec_progress().index
        }) && p.next == p.index + 1)
}

/// How `record_failure(node_id)` rewrites the table: the matched peer
/// falls back to `Probe` with its cursor stepped back by one, never behind
/// the match point; every other peer is untouched.
pub open spec fn spec_failure_update(
    p0: ReplicationProgress,
    p1: ReplicationProgress,
    node_id: NodeId,
) -> bool {
    &&& p1.peers@.len() == p0.peers@.len()
    &&& forall|i: int|
        0 <= i < p0.peers@.len() && p0.peers@[i].node_id != node_id ==> (
        #[trigger] p1.peers@[i]) == p0.peers@[i]
    &&& forall|i: int|
        0 <= i < p0.peers@.len() && p0.peers@[i].node_id == node_id ==> ((
        #[trigger] p1.peers@[i]).handle matches ProgressHandle::Probe(p) && p.index
            == p0.peers@[i].handle.spec_progress().index && p.next == (
        if p0.peers@[i].handle.spec_progress().next - 1 > p.index {
            (p0.peers@[i].handle.spec_progress().next - 1) as u64
        } else {
            (p.index + 1) as u64
        }))
}

/// No peer acknowledges `n` when every match point lies below it.
pub proof fn lemma_ack_count_zero(s: Seq<PeerProgress>, n: u64)
    requires
        forall|i: int|
            0 <= i < s.len() ==> (#[trigger] s[i]).handle.spec_progress().index < n,
    ensures
        peer_ack_count(s, n) == 0,
    decreases s.len(),
{
    if s.len() > 0 {
        assert(forall|i: int|
            0 <= i < s.drop_last().len() ==> (#[trigger] s.drop_last()[i]) == s[i]);
        lemma_ack_count_zero(s.drop_last(), n);
    }
}

impl ReplicationProgress {
    pub open spec fn wf(self) -> bool {
        &&& forall|i: int| 0 <= i < self.peers@.len() ==> (#[trigger] self.peers@[i].handle).wf()
        &&& forall|i: int, j: int|
            0 <= i < j < self.peers@.len() ==> (#[trigger] self.peers@[i].node_id) != (
            #[trigger] self.peers@[j].node_id)
    }

    /// One Probe record per peer: nothing matched yet, send from `next`.
    pub fn new(peer_ids: &Vec<NodeId>, next: u64) -> (r: ReplicationProgress)
        requires
            next >= 1,
            forall|i: int, j: int|
                0 <= i < j < peer_ids@.len() ==> (#[trigger] peer_ids@[i]) != (
                #[trigger] peer_ids@[j]),
        ensures
            r.wf(),
            r.peers@.len() == peer_ids@.len(),
            forall|i: int|
                0 <= i < r.peers@.len() ==> ((#[trigger] r.peers@[i]).node_id == peer_ids@[i]
                    && (r.peers@[i].handle matches ProgressHandle::Probe(p) && p.index == 0
                    && p.next == next)),
    {
        let mut peers: Vec<PeerProgress> = Vec::new();
        let mut i: usize = 0;
        while i < peer_ids.len()
            invariant
                i <= peer_ids@.len(),
                next >= 1,
                peers@.len() == i,
                forall|k: int, j: int|
                    0 <= k < j < peer_ids@.len() ==> (#[trigger] peer_ids@[k]) != (
                    #[trigger] peer_ids@[j]),
                forall|k: int|
                    0 <= k < i ==> ((#[trigger] peers@[k]).node_id == peer_ids@[k]
                        && (peers@[k].handle matches ProgressHandle::Probe(p) && p.index == 0
                        && p.next == next)),
            decreases peer_ids@.len() - i,
        {
            peers.push(
                PeerProgress {
                    node_id: peer_ids[i],
                    handle: ProgressHandle::Probe(Progress { index: 0, next }),
                },
            );
            i = i + 1;
        }
        ReplicationProgress { peers }
    }

    /// The progress record of `node_id`, copied out, if the peer is known.
    pub fn get(&self, node_id: NodeId) -> (r: Option<ProgressHandle>)
        ensures
            match r {
                Some(h) => exists|i: int|
                    0 <= i < self.peers@.len() && (#[trigger] self.peers@[i].node_id) == node_id
                        && self.peers@[i].handle == h,
                None => forall|i: int|
                    0 <= i < self.peers@.len() ==> (#[trigger] self.peers@[i].node_id) != node_id,
            },
    {
        let mut i: usize = 0;
        while i < self.peers.len()
            invariant
                i <= self.peers@.len(),
                forall|k: int|
                    0 <= k < i ==> (#[trigger] self.peers@[k].node_id) != node_id,
            decreases self.peers@.len() - i,
        {
            if self.peers[i].node_id == node_id {
                return Some(self.peers[i].handle);
            }
            i = i + 1;
        }
        None
    }

    /// Replaces the record of `node_id` with `handle`; no other peer changes.
    pub fn set(&mut self, node_id: NodeId, handle: ProgressHandle)
        requires
            old(self).wf(),
            handle.wf(),
        ensures
            final(self).wf(),
            final(self).peers@.len() == old(self).peers@.len(),
            forall|i: int|
                0 <= i < old(self).peers@.len() ==> (#[trigger] final(self).peers@[i]).node_id
                    == old(self).peers@[i].node_id,
            forall|i: int|
                0 <= i < old(self).peers@.len() && old(self).peers@[i].node_id != node_id ==> (
                #[trigger] final(self).peers@[i]) == old(self).peers@[i],
            forall|i: int|
                0 <= i < old(self).peers@.len() && old(self).peers@[i].node_id == node_id ==> (
                #[trigger] final(self).peers@[i]).handle == handle,
    {
        let mut i: usize = 0;
        while i < self.peers.len()
            invariant
                i <= self.peers@.len(),
                self.peers@.len() == old(self).peers@.len(),
                old(self).wf(),
                handle.wf(),
                forall|k: int|
                    0 <= k < self.peers@.len() ==> (#[trigger] self.peers@[k]).node_id == old(
                        self,
                    ).peers@[k].node_id,
                forall|k: int|
                    0 <= k < self.peers@.len() && !(0 <= k < i && old(self).peers@[k].node_id
                        == node_id) ==> (#[trigger] self.peers@[k]) == old(self).peers@[k],
                forall|k: int|
                    0 <= k < i && old(self).peers@[k].node_id == node_id ==> (
                    #[trigger] self.peers@[k]).handle == handle,
            decreases self.peers@.len() - i,
        {
            if self.peers[i].node_id == node_id {
                let id = self.peers[i].node_id;
                self.peers.set(i, PeerProgress { node_id: id, handle });
            }
            i = i + 1;
        }
    }

    /// A successful acknowledgement of `index`: the match point rises to it
    /// (never regressing) and the peer streams from the entry after it.
    pub fn record_success(&mut self, node_id: NodeId, index: u64)
        requires
            old(self).wf(),
            index < u64::MAX,
        ensures
            final(self).wf(),
            final(self).peers@.len() == old(self).peers@.len(),
            forall|i: int|
                0 <= i < old(self).peers@.len() && old(self).peers@[i].node_id != node_id ==> (
                #[trigger] final(self).peers@[i]) == old(self).peers@[i],
            // the match point never regresses
            forall|i: int|
                0 <= i < old(self).peers@.len() && old(self).peers@[i].node_id == node_id ==> ((
                #[trigger] final(self).peers@[i]).handle matches ProgressHandle::Replicate(p)
                    && p.index == if index >= old(self).peers@[i].handle.spec_progress().index {
                    index
                } else {
                    old(self).peers@[i].handle.spec_progress().index
                } && p.next == p.index + 1),
            spec_success_update(*old(self), *final(self), node_id, index),
    {
        match self.get(node_id) {
            Some(h) => {
                let p = h.progress();
                proof {
                    let i = choose|i: int|
                        0 <= i < self.peers@.len() && (#[trigger] self.peers@[i].node_id)
                            == node_id && self.peers@[i].handle == h;
                    assert(self.peers@[i].handle.wf());
                }
                let new_match: u64 = if index >= p.index {
                    index
                } else {
                    p.index
                };
                let fresh = Progress { index: new_match, next: new_match + 1 };
                self.set(node_id, ProgressHandle::Replicate(fresh));
            },
            None => {},
        }
    }

    /// A failed acknowledgement: step the send cursor back by one (never
    /// behind the match point) and fall back to probing.
    pub fn record_failure(&mut self, node_id: NodeId)
        requires
            old(self).wf(),
        ensures
            final(self).wf(),
            final(self).peers@.len() == old(self).peers@.len(),
            forall|i: int|
                0 <= i < old(self).peers@.len() && old(self).peers@[i].node_id != node_id ==> (
                #[trigger] final(self).peers@[i]) == old(self).peers@[i],
            forall|i: int|
                0 <= i < old(self).peers@.len() && old(self).peers@[i].node_id == node_id ==> ((
                #[trigger] final(self).peers@[i]).handle matches ProgressHandle::Probe(p)
                    && p.index == old(self).peers@[i].handle.spec_progress().index && p.next == if old(
                    self,
                ).peers@[i].handle.spec_progress().next - 1 > p.index {
                    (old(self).peers@[i].handle.spec_progress().next - 1) as u64
                } else {
                    (p.index + 1) as u64
                }),
            spec_failure_update(*old(self), *final(self), node_id),
    {
        match self.get(node_id) {
            Some(h) => {
                let p = h.progress();
                proof {
                    let i = choose|i: int|
                        0 <= i < self.peers@.len() && (#[trigger] self.peers@[i].node_id)
                            == node_id && self.peers@[i].handle == h;
                    assert(self.peers@[i].handle.wf());
                }
                let new_next: u64 = if p.next - 1 > p.index {
                    p.next - 1
                } else {
                    p.index + 1
                };
                self.set(node_id, ProgressHandle::Probe(Progress { index: p.index, next: new_next }));
            },
            None => {},
        }
    }

    /// The number of peers whose match point is at or past `n`.
    pub fn ack_count(&self, n: u64) -> (r: usize)
        ensures
            r == peer_ack_count(self.peers@, n),
            r <= self.peers@.len(),
    {
        let mut count: usize = 0;
        let mut i: usize = 0;
        while i < self.peers.len()
            invariant
                i <= self.peers@.len(),
                count == peer_ack_count(self.peers@.take(i as int), n),
                count <= i,
            decreases self.peers@.len() - i,
        {
            let p = self.peers[i].handle.progress();
            proof {
                lemma_ack_count_take(self.peers@, n, i as int);
            }
            if p.index >= n {
                count = count + 1;
            }
            i = i + 1;
        }
        proof {
            assert(self.peers@.take(self.peers@.len() as int) =~= self.peers@);
        }
        count
    }

    /// The largest index acknowledged by a quorum of the cluster, or 0.
    ///
    /// `self_match` is the leader's own log end (the leader always counts
    /// itself); `cluster_size` is the number of nodes in the cluster. Any
    /// index above the result that some node's match point names lacks a
    /// quorum; since an index with no acknowledgement at all can have no
    /// quorum either, no index above the result is quorum-acknowledged.
    pub fn committed_index(&self, self_match: u64, cluster_size: usize) -> (r: u64)
        requires
            self.peers@.len() < usize::MAX,
        ensures
            r == 0 || quorum_acked(self.peers@, r, self_match, cluster_size as int),
            forall|i: int|
                0 <= i < self.peers@.len() && (#[trigger] self.peers@[i].handle).spec_progress().index
                    > r ==> !quorum_acked(
                    self.peers@,
                    self.peers@[i].handle.spec_progress().index,
                    self_match,
                    cluster_size as int,
                ),
            self_match > r ==> !quorum_acked(
                self.peers@,
                self_match,
                self_match,
                cluster_size as int,
            ),
    {
        let mut best: u64 = 0;
        let self_cnt = self.ack_count(self_match);
        let self_votes: usize = self_cnt + 1;
        if self_votes > cluster_size / 2 {
            best = self_match;
        }
        let mut i: usize = 0;
        while i < self.peers.len()
            invariant
                i <= self.peers@.len(),
                self.peers@.len() < usize::MAX,
                best == 0 || quorum_acked(self.peers@, best, self_match, cluster_size as int),
                forall|k: int|
                    0 <= k < i && (#[trigger] self.peers@[k].handle).spec_progress().index > best
                        ==> !quorum_acked(
                        self.peers@,
                        self.peers@[k].handle.spec_progress().index,
                        self_match,
                        cluster_size as int,
                    ),
                self_match > best ==> !quorum_acked(
                    self.peers@,
                    self_match,
                    self_match,
                    cluster_size as int,
                ),
            decreases self.peers@.len() - i,
        {
            let c = self.peers[i].handle.progress().index;
            if c > best {
                let cnt = self.ack_count(c);
                let votes: usize = if self_match >= c {
                    cnt + 1
                } else {
                    cnt
                };
                if votes > cluster_size / 2 {
                    best = c;
                }
            }
            i = i + 1;
        }
        best
    }
}

} // verus!
