//! The leader role: heartbeats, per-peer replication batches, and the
//! quorum commit rule.

use vstd::prelude::*;
use crate::error::RaftError;
use crate::follower::Follower;
use crate::progress::{
    lemma_ack_count_zero, quorum_acked, spec_failure_update, spec_success_update, Progress,
    ProgressHandle, ReplicationProgress, MAX_INFLIGHT,
};
use crate::raft::{
    election_timeout, lemma_other_count_take, models_of, sat_add, spec_cmd_term,
    spec_election_timeout, spec_other_count, spec_sat_add, state_advances, Command, EntryModel,
    NodeId, Raft, RaftHandle, RaftRole, Role,
};
use crate::rpc::{Envelope, RpcMessage};

verus! {

/// Role-specific data of a leader: replication progress per peer, and the
/// heartbeat cadence.
#[derive(Debug)]
pub struct Leader {
    pub progress: crate::progress::ReplicationProgress,
    /// The clock reading of the last heartbeat round.
    pub heartbeat_time: u64,
    /// Ticks allowed to pass without one.
    pub heartbeat_timeout: u64,
}

impl Leader {
    pub open spec fn wf(self) -> bool {
        &&& self.progress.wf()
        &&& self.progress.peers@.len() < usize::MAX
    }
}

impl Role for Leader {
    /// A leader has no term hook of its own; the role data is untouched.
    fn term(&mut self, _term: u64)
        ensures
            *final(self) == *old(self),
    {
    }

    fn role(&self) -> (r: RaftRole)
        ensures
            r == RaftRole::Leader,
    {
        RaftRole::Leader
    }
}

/// Whether the table holds a record for `id` that a tick replicates to
/// (snapshot transfer is not implemented, so Snapshot peers are skipped).
pub open spec fn spec_sends(p: ReplicationProgress, id: NodeId) -> bool {
    exists|j: int|
        0 <= j < p.peers@.len() && (#[trigger] p.peers@[j]).node_id == id && !(p.peers@[j].handle
            matches ProgressHandle::Snapshot(_))
}

/// How a non-empty Replicate batch moves the table: the matched peer's
/// cursor advances to `new_next`, its match point stays, everything else
/// is untouched.
pub open spec fn spec_cursor_advance(
    p0: ReplicationProgress,
    p1: ReplicationProgress,
    node_id: NodeId,
    pr: Progress,
    new_next: u64,
) -> bool {
    &&& p1.peers@.len() == p0.peers@.len()
    &&& forall|i: int|
        0 <= i < p0.peers@.len() && p0.peers@[i].node_id != node_id ==> (
        #[trigger] p1.peers@[i]) == p0.peers@[i]
    &&& forall|i: int|
        0 <= i < p0.peers@.len() && p0.peers@[i].node_id == node_id ==> ((
        #[trigger] p1.peers@[i]).handle matches ProgressHandle::Replicate(p) && p.index
            == pr.index && p.next == new_next)
}

impl From<Raft<Leader>> for Raft<Follower> {
    /// A leader that observed a newer term steps down: same identity,
    /// state, log and cluster map; no known leader; a fresh election
    /// deadline.
    fn from(val: Raft<Leader>) -> (r: Raft<Follower>) {
        let t = election_timeout(&val.config, val.id, val.state.current_term);
        let deadline = sat_add(val.clock, t);
        Raft {
            id: val.id,
            state: val.state,
            nodes: val.nodes,
            role: Follower { leader_id: None, election_deadline: deadline },
            config: val.config,
            log: val.log,
            clock: val.clock,
            outbox: val.outbox,
            fsm: val.fsm,
            applied: val.applied,
        }
    }
}

impl vstd::std_specs::convert::FromSpecImpl<Raft<Leader>> for Raft<Follower> {
    open spec fn obeys_from_spec() -> bool {
        true
    }

    open spec fn from_spec(val: Raft<Leader>) -> Raft<Follower> {
        Raft {
            id: val.id,
            state: val.state,
            nodes: val.nodes,
            role: Follower {
                leader_id: None,
                election_deadline: spec_sat_add(
                    val.clock,
                    spec_election_timeout(val.config, val.id, val.state.current_term),
                ),
            },
            config: val.config,
            log: val.log,
            clock: val.clock,
            outbox: val.outbox,
            fsm: val.fsm,
            applied: val.applied,
        }
    }
}

impl Raft<Leader> {
    /// Everything a leader step relies on: the core invariants, a
    /// well-formed table whose match points lie inside the log, and a
    /// heartbeat stamp not in the future.
    pub open spec fn lwf(self) -> bool {
        &&& self.core_wf()
        &&& self.role.wf()
        &&& self.role.heartbeat_time <= self.clock
        &&& forall|i: int|
            0 <= i < self.role.progress.peers@.len() ==> (
            #[trigger] self.role.progress.peers@[i]).handle.spec_progress().index
                <= self.log.entries@.len()
    }

    /// Queues exactly one heartbeat for every other cluster member, in
    /// cluster order; nothing else changes.
    pub fn heartbeat(&mut self) -> (r: Result<(), RaftError>)
        requires
            old(self).lwf(),
        ensures
            r is Ok,
            final(self).lwf(),
            final(self).state == old(self).state,
            final(self).log == old(self).log,
            final(self).role == old(self).role,
            final(self).clock == old(self).clock,
            final(self).fsm == old(self).fsm,
            final(self).same_core(*old(self)),
            final(self).outbox@.len() == old(self).outbox@.len() + spec_other_count(
                old(self).nodes@,
                old(self).id,
            ),
            forall|k: int|
                0 <= k < old(self).outbox@.len() ==> (#[trigger] final(self).outbox@[k]) == old(
                    self,
                ).outbox@[k],
            forall|k: int|
                old(self).outbox@.len() <= k < final(self).outbox@.len() ==>
                ((#[trigger] final(self).outbox@[k]).msg matches RpcMessage::Heartbeat(t, l) && t
                    == old(self).state.current_term && l == old(self).id && final(self).outbox@[k].to
                    != old(self).id),
    {
        let term = self.state.current_term;
        let me = self.id;
        let mut i: usize = 0;
        proof {
            assert(self.nodes@.take(0) =~= Seq::<crate::raft::Node>::empty());
        }
        while i < self.nodes.len()
            invariant
                i <= self.nodes@.len(),
                self.lwf(),
                self.state == old(self).state,
                self.log == old(self).log,
                self.role == old(self).role,
                self.clock == old(self).clock,
                self.fsm == old(self).fsm,
                self.id == old(self).id,
                self.nodes == old(self).nodes,
                self.config == old(self).config,
                term == old(self).state.current_term,
                me == old(self).id,
                0 <= spec_other_count(self.nodes@.take(i as int), me),
                self.outbox@.len() == old(self).outbox@.len() + spec_other_count(
                    self.nodes@.take(i as int),
                    me,
                ),
                forall|k: int|
                    0 <= k < old(self).outbox@.len() ==> (#[trigger] self.outbox@[k]) == old(
                        self,
                    ).outbox@[k],
                forall|k: int|
                    old(self).outbox@.len() <= k < self.outbox@.len() ==>
                    ((#[trigger] self.outbox@[k]).msg matches RpcMessage::Heartbeat(t, l) && t
                        == term && l == me && self.outbox@[k].to != me),
            decreases self.nodes@.len() - i,
        {
            let peer = self.nodes[i].id;
            proof {
                lemma_other_count_take(self.nodes@, me, i as int);
            }
            if peer != me {
                self.outbox.push(Envelope { to: peer, msg: RpcMessage::Heartbeat(term, me) });
            }
            i = i + 1;
        }
        proof {
            assert(self.nodes@.take(self.nodes@.len() as int) =~= self.nodes@);
        }
        Ok(())
    }

    /// Whether the heartbeat cadence has lapsed.
    pub fn needs_heartbeat(&self) -> (r: bool)
        requires
            self.role.heartbeat_time <= self.clock,
        ensures
            r == (self.clock - self.role.heartbeat_time > self.role.heartbeat_timeout),
    {
        self.clock - self.role.heartbeat_time > self.role.heartbeat_timeout
    }

    /// Stamps the heartbeat clock with now.
    pub fn reset_heartbeat_timer(&mut self)
        ensures
            final(self).role.heartbeat_time == old(self).clock,
            final(self).role.progress == old(self).role.progress,
            final(self).role.heartbeat_timeout == old(self).role.heartbeat_timeout,
            final(self).state == old(self).state,
            final(self).log == old(self).log,
            final(self).outbox == old(self).outbox,
            final(self).clock == old(self).clock,
            final(self).fsm == old(self).fsm,
            final(self).same_core(*old(self)),
    {
        self.role.heartbeat_time = self.clock;
    }

    /// Queues the next replication batch for one peer: exactly one
    /// `Append` whose previous point is the entry before the send cursor
    /// and whose entries are the log's clipped range from the cursor — up
    /// to `MAX_INFLIGHT` entries for a Replicate peer (whose cursor then
    /// advances optimistically past a non-empty batch), a single entry for
    /// a Probe peer (whose cursor holds until it answers). Snapshot
    /// transfer is not implemented, so a Snapshot peer is left alone.
    pub fn _append_entry(&mut self, node_id: NodeId, handle: ProgressHandle)
        requires
            old(self).lwf(),
            handle.wf(),
            forall|i: int|
                0 <= i < old(self).role.progress.peers@.len() && (
                #[trigger] old(self).role.progress.peers@[i]).node_id == node_id ==> old(
                    self,
                ).role.progress.peers@[i].handle == handle,
        ensures
            final(self).lwf(),
            final(self).state == old(self).state,
            final(self).log == old(self).log,
            final(self).clock == old(self).clock,
            final(self).fsm == old(self).fsm,
            final(self).same_core(*old(self)),
            final(self).role.heartbeat_time == old(self).role.heartbeat_time,
            final(self).role.heartbeat_timeout == old(self).role.heartbeat_timeout,
            final(self).role.progress.peers@.len() == old(self).role.progress.peers@.len(),
            forall|i: int|
                0 <= i < old(self).role.progress.peers@.len() ==> (
                #[trigger] final(self).role.progress.peers@[i]).node_id == old(
                    self,
                ).role.progress.peers@[i].node_id,
            forall|i: int|
                0 <= i < old(self).role.progress.peers@.len() ==> ((
                #[trigger] final(self).role.progress.peers@[i]).handle matches
                    ProgressHandle::Snapshot(_) <==> old(self).role.progress.peers@[i].handle
                    matches ProgressHandle::Snapshot(_)),
            handle matches ProgressHandle::Snapshot(_) ==> (final(self).outbox == old(self).outbox
                && final(self).role.progress == old(self).role.progress),
            !(handle matches ProgressHandle::Snapshot(_)) ==> ({
                let p = handle.spec_progress();
                let hi = if handle matches ProgressHandle::Replicate(_) {
                    spec_sat_add(p.next, MAX_INFLIGHT)
                } else {
                    spec_sat_add(p.next, 1)
                };
                &&& final(self).outbox@.len() == old(self).outbox@.len() + 1
                &&& (forall|k: int|
                    0 <= k < old(self).outbox@.len() ==> (#[trigger] final(self).outbox@[k])
                        == old(self).outbox@[k])
                &&& final(self).outbox@.last().to == node_id
                &&& (final(self).outbox@.last().msg matches RpcMessage::Append {
                    term,
                    leader_id,
                    prev_log_index,
                    prev_log_term,
                    entries,
                    leader_commit,
                } && term == old(self).state.current_term && leader_id == old(self).id
                    && prev_log_index == (p.next - 1) as u64 && prev_log_term == old(
                    self,
                ).log.spec_term_at((p.next - 1) as u64) && models_of(entries@) == old(
                    self,
                ).log.spec_range_models(p.next, hi) && leader_commit == old(
                    self,
                ).state.commit_index)
            }),
            handle matches ProgressHandle::Probe(_) ==> final(self).role.progress == old(
                self,
            ).role.progress,
            handle matches ProgressHandle::Replicate(p) ==> (if old(self).log.spec_range_len(
                p.next,
                spec_sat_add(p.next, MAX_INFLIGHT),
            ) > 0 {
                spec_cursor_advance(
                    old(self).role.progress,
                    final(self).role.progress,
                    node_id,
                    p,
                    spec_sat_add(
                        p.next,
                        old(self).log.spec_range_len(p.next, spec_sat_add(p.next, MAX_INFLIGHT)) as u64,
                    ),
                )
            } else {
                final(self).role.progress == old(self).role.progress
            }),
    {
        match handle {
            ProgressHandle::Replicate(p) => {
                let hi = sat_add(p.next, MAX_INFLIGHT);
                let entries = self.log.get_range(p.next, hi);
                let len: u64 = entries.len() as u64;
                let prev = p.next - 1;
                let prev_term = self.log.term_at(prev);
                self.outbox.push(
                    Envelope {
                        to: node_id,
                        msg: RpcMessage::Append {
                            term: self.state.current_term,
                            leader_id: self.id,
                            prev_log_index: prev,
                            prev_log_term: prev_term,
                            entries,
                            leader_commit: self.state.commit_index,
                        },
                    },
                );
                if len > 0 {
                    let new_next = sat_add(p.next, len);
                    self.role.progress.set(
                        node_id,
                        ProgressHandle::Replicate(Progress { index: p.index, next: new_next }),
                    );
                }
            },
            ProgressHandle::Probe(p) => {
                let hi = sat_add(p.next, 1);
                let entries = self.log.get_range(p.next, hi);
                let prev = p.next - 1;
                let prev_term = self.log.term_at(prev);
                self.outbox.push(
                    Envelope {
                        to: node_id,
                        msg: RpcMessage::Append {
                            term: self.state.current_term,
                            leader_id: self.id,
                            prev_log_index: prev,
                            prev_log_term: prev_term,
                            entries,
                            leader_commit: self.state.commit_index,
                        },
                    },
                );
            },
            ProgressHandle::Snapshot(_) => {
            },
        }
    }

    /// One command applied to a leader.
    ///
    /// A tick drives the heartbeat fan-out (one per other node when due)
    /// and one replication batch per tracked peer. A successful
    /// acknowledgement moves that peer's progress per
    /// `spec_success_update` and the commit index to the largest
    /// quorum-acknowledged index of the current term (and is applied
    /// through the controller); a failed one steps the peer back to Probe
    /// and changes nothing else. A newer term in any message makes this
    /// node a follower at that term with identity, log and cluster map
    /// preserved. A proposal appends one entry of the current term.
    pub fn apply(self, cmd: Command) -> (r: Result<RaftHandle, RaftError>)
        requires
            self.lwf(),
        ensures
            r matches Err(_) ==> (cmd matches Command::Propose { .. }
                && self.log.spec_last_index() >= usize::MAX - 1),
            r matches Ok(h) ==> h.wf() && state_advances(self.state, h.spec_state()),
            // a newer term in any message ends the leadership, everything
            // but the role preserved
            spec_cmd_term(cmd) > self.state.current_term ==> (r matches Ok(h) && (h matches
                RaftHandle::Follower(f) && f.state.current_term == spec_cmd_term(cmd) && f.log
                == self.log && f.id == self.id && f.nodes == self.nodes && f.config == self.config
                && f.state.commit_index == self.state.commit_index && f.state.last_applied
                == self.state.last_applied && f.fsm == self.fsm && f.outbox == self.outbox)),
            cmd matches Command::AppendEntries { term, .. } ==> (term <= self.state.current_term
                ==> (r matches Ok(h) && h matches RaftHandle::Leader(l) && l.state == self.state
                && l.log == self.log && l.outbox == self.outbox && l.role == self.role)),
            cmd matches Command::VoteRequest { term, .. } ==> (term <= self.state.current_term
                ==> (r matches Ok(h) && h matches RaftHandle::Leader(l) && l.state == self.state
                && l.log == self.log && l.outbox == self.outbox && l.role == self.role)),
            cmd matches Command::VoteResponse { term, .. } ==> (term <= self.state.current_term
                ==> (r matches Ok(h) && h matches RaftHandle::Leader(l) && l.state == self.state
                && l.log == self.log && l.outbox == self.outbox && l.role == self.role)),
            // a proposal is appended to the local log at the current term
            cmd matches Command::Propose { payload } ==> (self.log.spec_last_index() < usize::MAX
                - 1 ==> (r matches Ok(h) && h matches RaftHandle::Leader(l)
                && l.log.spec_models() == self.log.spec_models().push(
                EntryModel {
                    index: (self.log.spec_last_index() + 1) as u64,
                    term: self.state.current_term,
                    payload: payload@,
                },
            ) && l.state.current_term == self.state.current_term && l.state.commit_index
                == self.state.commit_index)),
            cmd matches Command::AppendResponse { node_id, term, index, success } ==> (term
                <= self.state.current_term ==> (r matches Ok(h) && h matches RaftHandle::Leader(l)
                && {
                &&& l.log == self.log
                &&& l.state.current_term == self.state.current_term
                &&& l.outbox == self.outbox
                &&& l.clock == self.clock
                // a failed ack: the peer steps back to Probe, nothing else
                &&& (!success ==> (l.state == self.state && l.fsm == self.fsm
                    && spec_failure_update(self.role.progress, l.role.progress, node_id)))
                // a successful ack: the peer's match point rises
                &&& (success && index <= self.log.entries@.len() && index < u64::MAX
                    ==> spec_success_update(
                    self.role.progress,
                    l.role.progress,
                    node_id,
                    index,
                ))
                // the commit index moves only to a quorum-acknowledged
                // index of the current term, and no higher such index
                // remains among the peers' match points
                &&& (success ==> {
                    &&& (l.state.commit_index == self.state.commit_index || (quorum_acked(
                        l.role.progress.peers@,
                        l.state.commit_index,
                        self.log.spec_last_index(),
                        self.nodes@.len() as int,
                    ) && l.log.spec_term_at(l.state.commit_index) == self.state.current_term))
                    &&& (forall|i: int|
                        0 <= i < l.role.progress.peers@.len() && (
                        #[trigger] l.role.progress.peers@[i]).handle.spec_progress().index
                            > l.state.commit_index ==> !(quorum_acked(
                            l.role.progress.peers@,
                            l.role.progress.peers@[i].handle.spec_progress().index,
                            self.log.spec_last_index(),
                            self.nodes@.len() as int,
                        ) && l.log.spec_term_at(
                            l.role.progress.peers@[i].handle.spec_progress().index,
                        ) == self.state.current_term))
                    &&& (l.state.commit_index > self.state.commit_index ==> (
                    l.state.last_applied == l.state.commit_index && l.fsm@
                        == crate::controller::spec_replay(
                        self.fsm@,
                        self.log.spec_payloads(self.state.last_applied, l.state.commit_index),
                    )))
                    &&& (l.state.commit_index == self.state.commit_index ==> (
                    l.state.last_applied == self.state.last_applied && l.fsm == self.fsm))
                })
            })),
            cmd matches Command::Tick ==> (r matches Ok(h) && h matches RaftHandle::Leader(l) && {
                let clock2 = spec_sat_add(self.clock, 1);
                let due = clock2 - self.role.heartbeat_time > self.role.heartbeat_timeout;
                let hb = if due {
                    spec_other_count(self.nodes@, self.id)
                } else {
                    0int
                };
                &&& l.state == self.state
                &&& l.log == self.log
                &&& l.clock == clock2
                &&& l.fsm == self.fsm
                &&& (due ==> l.role.heartbeat_time == clock2)
                &&& (!due ==> l.role.heartbeat_time == self.role.heartbeat_time)
                &&& (forall|k: int|
                    0 <= k < self.outbox@.len() ==> (#[trigger] l.outbox@[k]) == self.outbox@[k])
                &&& l.outbox@.len() >= self.outbox@.len() + hb
                // when due, one heartbeat per other node leads the new mail
                &&& (due ==> forall|k: int|
                    self.outbox@.len() <= k < self.outbox@.len() + hb ==> ((
                    #[trigger] l.outbox@[k]).msg matches RpcMessage::Heartbeat(t, ld) && t
                        == self.state.current_term && ld == self.id))
                // everything after is a replication batch of this term
                &&& (forall|k: int|
                    self.outbox@.len() + hb <= k < l.outbox@.len() ==> ((
                    #[trigger] l.outbox@[k]).msg matches RpcMessage::Append {
                        term,
                        leader_id,
                        leader_commit,
                        ..
                    } && term == self.state.current_term && leader_id == self.id && leader_commit
                        == self.state.commit_index))
                // every tracked, non-Snapshot peer gets a batch
                &&& (forall|n: int|
                    0 <= n < self.nodes@.len() && (#[trigger] self.nodes@[n]).id != self.id
                        && spec_sends(self.role.progress, self.nodes@[n].id) ==> (exists|k: int|
                        self.outbox@.len() + hb <= k < l.outbox@.len() && (
                        #[trigger] l.outbox@[k]).to == self.nodes@[n].id))
            }),
    {
        let mut this = self;
        match cmd {
            Command::Tick => {
                this.clock = sat_add(this.clock, 1);
                let ghost base = this.outbox@.len() as int;
                let ghost hb_due = (this.clock - this.role.heartbeat_time
                    > this.role.heartbeat_timeout);
                if this.needs_heartbeat() {
                    let _hb = this.heartbeat();
                    this.reset_heartbeat_timer();
                }
                proof {
                    crate::raft::lemma_other_count_nonneg(self.nodes@, self.id);
                }
                let ghost after_hb = this.outbox@.len() as int;
                let ghost mid = this.outbox@;
                let n = this.nodes.len();
                let mut i: usize = 0;
                while i < n
                    invariant
                        this.lwf(),
                        self.lwf(),
                        n == this.nodes@.len(),
                        this.state == self.state,
                        this.log == self.log,
                        this.id == self.id,
                        this.nodes == self.nodes,
                        this.config == self.config,
                        this.clock == spec_sat_add(self.clock, 1),
                        this.fsm == self.fsm,
                        hb_due == (spec_sat_add(self.clock, 1) - self.role.heartbeat_time
                            > self.role.heartbeat_timeout),
                        this.role.heartbeat_time == (if hb_due {
                            spec_sat_add(self.clock, 1)
                        } else {
                            self.role.heartbeat_time
                        }),
                        this.role.heartbeat_timeout == self.role.heartbeat_timeout,
                        base == self.outbox@.len(),
                        mid.len() == after_hb,
                        base <= after_hb,
                        hb_due ==> after_hb == base + spec_other_count(self.nodes@, self.id),
                        !hb_due ==> after_hb == base,
                        forall|k: int| 0 <= k < base ==> (#[trigger] mid[k]) == self.outbox@[k],
                        hb_due ==> forall|k: int|
                            base <= k < after_hb ==> ((#[trigger] mid[k]).msg matches
                                RpcMessage::Heartbeat(t, ld) && t == self.state.current_term && ld
                                == self.id),
                        after_hb <= this.outbox@.len(),
                        forall|k: int|
                            0 <= k < after_hb ==> (#[trigger] this.outbox@[k]) == mid[k],
                        forall|k: int|
                            after_hb <= k < this.outbox@.len() ==> ((
                            #[trigger] this.outbox@[k]).msg matches RpcMessage::Append {
                                term,
                                leader_id,
                                leader_commit,
                                ..
                            } && term == self.state.current_term && leader_id == self.id
                                && leader_commit == self.state.commit_index),
                        forall|j: int|
                            0 <= j < i && (#[trigger] this.nodes@[j]).id != self.id && spec_sends(
                                self.role.progress,
                                this.nodes@[j].id,
                            ) ==> (exists|k: int|
                                after_hb <= k < this.outbox@.len() && (
                                #[trigger] this.outbox@[k]).to == this.nodes@[j].id),
                        this.role.progress.peers@.len() == self.role.progress.peers@.len(),
                        forall|q: int|
                            0 <= q < this.role.progress.peers@.len() ==> (
                            #[trigger] this.role.progress.peers@[q]).node_id
                                == self.role.progress.peers@[q].node_id,
                        forall|q: int|
                            0 <= q < this.role.progress.peers@.len() ==> ((
                            #[trigger] this.role.progress.peers@[q]).handle matches
                                ProgressHandle::Snapshot(_) <==> self.role.progress.peers@[q].handle
                                matches ProgressHandle::Snapshot(_)),
                    decreases n - i,
                {
                    let ghost prev_outbox = this.outbox@;
                    let node_id = this.nodes[i].id;
                    if node_id != this.id {
                        match this.role.progress.get(node_id) {
                            Some(handle) => {
                                proof {
                                    let w = choose|w: int|
                                        0 <= w < this.role.progress.peers@.len() && (
                                        #[trigger] this.role.progress.peers@[w].node_id)
                                            == node_id && this.role.progress.peers@[w].handle
                                            == handle;
                                    assert(this.role.progress.peers@[w].handle.wf());
                                    assert forall|j: int|
                                        0 <= j < this.role.progress.peers@.len() && (
                                        #[trigger] this.role.progress.peers@[j]).node_id
                                            == node_id implies this.role.progress.peers@[j].handle
                                        == handle by {
                                        assert(j == w);
                                    }
                                    if handle matches ProgressHandle::Snapshot(_) {
                                        assert forall|j: int|
                                            0 <= j < self.role.progress.peers@.len() implies !((
                                            #[trigger] self.role.progress.peers@[j]).node_id
                                            == node_id && !(self.role.progress.peers@[j].handle
                                            matches ProgressHandle::Snapshot(_))) by {
                                            if self.role.progress.peers@[j].node_id == node_id {
                                                assert(this.role.progress.peers@[j].node_id
                                                    == node_id);
                                                assert(j == w);
                                            }
                                        }
                                        assert(!spec_sends(self.role.progress, node_id));
                                    }
                                }
                                this._append_entry(node_id, handle);
                                proof {
                                    if !(handle matches ProgressHandle::Snapshot(_)) {
                                        assert(after_hb <= this.outbox@.len() - 1);
                                        assert(this.outbox@[this.outbox@.len() - 1].to
                                            == node_id);
                                        assert(exists|k: int|
                                            after_hb <= k < this.outbox@.len() && (
                                            #[trigger] this.outbox@[k]).to == node_id);
                                    }
                                }
                            },
                            None => {
                                proof {
                                    assert forall|j: int|
                                        0 <= j < self.role.progress.peers@.len() implies (
                                        #[trigger] self.role.progress.peers@[j]).node_id
                                        != node_id by {
                                        assert(this.role.progress.peers@[j].node_id
                                            == self.role.progress.peers@[j].node_id);
                                    }
                                    assert(!spec_sends(self.role.progress, node_id));
                                }
                            },
                        }
                    }
                    proof {
                        assert(prev_outbox.len() <= this.outbox@.len());
                        assert forall|k: int|
                            0 <= k < prev_outbox.len() implies (#[trigger] this.outbox@[k])
                            == prev_outbox[k] by {}
                        assert forall|j: int|
                            0 <= j < i + 1 && (#[trigger] this.nodes@[j]).id != self.id
                                && spec_sends(self.role.progress, this.nodes@[j].id) implies (
                        exists|k: int|
                            after_hb <= k < this.outbox@.len() && (#[trigger] this.outbox@[k]).to
                                == this.nodes@[j].id) by {
                            if j < i {
                                let k0 = choose|k: int|
                                    after_hb <= k < prev_outbox.len() && (
                                    #[trigger] prev_outbox[k]).to == this.nodes@[j].id;
                                assert(this.outbox@[k0].to == this.nodes@[j].id);
                            }
                        }
                    }
                    i = i + 1;
                }
                Ok(RaftHandle::Leader(this))
            },
            Command::AppendResponse { node_id, term, index, success } => {
                if term > this.state.current_term {
                    this.state.current_term = term;
                    this.state.voted_for = None;
                    return Ok(RaftHandle::Follower(Raft::from(this)));
                }
                if success {
                    let last = this.log.last_index();
                    let loglen: usize = this.log.entries.len();
                    proof {
                        assert(last == loglen as u64);
                    }
                    if index <= last && index < u64::MAX {
                        this.role.progress.record_success(node_id, index);
                    }
                    let c = this.role.progress.committed_index(last, this.nodes.len());
                    let advanced = c > this.state.commit_index && c <= last && this.log.term_at(c)
                        == this.state.current_term;
                    if advanced {
                        this.state.commit_index = c;
                        this.advance_applied();
                    }
                    proof {
                        let peers = this.role.progress.peers@;
                        let lastg = self.log.spec_last_index();
                        let ncl = self.nodes@.len() as int;
                        let len = this.log.entries@.len() as int;
                        assert forall|i: int|
                            0 <= i < peers.len() && (
                            #[trigger] peers[i]).handle.spec_progress().index
                                > this.state.commit_index implies !(quorum_acked(
                            peers,
                            peers[i].handle.spec_progress().index,
                            lastg,
                            ncl,
                        ) && this.log.spec_term_at(peers[i].handle.spec_progress().index)
                            == self.state.current_term) by {
                            let m = peers[i].handle.spec_progress().index;
                            if m > c {
                                // committed_index maximality kills the quorum
                            } else {
                                assert(m >= 1);
                                if advanced {
                                    // commit landed on c >= m, vacuous
                                } else if c > len {
                                    // a quorum above every match point is
                                    // impossible, so c can only be 0
                                    lemma_ack_count_zero(peers, c);
                                    assert(!quorum_acked(peers, c, lastg, ncl));
                                    assert(c == 0);
                                    assert(false);
                                } else {
                                    // c carries an older term, and terms
                                    // are monotone along the log
                                    assert(this.log.spec_term_at(c)
                                        != self.state.current_term);
                                    assert(this.log.entries@[m - 1].term
                                        <= this.log.entries@[c - 1].term);
                                    assert(this.log.entries@[c - 1].term <= this.log.entries@[len
                                        - 1].term);
                                }
                            }
                        }
                    }
                } else {
                    this.role.progress.record_failure(node_id);
                }
                Ok(RaftHandle::Leader(this))
            },
            Command::AppendEntries { term, .. } => {
                if term > this.state.current_term {
                    this.state.current_term = term;
                    this.state.voted_for = None;
                    return Ok(RaftHandle::Follower(Raft::from(this)));
                }
                Ok(RaftHandle::Leader(this))
            },
            Command::VoteRequest { term, .. } => {
                if term > this.state.current_term {
                    this.state.current_term = term;
                    this.state.voted_for = None;
                    return Ok(RaftHandle::Follower(Raft::from(this)));
                }
                Ok(RaftHandle::Leader(this))
            },
            Command::VoteResponse { term, .. } => {
                if term > this.state.current_term {
                    this.state.current_term = term;
                    this.state.voted_for = None;
                    return Ok(RaftHandle::Follower(Raft::from(this)));
                }
                Ok(RaftHandle::Leader(this))
            },
            Command::Propose { payload } => {
                if this.log.entries.len() >= usize::MAX - 1 {
                    return Err(RaftError::IoFailed);
                }
                let ghost pv = payload@;
                this.log.append(this.state.current_term, payload);
                proof {
                    assert(this.log.spec_models() =~= self.log.spec_models().push(
                        EntryModel {
                            index: (self.log.spec_last_index() + 1) as u64,
                            term: self.state.current_term,
                            payload: pv,
                        },
                    ));
                }
                Ok(RaftHandle::Leader(this))
            },
        }
    }

}

} // verus!
