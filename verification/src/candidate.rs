//! The candidate role: gathers votes for its term, steps down on seeing an
//! equal or newer leader, and takes the leadership on a quorum of ballots.

use vstd::prelude::*;
use crate::error::RaftError;
use crate::follower::Follower;
use crate::leader::Leader;
use crate::progress::ReplicationProgress;
use crate::follower::spec_append_ok;
use crate::progress::ProgressHandle;
use crate::raft::{
    election_timeout, lemma_other_count_nonneg, lemma_other_count_take, models_of, sat_add,
    spec_other_count, spec_sat_add, state_advances, Command, NodeId, Raft, RaftHandle, RaftRole,
    Role,
};
use crate::rpc::{Envelope, RpcMessage};

verus! {

/// Role-specific data of a candidate: the voters gathered this term, and
/// when to give up and run again.
#[derive(Debug)]
pub struct Candidate {
    pub votes: Vec<NodeId>,
    pub election_deadline: u64,
}

impl Role for Candidate {
    /// A candidate has no term hook of its own; the role data is untouched.
    fn term(&mut self, _term: u64)
        ensures
            *final(self) == *old(self),
    {
    }

    fn role(&self) -> (r: RaftRole)
        ensures
            r == RaftRole::Candidate,
    {
        RaftRole::Candidate
    }
}

/// Whether `v` holds `id`.
pub fn contains_id(v: &Vec<NodeId>, id: NodeId) -> (r: bool)
    ensures
        r == v@.contains(id),
{
    let mut i: usize = 0;
    while i < v.len()
        invariant
            i <= v@.len(),
            forall|j: int| 0 <= j < i ==> v@[j] != id,
        decreases v@.len() - i,
    {
        if v[i] == id {
            return true;
        }
        i = i + 1;
    }
    proof {
        assert(!v@.contains(id));
    }
    false
}

/// Broadcasts this term's vote request to every other cluster member.
fn broadcast_vote_requests<R>(node: &mut Raft<R>)
    requires
        old(node).core_wf(),
    ensures
        final(node).state == old(node).state,
        final(node).log == old(node).log,
        final(node).role == old(node).role,
        final(node).clock == old(node).clock,
        final(node).fsm == old(node).fsm,
        final(node).same_core(*old(node)),
        final(node).outbox@.len() == old(node).outbox@.len() + spec_other_count(
            old(node).nodes@,
            old(node).id,
        ),
        forall|k: int|
            old(node).outbox@.len() <= k < final(node).outbox@.len() ==>
            ((#[trigger] final(node).outbox@[k]).msg matches RpcMessage::Vote {
                term,
                candidate_id,
                last_log_index,
                last_log_term,
            } && term == old(node).state.current_term && candidate_id == old(node).id
                && last_log_index == old(node).log.spec_last_index() && last_log_term == old(
                node,
            ).log.spec_term_at(old(node).log.spec_last_index())),
        forall|k: int|
            0 <= k < old(node).outbox@.len() ==> (#[trigger] final(node).outbox@[k]) == old(
                node,
            ).outbox@[k],
{
    let last_log_index = node.log.last_index();
    let last_log_term = node.log.term_at(last_log_index);
    let term = node.state.current_term;
    let me = node.id;
    let mut i: usize = 0;
    proof {
        assert(node.nodes@.take(0) =~= Seq::<crate::raft::Node>::empty());
    }
    while i < node.nodes.len()
        invariant
            i <= node.nodes@.len(),
            node.core_wf(),
            node.state == old(node).state,
            node.log == old(node).log,
            node.role == old(node).role,
            node.clock == old(node).clock,
            node.fsm == old(node).fsm,
            node.id == old(node).id,
            node.nodes == old(node).nodes,
            node.config == old(node).config,
            term == old(node).state.current_term,
            me == old(node).id,
            last_log_index == old(node).log.spec_last_index(),
            last_log_term == old(node).log.spec_term_at(old(node).log.spec_last_index()),
            0 <= spec_other_count(node.nodes@.take(i as int), me),
            node.outbox@.len() == old(node).outbox@.len() + spec_other_count(
                node.nodes@.take(i as int),
                me,
            ),
            forall|k: int|
                old(node).outbox@.len() <= k < node.outbox@.len() ==>
                ((#[trigger] node.outbox@[k]).msg matches RpcMessage::Vote {
                    term: t,
                    candidate_id,
                    last_log_index: lli,
                    last_log_term: llt,
                } && t == term && candidate_id == me && lli == last_log_index && llt
                    == last_log_term),
            forall|k: int|
                0 <= k < old(node).outbox@.len() ==> (#[trigger] node.outbox@[k]) == old(
                    node,
                ).outbox@[k],
        decreases node.nodes@.len() - i,
    {
        let peer = node.nodes[i].id;
        proof {
            lemma_other_count_take(node.nodes@, me, i as int);
        }
        if peer != me {
            node.outbox.push(
                Envelope {
                    to: peer,
                    msg: RpcMessage::Vote {
                        term,
                        candidate_id: me,
                        last_log_index,
                        last_log_term,
                    },
                },
            );
        }
        i = i + 1;
    }
    proof {
        assert(node.nodes@.take(node.nodes@.len() as int) =~= node.nodes@);
    }
}

/// A follower whose election deadline passed: the next term's candidate,
/// voting for itself and asking everyone else.
pub fn start_election_from_follower(node: Raft<Follower>) -> (r: Raft<Candidate>)
    requires
        node.core_wf(),
        node.state.current_term < u64::MAX,
    ensures
        r.core_wf(),
        r.state.current_term == node.state.current_term + 1,
        r.state.voted_for == Some(node.id),
        r.state.commit_index == node.state.commit_index,
        r.state.last_applied == node.state.last_applied,
        r.role.votes@ == seq![node.id],
        r.log == node.log,
        r.clock == node.clock,
        r.fsm == node.fsm,
        state_advances(node.state, r.state),
        r.outbox@.len() == node.outbox@.len() + spec_other_count(node.nodes@, node.id),
        forall|k: int|
            0 <= k < node.outbox@.len() ==> (#[trigger] r.outbox@[k]) == node.outbox@[k],
        // one vote request per other node, carrying this log's summit
        forall|k: int|
            node.outbox@.len() <= k < r.outbox@.len() ==> ((#[trigger] r.outbox@[k]).msg matches
                RpcMessage::Vote { term, candidate_id, last_log_index, last_log_term } && term
                == node.state.current_term + 1 && candidate_id == node.id && last_log_index
                == node.log.spec_last_index() && last_log_term == node.log.spec_term_at(
                node.log.spec_last_index(),
            )),
{
    let term = node.state.current_term + 1;
    let mut votes: Vec<NodeId> = Vec::new();
    votes.push(node.id);
    let t = election_timeout(&node.config, node.id, term);
    let deadline = sat_add(node.clock, t);
    let mut c = Raft {
        id: node.id,
        state: crate::raft::State {
            current_term: term,
            voted_for: Some(node.id),
            commit_index: node.state.commit_index,
            last_applied: node.state.last_applied,
        },
        nodes: node.nodes,
        role: Candidate { votes, election_deadline: deadline },
        config: node.config,
        log: node.log,
        clock: node.clock,
        outbox: node.outbox,
        fsm: node.fsm,
        applied: node.applied,
    };
    broadcast_vote_requests(&mut c);
    c
}

impl Raft<Candidate> {
    /// This candidate, stepped down into a follower of `term`.
    #[verifier::rlimit(50)]
    pub fn into_follower(self, term: u64, leader_id: Option<NodeId>) -> (r: Raft<Follower>)
        requires
            self.core_wf(),
            term >= self.state.current_term,
        ensures
            r.core_wf(),
            r.state.current_term == term,
            r.state.voted_for == (if term > self.state.current_term {
                None
            } else {
                self.state.voted_for
            }),
            r.state.commit_index == self.state.commit_index,
            r.state.last_applied == self.state.last_applied,
            r.role.leader_id == leader_id,
            r.log == self.log,
            r.outbox == self.outbox,
            r.clock == self.clock,
            r.fsm == self.fsm,
            r.id == self.id,
            r.nodes == self.nodes,
            r.config == self.config,
            state_advances(self.state, r.state),
    {
        let voted_for = if term > self.state.current_term {
            None
        } else {
            self.state.voted_for
        };
        let t = election_timeout(&self.config, self.id, term);
        let deadline = sat_add(self.clock, t);
        Raft {
            id: self.id,
            state: crate::raft::State {
                current_term: term,
                voted_for,
                commit_index: self.state.commit_index,
                last_applied: self.state.last_applied,
            },
            nodes: self.nodes,
            role: Follower { leader_id, election_deadline: deadline },
            config: self.config,
            log: self.log,
            clock: self.clock,
            outbox: self.outbox,
            fsm: self.fsm,
            applied: self.applied,
        }
    }

    /// One command applied to a candidate.
    ///
    /// A quorum of ballots in its term makes it the leader, with fresh
    /// probing progress for every peer; an equal or newer replication
    /// message or a newer ballot term makes it a follower; the election
    /// deadline passing makes it run again in the next term.
    pub fn apply(self, cmd: Command) -> (r: Result<RaftHandle, RaftError>)
        requires
            self.core_wf(),
            self.role.votes@.no_duplicates(),
        ensures
            (r matches Err(_)) <==> (cmd matches Command::Propose { .. }),
            cmd matches Command::Propose { .. } ==> r == Err::<RaftHandle, RaftError>(
                RaftError::NotLeader { leader_hint: None },
            ),
            r matches Ok(h) ==> h.wf() && state_advances(self.state, h.spec_state()),
            // leadership is only ever taken on a quorum of distinct ballots
            r matches Ok(h) ==> (h matches RaftHandle::Leader(l) ==> (cmd matches
                Command::VoteResponse { term, voter_id, granted } && term
                == self.state.current_term && granted && l.state.current_term
                == self.state.current_term && l.log == self.log && 2 * (
            if self.role.votes@.contains(voter_id) {
                self.role.votes@.len() as int
            } else {
                self.role.votes@.len() as int + 1
            }) > self.nodes@.len())),
            cmd matches Command::AppendResponse { .. } ==> (r matches Ok(h) && h matches
                RaftHandle::Candidate(c2) && c2.state == self.state && c2.log == self.log
                && c2.outbox == self.outbox),
            // replication at or above this term turns the candidate into a
            // follower of the sender, with the command answered exactly as
            // the follower append rule decides
            cmd matches Command::AppendEntries {
                term,
                leader_id,
                prev_log_index,
                prev_log_term,
                entries,
                leader_commit,
            } ==> (if term < self.state.current_term {
                r matches Ok(h) && h matches RaftHandle::Candidate(c2) && c2.state == self.state
                    && c2.log == self.log && c2.outbox == self.outbox
            } else {
                r matches Ok(h) && h matches RaftHandle::Follower(f) && f.state.current_term
                    == term && f.role.leader_id == Some(leader_id) && (if spec_append_ok(
                    self.log,
                    self.state.commit_index,
                    prev_log_index,
                    prev_log_term,
                    models_of(entries@),
                    term,
                ) {
                    &&& f.log.spec_models() == self.log.spec_models().take(prev_log_index as int)
                        + models_of(entries@)
                    &&& f.state.last_applied == f.state.commit_index
                    &&& f.outbox@ == self.outbox@.push(
                        Envelope {
                            to: leader_id,
                            msg: RpcMessage::AppendAck {
                                node_id: self.id,
                                term,
                                index: (prev_log_index + entries@.len()) as u64,
                                success: true,
                            },
                        },
                    )
                } else {
                    &&& f.log == self.log
                    &&& f.state.commit_index == self.state.commit_index
                    &&& f.outbox@ == self.outbox@.push(
                        Envelope {
                            to: leader_id,
                            msg: RpcMessage::AppendAck {
                                node_id: self.id,
                                term,
                                index: self.log.spec_last_index(),
                                success: false,
                            },
                        },
                    )
                })
            }),
            // a vote request of this term or older is refused; a newer one
            // is answered as a fresh follower of that term would
            cmd matches Command::VoteRequest { term, candidate_id, last_log_index, last_log_term }
                ==> (if term <= self.state.current_term {
                r matches Ok(h) && h matches RaftHandle::Candidate(c2) && c2.state == self.state
                    && c2.log == self.log && c2.outbox@ == self.outbox@.push(
                    Envelope {
                        to: candidate_id,
                        msg: RpcMessage::Ballot {
                            term: self.state.current_term,
                            voter_id: self.id,
                            granted: false,
                        },
                    },
                )
            } else {
                r matches Ok(h) && h matches RaftHandle::Follower(f) && ({
                    let my_last_term = self.log.spec_term_at(self.log.spec_last_index());
                    let grant = last_log_term > my_last_term || (last_log_term == my_last_term
                        && last_log_index >= self.log.spec_last_index());
                    &&& f.state.current_term == term
                    &&& f.log == self.log
                    &&& f.state.voted_for == (if grant {
                        Some(candidate_id)
                    } else {
                        None
                    })
                    &&& f.outbox@ == self.outbox@.push(
                        Envelope {
                            to: candidate_id,
                            msg: RpcMessage::Ballot { term, voter_id: self.id, granted: grant },
                        },
                    )
                })
            }),
            // a granted ballot of this term that completes a quorum takes
            // the leadership, every peer starting in Probe mode; a newer
            // ballot term steps the candidate down
            cmd matches Command::VoteResponse { term, voter_id, granted } ==> (if term
                > self.state.current_term {
                r matches Ok(h) && h matches RaftHandle::Follower(f) && f.state.current_term
                    == term && f.log == self.log && f.outbox == self.outbox
            } else {
                r matches Ok(h) && (if term == self.state.current_term && granted && 2 * (
                if self.role.votes@.contains(voter_id) {
                    self.role.votes@.len() as int
                } else {
                    self.role.votes@.len() as int + 1
                }) > self.nodes@.len() {
                    h matches RaftHandle::Leader(l) && l.state == self.state && l.log == self.log
                        && l.outbox == self.outbox && l.role.progress.peers@.len()
                        == spec_other_count(self.nodes@, self.id) && (forall|k: int|
                        0 <= k < l.role.progress.peers@.len() ==> ((
                        #[trigger] l.role.progress.peers@[k]).handle matches
                            ProgressHandle::Probe(p) && p.index == 0 && p.next == spec_sat_add(
                            self.log.spec_last_index(),
                            1,
                        ) && l.role.progress.peers@[k].node_id != self.id))
                } else {
                    h matches RaftHandle::Candidate(c2) && c2.state == self.state && c2.log
                        == self.log && c2.outbox == self.outbox
                })
            }),
            // a deadline that lapses starts the next term's election; an
            // ordinary tick only moves the clock
            cmd matches Command::Tick ==> (r matches Ok(h) && (if spec_sat_add(self.clock, 1)
                >= self.role.election_deadline && self.state.current_term < u64::MAX {
                h matches RaftHandle::Candidate(c2) && ({
                    let new_term = (self.state.current_term + 1) as u64;
                    &&& c2.state.current_term == new_term
                    &&& c2.state.voted_for == Some(self.id)
                    &&& c2.role.votes@ == seq![self.id]
                    &&& c2.log == self.log
                    &&& c2.outbox@.len() == self.outbox@.len() + spec_other_count(
                        self.nodes@,
                        self.id,
                    )
                    &&& (forall|k: int|
                        0 <= k < self.outbox@.len() ==> (#[trigger] c2.outbox@[k])
                            == self.outbox@[k])
                    &&& (forall|k: int|
                        self.outbox@.len() <= k < c2.outbox@.len() ==> ((
                        #[trigger] c2.outbox@[k]).msg matches RpcMessage::Vote {
                            term,
                            candidate_id,
                            last_log_index,
                            last_log_term,
                        } && term == new_term && candidate_id == self.id && last_log_index
                            == self.log.spec_last_index() && last_log_term
                            == self.log.spec_term_at(self.log.spec_last_index())))
                })
            } else {
                h matches RaftHandle::Candidate(c2) && c2.state == self.state && c2.log
                    == self.log && c2.clock == spec_sat_add(self.clock, 1) && c2.outbox
                    == self.outbox
            })),
    {
        let mut this = self;
        match cmd {
            Command::Tick => {
                this.clock = sat_add(this.clock, 1);
                if this.clock >= this.role.election_deadline && this.state.current_term
                    < u64::MAX {
                    let term = this.state.current_term + 1;
                    this.state.current_term = term;
                    this.state.voted_for = Some(this.id);
                    let mut votes: Vec<NodeId> = Vec::new();
                    votes.push(this.id);
                    this.role.votes = votes;
                    let t = election_timeout(&this.config, this.id, term);
                    this.role.election_deadline = sat_add(this.clock, t);
                    broadcast_vote_requests(&mut this);
                    Ok(RaftHandle::Candidate(this))
                } else {
                    Ok(RaftHandle::Candidate(this))
                }
            },
            Command::VoteResponse { term, voter_id, granted } => {
                if term > this.state.current_term {
                    return Ok(RaftHandle::Follower(this.into_follower(term, None)));
                }
                if term == this.state.current_term && granted {
                    if !contains_id(&this.role.votes, voter_id) {
                        this.role.votes.push(voter_id);
                    }
                    let quorum = this.nodes.len() / 2 + 1;
                    if this.role.votes.len() >= quorum {
                        proof {
                            assert(2 * (this.role.votes@.len() as int) > this.nodes@.len());
                            assert(this.role.votes@.len() as int == (
                            if self.role.votes@.contains(voter_id) {
                                self.role.votes@.len() as int
                            } else {
                                self.role.votes@.len() as int + 1
                            }));
                        }
                        return Ok(RaftHandle::Leader(this.into_leader()));
                    }
                }
                Ok(RaftHandle::Candidate(this))
            },
            Command::VoteRequest { term, candidate_id, last_log_index, last_log_term } => {
                if term > this.state.current_term {
                    let f = this.into_follower(term, None);
                    f.apply(
                        Command::VoteRequest { term, candidate_id, last_log_index, last_log_term },
                    )
                } else {
                    this.outbox.push(
                        Envelope {
                            to: candidate_id,
                            msg: RpcMessage::Ballot {
                                term: this.state.current_term,
                                voter_id: this.id,
                                granted: false,
                            },
                        },
                    );
                    Ok(RaftHandle::Candidate(this))
                }
            },
            Command::AppendEntries {
                term,
                leader_id,
                prev_log_index,
                prev_log_term,
                entries,
                leader_commit,
            } => {
                if term >= this.state.current_term {
                    let f = this.into_follower(term, Some(leader_id));
                    f.apply(
                        Command::AppendEntries {
                            term,
                            leader_id,
                            prev_log_index,
                            prev_log_term,
                            entries,
                            leader_commit,
                        },
                    )
                } else {
                    Ok(RaftHandle::Candidate(this))
                }
            },
            Command::Propose { payload: _ } => {
                Err(RaftError::NotLeader { leader_hint: None })
            },
            Command::AppendResponse { .. } => Ok(RaftHandle::Candidate(this)),
        }
    }

    /// This candidate, having won its term: every peer starts in Probe mode
    /// with nothing matched, streaming from just past this log's end.
    fn into_leader(self) -> (r: Raft<Leader>)
        requires
            self.core_wf(),
        ensures
            r.lwf(),
            r.state == self.state,
            r.log == self.log,
            r.clock == self.clock,
            r.fsm == self.fsm,
            r.outbox == self.outbox,
            state_advances(self.state, r.state),
            // every other node starts in Probe: nothing matched, streaming
            // from just past this log's end
            r.role.progress.peers@.len() == spec_other_count(self.nodes@, self.id),
            forall|k: int|
                0 <= k < r.role.progress.peers@.len() ==> ((
                #[trigger] r.role.progress.peers@[k]).handle matches ProgressHandle::Probe(p)
                    && p.index == 0 && p.next == spec_sat_add(self.log.spec_last_index(), 1)
                    && r.role.progress.peers@[k].node_id != self.id),
    {
        let mut peer_ids: Vec<NodeId> = Vec::new();
        let mut i: usize = 0;
        while i < self.nodes.len()
            invariant
                i <= self.nodes@.len(),
                self.core_wf(),
                peer_ids@.len() == spec_other_count(self.nodes@.take(i as int), self.id),
                0 <= spec_other_count(self.nodes@.take(i as int), self.id),
                forall|a: int, b: int|
                    0 <= a < b < peer_ids@.len() ==> (#[trigger] peer_ids@[a]) != (
                    #[trigger] peer_ids@[b]),
                forall|a: int| 0 <= a < peer_ids@.len() ==> (#[trigger] peer_ids@[a]) != self.id,
                forall|a: int|
                    0 <= a < peer_ids@.len() ==> exists|n: int|
                        0 <= n < i && (#[trigger] peer_ids@[a]) == self.nodes@[n].id,
            decreases self.nodes@.len() - i,
        {
            let id = self.nodes[i].id;
            proof {
                lemma_other_count_take(self.nodes@, self.id, i as int);
            }
            if id != self.id {
                proof {
                    assert(forall|a: int|
                        0 <= a < peer_ids@.len() ==> (#[trigger] peer_ids@[a]) != id);
                }
                peer_ids.push(id);
            }
            i = i + 1;
        }
        let next = sat_add(self.log.last_index(), 1);
        proof {
            assert(self.nodes@.take(self.nodes@.len() as int) =~= self.nodes@);
            lemma_other_count_nonneg(self.nodes@, self.id);
            assert(next >= 1);
        }
        let progress = ReplicationProgress::new(&peer_ids, next);
        Raft {
            id: self.id,
            state: self.state,
            nodes: self.nodes,
            role: Leader {
                progress,
                heartbeat_time: self.clock,
                heartbeat_timeout: self.config.heartbeat_timeout,
            },
            config: self.config,
            log: self.log,
            clock: self.clock,
            outbox: self.outbox,
            fsm: self.fsm,
            applied: self.applied,
        }
    }
}

} // verus!
