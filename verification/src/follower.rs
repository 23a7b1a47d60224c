//! The follower role: accepts replication, grants votes, and stands for
//! election when the leader goes quiet.

use vstd::prelude::*;
use crate::error::RaftError;
use crate::raft::{
    clone_bytes, election_timeout, models_of, sat_add, spec_election_timeout, spec_sat_add,
    state_advances, Command, Entry, EntryModel, NodeId, Raft, RaftHandle, RaftLog, RaftRole, Role,
};
use crate::rpc::{Envelope, RpcMessage};

verus! {

/// Role-specific data of a follower: who it believes leads, and when it
/// will stand for election if nothing is heard.
#[derive(Debug)]
pub struct Follower {
    pub leader_id: Option<NodeId>,
    pub election_deadline: u64,
}

impl Role for Follower {
    /// A follower has no term hook of its own; the role data is untouched.
    fn term(&mut self, _term: u64)
        ensures
            *final(self) == *old(self),
    {
    }

    fn role(&self) -> (r: RaftRole)
        ensures
            r == RaftRole::Follower,
    {
        RaftRole::Follower
    }
}

/// The follower append rule: the previous point must lie in the log with
/// the stated term, the batch must continue it gap-free with non-decreasing
/// terms bounded by the message term, and the splice must not rewind below
/// the commit point.
pub open spec fn spec_append_ok(
    log: RaftLog,
    commit_index: u64,
    prev_index: u64,
    prev_term: u64,
    entries: Seq<EntryModel>,
    msg_term: u64,
) -> bool {
    &&& prev_index <= log.entries@.len()
    &&& (prev_index == 0 || log.spec_term_at(prev_index) == prev_term)
    &&& prev_index + entries.len() < usize::MAX
    &&& prev_index + entries.len() >= commit_index
    &&& forall|k: int|
        0 <= k < entries.len() ==> (#[trigger] entries[k]).index == prev_index + 1 + k
    &&& forall|k: int| 0 <= k < entries.len() ==> (#[trigger] entries[k]).term <= msg_term
    &&& forall|k: int|
        0 <= k < entries.len() - 1 ==> (#[trigger] entries[k]).term <= entries[k + 1].term
    &&& (entries.len() > 0 ==> entries[0].term >= log.spec_term_at(prev_index))
    // committed entries are never rewritten: at or below the commit point
    // the batch must agree with the local log, slot for slot
    &&& forall|k: int|
        0 <= k < entries.len() && prev_index + 1 + k <= commit_index && prev_index + k
            < log.entries@.len() ==> (#[trigger] entries[k]) == log.entries@[prev_index + k]@
}

/// Checks `spec_append_ok` on a concrete batch.
pub fn check_append(
    log: &RaftLog,
    commit_index: u64,
    prev_index: u64,
    prev_term: u64,
    entries: &Vec<Entry>,
    msg_term: u64,
) -> (r: bool)
    requires
        log.wf(),
    ensures
        r == spec_append_ok(*log, commit_index, prev_index, prev_term, models_of(entries@), msg_term),
{
    let ghost em = models_of(entries@);
    let loglen: usize = log.entries.len();
    if prev_index > loglen as u64 {
        return false;
    }
    if prev_index > 0 && log.term_at(prev_index) != prev_term {
        return false;
    }
    let n: u64 = entries.len() as u64;
    if prev_index > (usize::MAX as u64 - n) || prev_index + n >= usize::MAX as u64 {
        return false;
    }
    if prev_index + n < commit_index {
        return false;
    }
    let mut i: usize = 0;
    let mut ok = true;
    while i < entries.len()
        invariant
            i <= entries@.len(),
            em == models_of(entries@),
            em.len() == entries@.len(),
            prev_index + entries@.len() < usize::MAX,
            ok ==> forall|k: int| 0 <= k < i ==> (#[trigger] em[k]).index == prev_index + 1 + k,
            ok ==> forall|k: int| 0 <= k < i ==> (#[trigger] em[k]).term <= msg_term,
            ok ==> forall|k: int| 0 <= k < i - 1 ==> (#[trigger] em[k]).term <= em[k + 1].term,
            ok ==> (i > 0 ==> em[0].term >= log.spec_term_at(prev_index)),
            log.wf(),
            loglen == log.entries@.len(),
            ok ==> forall|k: int|
                0 <= k < i && prev_index + 1 + k <= commit_index && prev_index + k
                    < log.entries@.len() ==> (#[trigger] em[k]) == log.entries@[prev_index + k]@,
            !ok ==> !spec_append_ok(*log, commit_index, prev_index, prev_term, em, msg_term),
        decreases entries@.len() - i,
    {
        let e = &entries[i];
        proof {
            assert(em[i as int] == entries@[i as int]@);
        }
        if e.index != prev_index + 1 + (i as u64) {
            proof {
                assert(em[i as int].index != prev_index + 1 + i);
            }
            return false;
        }
        if e.term > msg_term {
            proof {
                assert(em[i as int].term > msg_term);
            }
            return false;
        }
        let abs: u64 = prev_index + 1 + (i as u64);
        if abs <= commit_index && abs <= loglen as u64 {
            let pos: usize = (abs - 1) as usize;
            let local = &log.entries[pos];
            if e.term != local.term || !crate::codec::bytes_eq(&e.payload, &local.payload) {
                proof {
                    assert(em[i as int] != log.entries@[prev_index + i]@);
                }
                return false;
            }
            proof {
                assert(log.entries@[pos as int].index == pos + 1);
                assert(em[i as int] =~= log.entries@[prev_index + i]@);
            }
        }
        if i == 0 {
            if e.term < log.term_at(prev_index) {
                proof {
                    assert(em[0].term < log.spec_term_at(prev_index));
                }
                return false;
            }
        } else {
            if e.term < entries[i - 1].term {
                proof {
                    assert(em[i - 1] == entries@[i - 1]@);
                    assert(!(em[i - 1].term <= em[i - 1 + 1].term));
                }
                return false;
            }
        }
        proof {
            if i > 0 {
                assert(em[i - 1] == entries@[i - 1]@);
            }
        }
        i = i + 1;
    }
    ok
}

impl Raft<Follower> {
    /// Splices a validated batch after `prev_index`: conflicting or
    /// duplicate tail entries go, the batch follows.
    fn splice(&mut self, prev_index: u64, entries: &Vec<Entry>, msg_term: u64)
        requires
            old(self).core_wf(),
            spec_append_ok(
                old(self).log,
                old(self).state.commit_index,
                prev_index,
                old(self).log.spec_term_at(prev_index),
                models_of(entries@),
                msg_term,
            ),
            old(self).state.current_term == msg_term,
        ensures
            final(self).core_wf(),
            final(self).log.spec_models() == old(self).log.spec_models().take(prev_index as int)
                + models_of(entries@),
            final(self).log.entries@.len() == prev_index + entries@.len(),
            final(self).state == old(self).state,
            final(self).role == old(self).role,
            final(self).outbox == old(self).outbox,
            final(self).clock == old(self).clock,
            final(self).fsm == old(self).fsm,
            final(self).same_core(*old(self)),
    {
        let ghost em = models_of(entries@);
        let ghost base = old(self).log.spec_models().take(prev_index as int);
        let loglen: usize = self.log.entries.len();
        if prev_index < loglen as u64 {
            self.log.truncate_from(prev_index + 1);
        }
        proof {
            assert(self.log.entries@.len() == prev_index);
            assert forall|j: int| 0 <= j < prev_index implies self.log.spec_models()[j] == base[j] by {
                assert(self.log.entries@[j] == old(self).log.entries@[j]);
            }
            assert(self.log.spec_models() =~= base);
        }
        let mut i: usize = 0;
        while i < entries.len()
            invariant
                self.log.wf(),
                self.state.wf(),
                self.config.wf(),
                1 <= self.nodes@.len() < usize::MAX,
                forall|a: int, b: int|
                    0 <= a < b < self.nodes@.len() ==> (#[trigger] self.nodes@[a].id) != (
                    #[trigger] self.nodes@[b].id),
                self.log.spec_term_at(self.log.spec_last_index()) <= self.state.current_term,
                em == models_of(entries@),
                em.len() == entries@.len(),
                i <= entries@.len(),
                prev_index + entries@.len() < usize::MAX,
                self.log.entries@.len() == prev_index + i,
                self.log.spec_models() =~= base + em.take(i as int),
                base.len() == prev_index,
                self.state == old(self).state,
                self.role == old(self).role,
                self.outbox == old(self).outbox,
                self.clock == old(self).clock,
                self.fsm == old(self).fsm,
                self.id == old(self).id,
                self.nodes == old(self).nodes,
                self.config == old(self).config,
                self.state.current_term == msg_term,
                forall|k: int| 0 <= k < em.len() ==> (#[trigger] em[k]).index == prev_index + 1 + k,
                forall|k: int| 0 <= k < em.len() ==> (#[trigger] em[k]).term <= msg_term,
                forall|k: int|
                    0 <= k < em.len() - 1 ==> (#[trigger] em[k]).term <= em[k + 1].term,
                i < em.len() ==> em[i as int].term >= self.log.spec_term_at(self.log.spec_last_index()),
            decreases entries@.len() - i,
        {
            let e = &entries[i];
            proof {
                assert(em[i as int] == entries@[i as int]@);
                assert(em[i as int].index == prev_index + 1 + i);
            }
            let ghost pm = self.log.spec_models();
            let ghost oldlog = self.log.entries@;
            let payload = clone_bytes(&e.payload);
            self.log.append(e.term, payload);
            proof {
                assert forall|j: int| 0 <= j < pm.len() implies self.log.spec_models()[j] == pm[j] by {
                    assert(self.log.entries@[j] == oldlog[j]);
                }
                assert(pm.len() == prev_index + i);
                assert(self.log.spec_models()[pm.len() as int] =~= em[i as int]);
                assert forall|j: int|
                    0 <= j < prev_index + i + 1 implies self.log.spec_models()[j] == (base
                    + em.take(i + 1))[j] by {
                    if j < pm.len() {
                        assert(self.log.spec_models()[j] == pm[j]);
                        assert(pm == base + em.take(i as int));
                        if j >= base.len() {
                            assert(em.take(i as int)[j - prev_index] == em[j - prev_index]);
                            assert(em.take(i + 1)[j - prev_index] == em[j - prev_index]);
                        }
                    } else {
                        assert(em.take(i + 1)[i as int] == em[i as int]);
                    }
                }
                assert(self.log.spec_models() =~= base + em.take(i + 1));
                if i + 1 < em.len() {
                    assert(em[i as int].term <= em[i + 1].term);
                }
            }
            i = i + 1;
        }
        proof {
            assert(em.take(em.len() as int) =~= em);
            assert(self.log.spec_models() =~= base + em);
        }
    }

    /// Whether this follower grants a vote: the candidate's term is current
    /// or newer, no conflicting vote stands in that term, and the
    /// candidate's log is at least as up to date.
    pub open spec fn spec_grant(
        self,
        term: u64,
        candidate_id: NodeId,
        last_log_index: u64,
        last_log_term: u64,
    ) -> bool {
        let my_last_term = self.log.spec_term_at(self.log.spec_last_index());
        let vote = if term > self.state.current_term {
            None
        } else {
            self.state.voted_for
        };
        &&& term >= self.state.current_term
        &&& (vote is None || vote == Some(candidate_id))
        &&& (last_log_term > my_last_term || (last_log_term == my_last_term && last_log_index
            >= self.log.spec_last_index()))
    }

    /// One command applied to a follower.
    ///
    /// Replication below the current term is dropped silently; at or above
    /// it, the term is adopted and the batch is answered exactly as the
    /// append rule decides, a rejected previous point with `success ==
    /// false`. A vote is granted exactly by `spec_grant`. A tick past the
    /// election deadline turns the node into a candidate for the next term.
    /// A proposal is refused with the leader hint this follower holds.
    pub fn apply(self, cmd: Command) -> (r: Result<RaftHandle, RaftError>)
        requires
            self.core_wf(),
        ensures
            (r matches Err(_)) <==> (cmd matches Command::Propose { .. }),
            cmd matches Command::Propose { .. } ==> r == Err::<RaftHandle, RaftError>(
                RaftError::NotLeader { leader_hint: self.role.leader_id },
            ),
            r matches Ok(h) ==> h.wf() && state_advances(self.state, h.spec_state()),
            cmd matches Command::AppendEntries {
                term,
                leader_id,
                prev_log_index,
                prev_log_term,
                entries,
                leader_commit,
            } ==> (r matches Ok(h) && (if term < self.state.current_term {
                h matches RaftHandle::Follower(f) && f.state == self.state && f.log == self.log
                    && f.outbox == self.outbox
            } else {
                h matches RaftHandle::Follower(f) && f.state.current_term == term
                    && f.role.leader_id == Some(leader_id) && (if spec_append_ok(
                    self.log,
                    self.state.commit_index,
                    prev_log_index,
                    prev_log_term,
                    models_of(entries@),
                    term,
                ) {
                    &&& f.log.spec_models() == self.log.spec_models().take(prev_log_index as int)
                        + models_of(entries@)
                    // the committed prefix survives the splice unchanged
                    &&& forall|k: int|
                        0 <= k < self.state.commit_index ==> f.log.spec_models()[k]
                            == self.log.spec_models()[k]
                    &&& f.state.commit_index == (if (if leader_commit <= prev_log_index
                        + entries@.len() {
                        leader_commit
                    } else {
                        (prev_log_index + entries@.len()) as u64
                    }) >= self.state.commit_index {
                        if leader_commit <= prev_log_index + entries@.len() {
                            leader_commit
                        } else {
                            (prev_log_index + entries@.len()) as u64
                        }
                    } else {
                        self.state.commit_index
                    })
                    &&& f.state.last_applied == f.state.commit_index
                    &&& f.outbox@ == self.outbox@.push(
                        Envelope {
                            to: leader_id,
                            msg: RpcMessage::AppendAck {
                                node_id: self.id,
                                term,
                                index: (prev_log_index + entries@.len()) as u64,
                                success: true,
                            },
                        },
                    )
                } else {
                    &&& f.log == self.log
                    &&& f.state.commit_index == self.state.commit_index
                    &&& f.outbox@ == self.outbox@.push(
                        Envelope {
                            to: leader_id,
                            msg: RpcMessage::AppendAck {
                                node_id: self.id,
                                term,
                                index: self.log.spec_last_index(),
                                success: false,
                            },
                        },
                    )
                })
            })),
            cmd matches Command::VoteRequest { term, candidate_id, last_log_index, last_log_term }
                ==> (r matches Ok(h) && h matches RaftHandle::Follower(f) && {
                let grant = self.spec_grant(term, candidate_id, last_log_index, last_log_term);
                &&& f.log == self.log
                &&& f.state.current_term == (if term >= self.state.current_term {
                    term
                } else {
                    self.state.current_term
                })
                &&& f.state.voted_for == (if grant {
                    Some(candidate_id)
                } else {
                    if term > self.state.current_term {
                        None
                    } else {
                        self.state.voted_for
                    }
                })
                &&& f.outbox@ == self.outbox@.push(
                    Envelope {
                        to: candidate_id,
                        msg: RpcMessage::Ballot {
                            term: f.state.current_term,
                            voter_id: self.id,
                            granted: grant,
                        },
                    },
                )
            }),
            cmd matches Command::Tick ==> (r matches Ok(h) && (if spec_sat_add(self.clock, 1)
                >= self.role.election_deadline && self.state.current_term < u64::MAX {
                h matches RaftHandle::Candidate(c) && c.state.current_term
                    == self.state.current_term + 1 && c.state.voted_for == Some(self.id)
                    && c.role.votes@ == seq![self.id] && c.log == self.log && c.outbox@.len()
                    == self.outbox@.len() + crate::raft::spec_other_count(self.nodes@, self.id)
                    && (forall|k: int|
                    0 <= k < self.outbox@.len() ==> (#[trigger] c.outbox@[k]) == self.outbox@[k])
                    && (forall|k: int|
                    self.outbox@.len() <= k < c.outbox@.len() ==> ((#[trigger] c.outbox@[k]).msg
                        matches RpcMessage::Vote {
                        term,
                        candidate_id,
                        last_log_index,
                        last_log_term,
                    } && term == self.state.current_term + 1 && candidate_id == self.id
                        && last_log_index == self.log.spec_last_index() && last_log_term
                        == self.log.spec_term_at(self.log.spec_last_index())))
            } else {
                h matches RaftHandle::Follower(f) && f.state == self.state && f.log == self.log
                    && f.clock == spec_sat_add(self.clock, 1) && f.outbox == self.outbox
            })),
            (cmd matches Command::AppendResponse { .. } || cmd matches
                Command::VoteResponse { .. }) ==> (r matches Ok(h) && h matches
                RaftHandle::Follower(f) && f.state == self.state && f.log == self.log && f.outbox
                == self.outbox),
    {
        let mut this = self;
        match cmd {
            Command::Tick => {
                this.clock = sat_add(this.clock, 1);
                if this.clock >= this.role.election_deadline && this.state.current_term
                    < u64::MAX {
                    Ok(RaftHandle::Candidate(crate::candidate::start_election_from_follower(this)))
                } else {
                    Ok(RaftHandle::Follower(this))
                }
            },
            Command::AppendEntries {
                term,
                leader_id,
                prev_log_index,
                prev_log_term,
                entries,
                leader_commit,
            } => {
                if term < this.state.current_term {
                    return Ok(RaftHandle::Follower(this));
                }
                if term > this.state.current_term {
                    this.state.current_term = term;
                    this.state.voted_for = None;
                }
                this.role.leader_id = Some(leader_id);
                let t = election_timeout(&this.config, this.id, this.state.current_term);
                this.role.election_deadline = sat_add(this.clock, t);
                let ok = check_append(
                    &this.log,
                    this.state.commit_index,
                    prev_log_index,
                    prev_log_term,
                    &entries,
                    term,
                );
                if !ok {
                    let last = this.log.last_index();
                    this.outbox.push(
                        Envelope {
                            to: leader_id,
                            msg: RpcMessage::AppendAck {
                                node_id: this.id,
                                term,
                                index: last,
                                success: false,
                            },
                        },
                    );
                    return Ok(RaftHandle::Follower(this));
                }
                proof {
                    if prev_log_index > 0 {
                        assert(this.log.spec_term_at(prev_log_index) == prev_log_term);
                    }
                }
                let ghost old_models = self.log.spec_models();
                let ghost old_commit = self.state.commit_index;
                this.splice(prev_log_index, &entries, term);
                proof {
                    let newm = this.log.spec_models();
                    assert forall|k: int| 0 <= k < old_commit implies newm[k] == old_models[k] by {
                        if k >= prev_log_index {
                            assert(models_of(entries@)[k - prev_log_index]
                                == self.log.entries@[k]@);
                        }
                    }
                }
                let new_last = this.log.last_index();
                let advance = if leader_commit <= new_last {
                    leader_commit
                } else {
                    new_last
                };
                if advance >= this.state.commit_index {
                    this.state.commit_index = advance;
                }
                this.advance_applied();
                this.outbox.push(
                    Envelope {
                        to: leader_id,
                        msg: RpcMessage::AppendAck {
                            node_id: this.id,
                            term,
                            index: new_last,
                            success: true,
                        },
                    },
                );
                Ok(RaftHandle::Follower(this))
            },
            Command::VoteRequest { term, candidate_id, last_log_index, last_log_term } => {
                let ghost g = this.spec_grant(term, candidate_id, last_log_index, last_log_term);
                let my_last = this.log.last_index();
                let my_last_term = this.log.term_at(my_last);
                let mut granted = false;
                if term >= this.state.current_term {
                    if term > this.state.current_term {
                        this.state.current_term = term;
                        this.state.voted_for = None;
                    }
                    let no_conflict = match this.state.voted_for {
                        None => true,
                        Some(v) => v == candidate_id,
                    };
                    let up_to_date = last_log_term > my_last_term || (last_log_term == my_last_term
                        && last_log_index >= my_last);
                    if no_conflict && up_to_date {
                        granted = true;
                        this.state.voted_for = Some(candidate_id);
                        let t = election_timeout(&this.config, this.id, this.state.current_term);
                        this.role.election_deadline = sat_add(this.clock, t);
                    }
                }
                proof {
                    assert(granted == g);
                }
                this.outbox.push(
                    Envelope {
                        to: candidate_id,
                        msg: RpcMessage::Ballot {
                            term: this.state.current_term,
                            voter_id: this.id,
                            granted,
                        },
                    },
                );
                Ok(RaftHandle::Follower(this))
            },
            Command::Propose { payload: _ } => {
                Err(RaftError::NotLeader { leader_hint: this.role.leader_id })
            },
            Command::AppendResponse { .. } => Ok(RaftHandle::Follower(this)),
            Command::VoteResponse { .. } => Ok(RaftHandle::Follower(this)),
        }
    }
}

} // verus!
