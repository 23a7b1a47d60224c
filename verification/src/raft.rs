//! Core Raft data model: log entries, persistent state, node identity,
//! the command surface, and the replicated log with its invariants.

use vstd::prelude::*;
use crate::controller::{
    lemma_replay_append, lemma_replay_outcomes_append, lemma_replay_outcomes_len, spec_replay,
    spec_replay_outcomes, spec_step, spec_step_outcome, ApplyOutcome, ControllerState,
};
use crate::rpc::Envelope;

verus! {

/// Stable small integer identifying a Raft peer.
pub type NodeId = u32;

/// One peer of the cluster: its identity and transport address.
#[derive(Debug)]
pub struct Node {
    pub id: NodeId,
    pub addr: String,
}

/// The unit of the Raft log.
///
/// `index` is 1-based and gap-free; `term` is non-decreasing along the log.
#[derive(Debug)]
pub struct Entry {
    pub index: u64,
    pub term: u64,
    pub payload: Vec<u8>,
}

/// The mathematical content of an `Entry`.
#[verifier::ext_equal]
pub struct EntryModel {
    pub index: u64,
    pub term: u64,
    pub payload: Seq<u8>,
}

impl View for Entry {
    type V = EntryModel;

    open spec fn view(&self) -> EntryModel {
        EntryModel { index: self.index, term: self.term, payload: self.payload@ }
    }
}

/// Copies a byte vector; the copy holds exactly the same bytes.
pub fn clone_bytes(v: &Vec<u8>) -> (r: Vec<u8>)
    ensures
        r@ == v@,
{
    let mut out: Vec<u8> = Vec::new();
    let mut i: usize = 0;
    while i < v.len()
        invariant
            i <= v@.len(),
            out@ == v@.take(i as int),
        decreases v@.len() - i,
    {
        out.push(v[i]);
        proof {
            assert(out@ =~= v@.take(i + 1));
        }
        i = i + 1;
    }
    proof {
        assert(v@.take(v@.len() as int) =~= v@);
    }
    out
}

impl Clone for Entry {
    /// The copy carries the same index, term and payload bytes.
    fn clone(&self) -> (r: Self)
        ensures
            r@ == self@,
    {
        Entry { index: self.index, term: self.term, payload: clone_bytes(&self.payload) }
    }
}

/// Per-node persistent Raft state.
#[derive(Clone, Copy, Debug)]
pub struct State {
    pub current_term: u64,
    pub voted_for: Option<NodeId>,
    pub commit_index: u64,
    pub last_applied: u64,
}

impl State {
    /// Both progress counters start at zero, in term zero, with no vote cast.
    pub fn new() -> (r: State)
        ensures
            r.current_term == 0,
            r.voted_for is None,
            r.commit_index == 0,
            r.last_applied == 0,
    {
        State { current_term: 0, voted_for: None, commit_index: 0, last_applied: 0 }
    }

    /// `commit_index >= last_applied`: a node never applies past what is committed.
    pub open spec fn wf(self) -> bool {
        self.commit_index >= self.last_applied
    }
}

/// Static node configuration: identity, peers, timers (in ticks).
#[derive(Clone, Copy, Debug)]
pub struct RaftConfig {
    pub id: NodeId,
    pub protocol_version: u32,
    /// A leader heartbeats when this many ticks pass without one.
    pub heartbeat_timeout: u64,
    /// Bounds for the per-term deterministic election deadline, in ticks.
    pub election_timeout_min: u64,
    pub election_timeout_max: u64,
}

impl RaftConfig {
    pub open spec fn wf(self) -> bool {
        &&& 0 < self.heartbeat_timeout
        &&& 0 < self.election_timeout_min <= self.election_timeout_max
        &&& self.election_timeout_max < u64::MAX
    }
}

/// The inputs a Raft node accepts from its single inbound channel.
#[derive(Debug)]
pub enum Command {
    /// Advances the node's clock by one tick; triggers heartbeats and elections.
    Tick,
    /// A follower receives replication from a leader.
    AppendEntries {
        term: u64,
        leader_id: NodeId,
        prev_log_index: u64,
        prev_log_term: u64,
        entries: Vec<Entry>,
        leader_commit: u64,
    },
    /// A leader receives a replication acknowledgement.
    AppendResponse { node_id: NodeId, term: u64, index: u64, success: bool },
    /// A candidate asks for a vote.
    VoteRequest { term: u64, candidate_id: NodeId, last_log_index: u64, last_log_term: u64 },
    /// A voter answers a vote request.
    VoteResponse { term: u64, voter_id: NodeId, granted: bool },
    /// A client asks the leader to append `payload` to the replicated log.
    Propose { payload: Vec<u8> },
}

/// Which of the three roles a node currently holds.
#[derive(Clone, Copy, PartialEq, Eq, Structural, Debug)]
pub enum RaftRole {
    Follower,
    Candidate,
    Leader,
}

/// The replicated log: entries with 1-based, gap-free, monotone indices.
#[derive(Debug)]
pub struct RaftLog {
    pub entries: Vec<Entry>,
}

impl RaftLog {
    /// Gap-free 1-based indices and non-decreasing terms.
    pub open spec fn wf(self) -> bool {
        &&& forall|i: int| 0 <= i < self.entries@.len() ==> (#[trigger] self.entries@[i].index)
            == i + 1
        &&& forall|i: int, j: int|
            0 <= i <= j < self.entries@.len() ==> (#[trigger] self.entries@[i].term) <= (
            #[trigger] self.entries@[j].term)
    }

    /// Index of the last entry, or 0 for an empty log.
    pub open spec fn spec_last_index(self) -> u64 {
        self.entries@.len() as u64
    }

    /// Term of the entry at 1-based `index`, or 0 when out of range.
    pub open spec fn spec_term_at(self, index: u64) -> u64 {
        if 1 <= index <= self.entries@.len() {
            self.entries@[index - 1].term
        } else {
            0
        }
    }

    pub fn new() -> (r: RaftLog)
        ensures
            r.wf(),
            r.entries@.len() == 0,
    {
        RaftLog { entries: Vec::new() }
    }

    pub fn last_index(&self) -> (r: u64)
        ensures
            r == self.spec_last_index(),
    {
        self.entries.len() as u64
    }

    pub fn term_at(&self, index: u64) -> (r: u64)
        ensures
            r == self.spec_term_at(index),
    {
        if 1 <= index && index <= self.entries.len() as u64 {
            self.entries[(index - 1) as usize].term
        } else {
            0
        }
    }

    /// How many entries `[lo, hi)` holds once clipped to the log's range.
    pub open spec fn spec_range_len(self, lo: u64, hi: u64) -> int
        recommends
            1 <= lo,
    {
        if hi < lo {
            0
        } else if hi - 1 <= self.entries@.len() {
            (hi - lo) as int
        } else if lo - 1 <= self.entries@.len() {
            self.entries@.len() - (lo - 1)
        } else {
            0
        }
    }

    /// The content of the clipped range `[lo, hi)`.
    pub open spec fn spec_range_models(self, lo: u64, hi: u64) -> Seq<EntryModel>
        recommends
            1 <= lo,
    {
        Seq::new(self.spec_range_len(lo, hi) as nat, |k: int| self.entries@[lo - 1 + k]@)
    }

    /// Entries with `lo <= index < hi`, clipped to the log's range.
    pub fn get_range(&self, lo: u64, hi: u64) -> (r: Vec<Entry>)
        requires
            self.wf(),
            1 <= lo,
        ensures
            r@.len() <= self.entries@.len(),
            forall|k: int| 0 <= k < r@.len() ==> (#[trigger] r@[k])@ == self.entries@[lo - 1 + k]@,
            forall|k: int| 0 <= k < r@.len() ==> (#[trigger] r@[k])@.index == lo + k,
            r@.len() == self.spec_range_len(lo, hi),
            models_of(r@) == self.spec_range_models(lo, hi),
    {
        let mut out: Vec<Entry> = Vec::new();
        if hi < lo {
            proof {
                assert(models_of(out@) =~= self.spec_range_models(lo, hi));
            }
            return out;
        }
        let mut k: u64 = lo;
        while k < hi && k <= self.entries.len() as u64
            invariant
                self.wf(),
                1 <= lo <= k,
                k <= hi,
                out@.len() == k - lo,
                k - 1 <= self.entries@.len() || out@.len() == 0,
                forall|j: int|
                    0 <= j < out@.len() ==> (#[trigger] out@[j])@ == self.entries@[lo - 1 + j]@,
                forall|j: int| 0 <= j < out@.len() ==> (#[trigger] out@[j])@.index == lo + j,
            decreases hi - k,
        {
            let e = self.entries[(k - 1) as usize].clone();
            proof {
                assert(self.entries@[k - 1].index == k);
            }
            out.push(e);
            k = k + 1;
        }
        proof {
            assert(models_of(out@) =~= self.spec_range_models(lo, hi));
        }
        out
    }

    /// Appends one entry carrying the next index and a term no older than the tail's.
    pub fn append(&mut self, term: u64, payload: Vec<u8>)
        requires
            old(self).wf(),
            old(self).entries@.len() < usize::MAX,
            term >= old(self).spec_term_at(old(self).spec_last_index()),
        ensures
            final(self).wf(),
            final(self).entries@.len() == old(self).entries@.len() + 1,
            final(self).entries@ == old(self).entries@.push(
                Entry { index: (old(self).entries@.len() + 1) as u64, term, payload },
            ),
    {
        let index = (self.entries.len() + 1) as u64;
        let e = Entry { index, term, payload };
        self.entries.push(e);
    }

    /// The entries' mathematical content, in log order.
    pub open spec fn spec_models(self) -> Seq<EntryModel> {
        models_of(self.entries@)
    }

    /// The payloads of the entries at 1-based indices `from + 1 ..= to`.
    pub open spec fn spec_payloads(self, from: u64, to: u64) -> Seq<Seq<u8>>
        recommends
            from <= to <= self.entries@.len(),
    {
        Seq::new((to - from) as nat, |k: int| self.entries@[from + k].payload@)
    }

    /// Discards every entry with `index >= from` (1-based).
    pub fn truncate_from(&mut self, from: u64)
        requires
            old(self).wf(),
            1 <= from,
        ensures
            final(self).wf(),
            final(self).entries@ == old(self).entries@.take(
                if from - 1 <= old(self).entries@.len() {
                    from - 1
                } else {
                    old(self).entries@.len() as int
                },
            ),
            from - 1 <= old(self).entries@.len() ==> final(self).entries@.len() == from - 1,
    {
        let keep: usize = if from - 1 <= self.entries.len() as u64 {
            (from - 1) as usize
        } else {
            self.entries.len()
        };
        self.entries.truncate(keep);
        proof {
            assert(self.entries@ =~= old(self).entries@.take(keep as int));
        }
    }
}

/// The mathematical content of a sequence of entries.
pub open spec fn models_of(es: Seq<Entry>) -> Seq<EntryModel> {
    Seq::new(es.len(), |i: int| es[i]@)
}

/// The number of cluster members in `s` other than `me`.
pub open spec fn spec_other_count(s: Seq<Node>, me: NodeId) -> int
    decreases s.len(),
{
    if s.len() == 0 {
        0
    } else {
        spec_other_count(s.drop_last(), me) + if s.last().id != me {
            1int
        } else {
            0int
        }
    }
}

pub proof fn lemma_other_count_nonneg(s: Seq<Node>, me: NodeId)
    ensures
        0 <= spec_other_count(s, me) <= s.len(),
    decreases s.len(),
{
    if s.len() > 0 {
        lemma_other_count_nonneg(s.drop_last(), me);
    }
}

pub proof fn lemma_other_count_take(s: Seq<Node>, me: NodeId, i: int)
    requires
        0 <= i < s.len(),
    ensures
        spec_other_count(s.take(i + 1), me) == spec_other_count(s.take(i), me) + if s[i].id != me {
            1int
        } else {
            0int
        },
{
    let t = s.take(i + 1);
    assert(t.drop_last() =~= s.take(i));
    assert(t.last() == s[i]);
}

/// The term a command carries, or 0 for the termless ones.
pub open spec fn spec_cmd_term(cmd: Command) -> u64 {
    match cmd {
        Command::AppendEntries { term, .. } => term,
        Command::AppendResponse { term, .. } => term,
        Command::VoteRequest { term, .. } => term,
        Command::VoteResponse { term, .. } => term,
        Command::Tick => 0,
        Command::Propose { .. } => 0,
    }
}

/// The monotonicity every step of a node preserves: `current_term`,
/// `commit_index` and `last_applied` never decrease, and a vote cast in a
/// term is never changed within that term.
pub open spec fn state_advances(a: State, b: State) -> bool {
    &&& b.current_term >= a.current_term
    &&& b.commit_index >= a.commit_index
    &&& b.last_applied >= a.last_applied
    &&& (b.current_term == a.current_term && a.voted_for is Some ==> b.voted_for == a.voted_for)
}

/// `a + b`, stopping at the largest `u64`.
pub open spec fn spec_sat_add(a: u64, b: u64) -> u64 {
    if a + b <= u64::MAX {
        (a + b) as u64
    } else {
        u64::MAX
    }
}

/// The election deadline jitter for a term: deterministic per `(id, term)`,
/// always within the configured interval.
pub open spec fn spec_election_timeout(c: RaftConfig, id: NodeId, term: u64) -> u64 {
    let span = if c.election_timeout_max >= c.election_timeout_min {
        c.election_timeout_max - c.election_timeout_min + 1
    } else {
        1int
    };
    spec_sat_add(
        c.election_timeout_min,
        ((((id as int) * 31 + (term as int) * 17) % span)) as u64,
    )
}

/// Saturating addition on tick clocks.
pub fn sat_add(a: u64, b: u64) -> (r: u64)
    ensures
        r == spec_sat_add(a, b),
{
    if a <= u64::MAX - b {
        a + b
    } else {
        u64::MAX
    }
}

/// Ticks until a node without leader contact starts an election, drawn
/// deterministically from the configured interval per `(id, term)`.
pub fn election_timeout(c: &RaftConfig, id: NodeId, term: u64) -> (r: u64)
    ensures
        r == spec_election_timeout(*c, id, term),
        c.wf() ==> c.election_timeout_min <= r <= c.election_timeout_max,
{
    let span: u128 = if c.election_timeout_max >= c.election_timeout_min {
        (c.election_timeout_max as u128) - (c.election_timeout_min as u128) + 1
    } else {
        1
    };
    let mix: u128 = (id as u128) * 31 + (term as u128) * 17;
    let rem: u64 = (mix % span) as u64;
    sat_add(c.election_timeout_min, rem)
}

/// What is common to the three roles.
pub trait Role {
    /// Hook invoked when the node observes a newer term.
    fn term(&mut self, term: u64);

    /// Which role this is.
    fn role(&self) -> RaftRole;
}

/// A Raft node in role `R`: identity, persistent state, the cluster map,
/// the replicated log, the controller state machine it feeds, a tick-driven
/// clock, and the messages awaiting the transport.
#[derive(Debug)]
pub struct Raft<R> {
    pub id: NodeId,
    pub state: State,
    pub nodes: Vec<Node>,
    pub role: R,
    pub config: RaftConfig,
    pub log: RaftLog,
    pub clock: u64,
    pub outbox: Vec<Envelope>,
    pub fsm: ControllerState,
    /// Committed entries already applied, each with the controller's
    /// outcome: the journal the shell answers pending proposals from.
    pub applied: Vec<(u64, ApplyOutcome)>,
}

impl<R> Raft<R> {
    /// The role-independent well-formedness of a node.
    pub open spec fn core_wf(self) -> bool {
        &&& self.state.wf()
        &&& self.log.wf()
        &&& self.config.wf()
        &&& self.state.commit_index <= self.log.entries@.len()
        &&& self.log.spec_term_at(self.log.spec_last_index()) <= self.state.current_term
        &&& 1 <= self.nodes@.len() < usize::MAX
        &&& forall|i: int, j: int|
            0 <= i < j < self.nodes@.len() ==> (#[trigger] self.nodes@[i].id) != (
            #[trigger] self.nodes@[j].id)
    }

    /// Everything but the role, the clock, the outbox and the fsm is equal.
    pub open spec fn same_core(self, o: Raft<R>) -> bool {
        &&& o.id == self.id
        &&& o.nodes == self.nodes
        &&& o.config == self.config
    }

    /// Feeds every committed, not yet applied entry to the controller, in
    /// log order, exactly once, journalling each outcome.
    #[verifier::rlimit(100)]
    #[verifier::spinoff_prover]
    pub fn advance_applied(&mut self)
        requires
            old(self).core_wf(),
        ensures
            final(self).core_wf(),
            final(self).state.last_applied == final(self).state.commit_index,
            final(self).state == (State {
                last_applied: old(self).state.commit_index,
                ..old(self).state
            }),
            final(self).log == old(self).log,
            final(self).role == old(self).role,
            final(self).outbox == old(self).outbox,
            final(self).clock == old(self).clock,
            final(self).same_core(*old(self)),
            final(self).fsm@ == spec_replay(
                old(self).fsm@,
                old(self).log.spec_payloads(old(self).state.last_applied, old(self).state.commit_index),
            ),
            // each newly committed index is journalled, in order, with the
            // outcome the controller reported for it
            final(self).applied@.len() == old(self).applied@.len() + (old(self).state.commit_index
                - old(self).state.last_applied),
            forall|k: int|
                0 <= k < old(self).applied@.len() ==> (#[trigger] final(self).applied@[k]) == old(
                    self,
                ).applied@[k],
            forall|k: int|
                old(self).applied@.len() <= k < final(self).applied@.len() ==> ((
                #[trigger] final(self).applied@[k]).0 == old(self).state.last_applied + 1 + (k
                    - old(self).applied@.len()) && final(self).applied@[k].1
                    == spec_replay_outcomes(
                    old(self).fsm@,
                    old(self).log.spec_payloads(
                        old(self).state.last_applied,
                        old(self).state.commit_index,
                    ),
                )[k - old(self).applied@.len()]),
            state_advances(old(self).state, final(self).state),
    {
        let ghost m0 = self.fsm@;
        let ghost la0 = self.state.last_applied;
        let n = self.log.entries.len();
        while self.state.last_applied < self.state.commit_index
            invariant
                self.core_wf(),
                n == old(self).log.entries@.len(),
                la0 <= self.state.last_applied,
                self.state == (State { last_applied: self.state.last_applied, ..old(self).state }),
                self.state.last_applied <= self.state.commit_index,
                self.log == old(self).log,
                self.role == old(self).role,
                self.outbox == old(self).outbox,
                self.clock == old(self).clock,
                self.id == old(self).id,
                self.nodes == old(self).nodes,
                self.config == old(self).config,
                la0 == old(self).state.last_applied,
                self.fsm@ == spec_replay(m0, self.log.spec_payloads(la0, self.state.last_applied)),
                self.applied@.len() == old(self).applied@.len() + (self.state.last_applied - la0),
                forall|k: int|
                    0 <= k < old(self).applied@.len() ==> (#[trigger] self.applied@[k]) == old(
                        self,
                    ).applied@[k],
                forall|k: int|
                    old(self).applied@.len() <= k < self.applied@.len() ==> ((
                    #[trigger] self.applied@[k]).0 == la0 + 1 + (k - old(self).applied@.len())
                        && self.applied@[k].1 == spec_replay_outcomes(
                        m0,
                        self.log.spec_payloads(la0, self.state.last_applied),
                    )[k - old(self).applied@.len()]),
            decreases self.state.commit_index - self.state.last_applied,
        {
            let ghost la = self.state.last_applied;
            let pos: usize = self.state.last_applied as usize;
            let idx: u64 = self.state.last_applied + 1;
            let payload = clone_bytes(&self.log.entries[pos].payload);
            let out = self.fsm.apply_bytes(&payload);
            self.applied.push((idx, out));
            proof {
                let single = seq![self.log.entries@[la as int].payload@];
                let mid = spec_replay(m0, self.log.spec_payloads(la0, la));
                lemma_replay_append(m0, self.log.spec_payloads(la0, la), single);
                assert(self.log.spec_payloads(la0, la) + single =~= self.log.spec_payloads(
                    la0,
                    (la + 1) as u64,
                ));
                assert(single.drop_first() =~= Seq::<Seq<u8>>::empty());
                assert(spec_replay(mid, single) == spec_replay(
                    spec_step(mid, single[0]),
                    single.drop_first(),
                ));
                assert(spec_replay(mid, single) == spec_step(mid, single[0]));
                lemma_replay_outcomes_append(m0, self.log.spec_payloads(la0, la), single);
                assert(spec_replay_outcomes(
                    spec_step(mid, single[0]),
                    Seq::<Seq<u8>>::empty(),
                ) =~= Seq::<ApplyOutcome>::empty());
                assert(spec_replay_outcomes(mid, single) == seq![spec_step_outcome(
                    mid,
                    single[0],
                )] + spec_replay_outcomes(spec_step(mid, single[0]), single.drop_first()));
                assert(spec_replay_outcomes(mid, single) =~= seq![spec_step_outcome(
                    mid,
                    single[0],
                )]);
                assert(spec_replay_outcomes(m0, self.log.spec_payloads(la0, (la + 1) as u64))
                    == spec_replay_outcomes(m0, self.log.spec_payloads(la0, la)) + seq![
                    spec_step_outcome(mid, single[0])]);
                assert(out == spec_step_outcome(mid, single[0]));
                lemma_replay_outcomes_len(m0, self.log.spec_payloads(la0, la));
                lemma_replay_outcomes_len(m0, self.log.spec_payloads(la0, (la + 1) as u64));
                assert(self.applied@.last() == (idx, out));
                assert(self.applied@.len() - 1 - old(self).applied@.len() == la - la0);
                assert(spec_replay_outcomes(m0, self.log.spec_payloads(la0, (la + 1) as u64))[la
                    - la0] == spec_step_outcome(mid, single[0]));
            }
            self.state.last_applied = self.state.last_applied + 1;
        }
        proof {
            assert(self.state =~= State {
                last_applied: old(self).state.commit_index,
                ..old(self).state
            });
        }
    }
}

/// The node after a step: whichever role it now holds.
#[derive(Debug)]
pub enum RaftHandle {
    Follower(Raft<crate::follower::Follower>),
    Candidate(Raft<crate::candidate::Candidate>),
    Leader(Raft<crate::leader::Leader>),
}

impl RaftHandle {
    /// The persistent state of the node inside, whatever its role.
    pub open spec fn spec_state(self) -> State {
        match self {
            RaftHandle::Follower(r) => r.state,
            RaftHandle::Candidate(r) => r.state,
            RaftHandle::Leader(r) => r.state,
        }
    }

    pub open spec fn spec_role(self) -> RaftRole {
        match self {
            RaftHandle::Follower(_) => RaftRole::Follower,
            RaftHandle::Candidate(_) => RaftRole::Candidate,
            RaftHandle::Leader(_) => RaftRole::Leader,
        }
    }

    pub open spec fn spec_log(self) -> RaftLog {
        match self {
            RaftHandle::Follower(r) => r.log,
            RaftHandle::Candidate(r) => r.log,
            RaftHandle::Leader(r) => r.log,
        }
    }

    pub open spec fn wf(self) -> bool {
        match self {
            RaftHandle::Follower(r) => r.core_wf(),
            RaftHandle::Candidate(r) => r.core_wf() && r.role.votes@.no_duplicates(),
            RaftHandle::Leader(r) => r.lwf(),
        }
    }
}

} // verus!
