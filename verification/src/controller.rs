//! The controller finite state machine fed by the Raft node: cluster
//! metadata (topics, partition assignments, broker membership), mutated
//! only by applying committed entry payloads.
//!
//! `apply_bytes` is a pure function of state and payload: its whole effect
//! is pinned to the spec-level step function, so replaying the same entry
//! stream always rebuilds the same state.

use vstd::prelude::*;
use crate::raft::NodeId;

verus! {

/// Assignment of one partition: its leader and replica sets.
#[derive(Debug)]
pub struct PartitionAssignment {
    pub partition: u32,
    pub leader: NodeId,
    pub replicas: Vec<NodeId>,
    pub isr: Vec<NodeId>,
}

/// The mathematical content of a `PartitionAssignment`.
#[verifier::ext_equal]
pub struct AssignmentModel {
    pub partition: u32,
    pub leader: NodeId,
    pub replicas: Seq<NodeId>,
    pub isr: Seq<NodeId>,
}

impl View for PartitionAssignment {
    type V = AssignmentModel;

    open spec fn view(&self) -> AssignmentModel {
        AssignmentModel {
            partition: self.partition,
            leader: self.leader,
            replicas: self.replicas@,
            isr: self.isr@,
        }
    }
}

/// One topic: name, replication factor, and per-partition assignments.
#[derive(Debug)]
pub struct Topic {
    pub name: Vec<u8>,
    pub replication: u32,
    pub assignments: Vec<PartitionAssignment>,
}

/// The mathematical content of a `Topic`.
#[verifier::ext_equal]
pub struct TopicModel {
    pub name: Seq<u8>,
    pub replication: u32,
    pub assignments: Seq<AssignmentModel>,
}

impl View for Topic {
    type V = TopicModel;

    open spec fn view(&self) -> TopicModel {
        TopicModel {
            name: self.name@,
            replication: self.replication,
            assignments: Seq::new(self.assignments@.len(), |i: int| self.assignments@[i]@),
        }
    }
}

/// One registered broker.
#[derive(Debug)]
pub struct Broker {
    pub id: NodeId,
    pub host: Vec<u8>,
    pub port: u32,
}

/// The mathematical content of a `Broker`.
#[verifier::ext_equal]
pub struct BrokerModel {
    pub id: NodeId,
    pub host: Seq<u8>,
    pub port: u32,
}

impl View for Broker {
    type V = BrokerModel;

    open spec fn view(&self) -> BrokerModel {
        BrokerModel { id: self.id, host: self.host@, port: self.port }
    }
}

/// The metadata the controller maintains.
#[derive(Debug)]
pub struct ControllerState {
    pub topics: Vec<Topic>,
    pub brokers: Vec<Broker>,
}

/// The mathematical content of the controller state.
#[verifier::ext_equal]
pub struct ControllerModel {
    pub topics: Seq<TopicModel>,
    pub brokers: Seq<BrokerModel>,
}

impl View for ControllerState {
    type V = ControllerModel;

    open spec fn view(&self) -> ControllerModel {
        ControllerModel {
            topics: Seq::new(self.topics@.len(), |i: int| self.topics@[i]@),
            brokers: Seq::new(self.brokers@.len(), |i: int| self.brokers@[i]@),
        }
    }
}

/// What applying one payload reports back.
#[derive(Clone, Copy, PartialEq, Eq, Structural, Debug)]
pub enum ApplyOutcome {
    Done,
    AlreadyExists,
    UnknownTopic,
    UnknownPartition,
    UnknownBroker,
    Malformed,
}

/// First position of a topic named `name`, or -1.
pub open spec fn spec_topic_index(ts: Seq<TopicModel>, name: Seq<u8>) -> int
    decreases ts.len(),
{
    if ts.len() == 0 {
        -1
    } else if ts[0].name == name {
        0
    } else {
        let r = spec_topic_index(ts.drop_first(), name);
        if r < 0 {
            -1
        } else {
            r + 1
        }
    }
}

/// First position of a broker with id `id`, or -1.
pub open spec fn spec_broker_index(bs: Seq<BrokerModel>, id: NodeId) -> int
    decreases bs.len(),
{
    if bs.len() == 0 {
        -1
    } else if bs[0].id == id {
        0
    } else {
        let r = spec_broker_index(bs.drop_first(), id);
        if r < 0 {
            -1
        } else {
            r + 1
        }
    }
}

pub proof fn lemma_topic_index_of_prefix_miss(ts: Seq<TopicModel>, name: Seq<u8>, i: int)
    requires
        0 <= i <= ts.len(),
        forall|j: int| 0 <= j < i ==> (#[trigger] ts[j]).name != name,
        i < ts.len() ==> ts[i].name == name,
    ensures
        i < ts.len() ==> spec_topic_index(ts, name) == i,
        i == ts.len() ==> spec_topic_index(ts, name) == -1,
    decreases ts.len(),
{
    if ts.len() > 0 {
        if ts[0].name != name {
            assert(i >= 1);
            lemma_topic_index_of_prefix_miss(ts.drop_first(), name, i - 1);
            assert(forall|j: int|
                0 <= j < ts.drop_first().len() ==> (#[trigger] ts.drop_first()[j]) == ts[j + 1]);
        }
    }
}

pub proof fn lemma_broker_index_of_prefix_miss(bs: Seq<BrokerModel>, id: NodeId, i: int)
    requires
        0 <= i <= bs.len(),
        forall|j: int| 0 <= j < i ==> (#[trigger] bs[j]).id != id,
        i < bs.len() ==> bs[i].id == id,
    ensures
        i < bs.len() ==> spec_broker_index(bs, id) == i,
        i == bs.len() ==> spec_broker_index(bs, id) == -1,
    decreases bs.len(),
{
    if bs.len() > 0 {
        if bs[0].id != id {
            assert(i >= 1);
            lemma_broker_index_of_prefix_miss(bs.drop_first(), id, i - 1);
            assert(forall|j: int|
                0 <= j < bs.drop_first().len() ==> (#[trigger] bs.drop_first()[j]) == bs[j + 1]);
        }
    }
}

/// A command recognized by the controller, decoded from an entry payload.
#[derive(Debug)]
pub enum ControllerCommand {
    CreateTopic { name: Vec<u8>, replication: u32, leaders: Vec<NodeId> },
    DeleteTopic { name: Vec<u8> },
    RegisterBroker { id: NodeId, host: Vec<u8>, port: u32 },
    UpdateIsr { name: Vec<u8>, partition: u32, isr: Vec<NodeId> },
    ElectPartitionLeader { name: Vec<u8>, partition: u32, leader: NodeId },
}

/// The mathematical content of a `ControllerCommand`.
#[verifier::ext_equal]
pub enum CommandModel {
    CreateTopic { name: Seq<u8>, replication: u32, leaders: Seq<NodeId> },
    DeleteTopic { name: Seq<u8> },
    RegisterBroker { id: NodeId, host: Seq<u8>, port: u32 },
    UpdateIsr { name: Seq<u8>, partition: u32, isr: Seq<NodeId> },
    ElectPartitionLeader { name: Seq<u8>, partition: u32, leader: NodeId },
}

impl View for ControllerCommand {
    type V = CommandModel;

    open spec fn view(&self) -> CommandModel {
        match self {
            ControllerCommand::CreateTopic { name, replication, leaders } => CommandModel::CreateTopic {
                name: name@,
                replication: *replication,
                leaders: leaders@,
            },
            ControllerCommand::DeleteTopic { name } => CommandModel::DeleteTopic { name: name@ },
            ControllerCommand::RegisterBroker { id, host, port } => CommandModel::RegisterBroker {
                id: *id,
                host: host@,
                port: *port,
            },
            ControllerCommand::UpdateIsr { name, partition, isr } => CommandModel::UpdateIsr {
                name: name@,
                partition: *partition,
                isr: isr@,
            },
            ControllerCommand::ElectPartitionLeader {
                name,
                partition,
                leader,
            } => CommandModel::ElectPartitionLeader {
                name: name@,
                partition: *partition,
                leader: *leader,
            },
        }
    }
}

/// The entry-payload format, read back: a one-byte tag, big-endian
/// integers, and length-prefixed byte strings. Anything else is rejected.
pub open spec fn spec_parse_command(s: Seq<u8>) -> Option<CommandModel> {
    if s.len() < 5 {
        None
    } else {
        let tag = s[0];
        let nl = crate::codec::be32(s, 1) as int;
        if tag == 1 {
            if s.len() < 13 + nl {
                None
            } else {
                let parts = crate::codec::be32(s, 5 + nl) as int;
                if s.len() == 13 + nl + 4 * parts {
                    Some(
                        CommandModel::CreateTopic {
                            name: s.subrange(5, 5 + nl),
                            replication: crate::codec::be32(s, 9 + nl),
                            leaders: crate::codec::spec_u32s(s, 13 + nl, parts),
                        },
                    )
                } else {
                    None
                }
            }
        } else if tag == 2 {
            if s.len() == 5 + nl {
                Some(CommandModel::DeleteTopic { name: s.subrange(5, 5 + nl) })
            } else {
                None
            }
        } else if tag == 3 {
            if s.len() < 9 {
                None
            } else {
                let hl = crate::codec::be32(s, 5) as int;
                if s.len() == 13 + hl {
                    Some(
                        CommandModel::RegisterBroker {
                            id: crate::codec::be32(s, 1),
                            host: s.subrange(9, 9 + hl),
                            port: crate::codec::be32(s, 9 + hl),
                        },
                    )
                } else {
                    None
                }
            }
        } else if tag == 4 {
            if s.len() < 13 + nl {
                None
            } else {
                let il = crate::codec::be32(s, 9 + nl) as int;
                if s.len() == 13 + nl + 4 * il {
                    Some(
                        CommandModel::UpdateIsr {
                            name: s.subrange(5, 5 + nl),
                            partition: crate::codec::be32(s, 5 + nl),
                            isr: crate::codec::spec_u32s(s, 13 + nl, il),
                        },
                    )
                } else {
                    None
                }
            }
        } else if tag == 5 {
            if s.len() == 13 + nl {
                Some(
                    CommandModel::ElectPartitionLeader {
                        name: s.subrange(5, 5 + nl),
                        partition: crate::codec::be32(s, 5 + nl),
                        leader: crate::codec::be32(s, 9 + nl),
                    },
                )
            } else {
                None
            }
        } else {
            None
        }
    }
}

/// Decodes an entry payload, exactly as `spec_parse_command` reads it.
pub fn parse_command(v: &Vec<u8>) -> (r: Option<ControllerCommand>)
    ensures
        match r {
            Some(c) => spec_parse_command(v@) == Some(c@),
            None => spec_parse_command(v@) is None,
        },
{
    let len_u: usize = v.len();
    let len: u64 = len_u as u64;
    if len_u < 5 {
        return None;
    }
    let tag = v[0];
    let nl32 = crate::codec::read_u32(v, 1);
    let nl: u64 = nl32 as u64;
    if tag == 1 {
        if len < 13 + nl {
            return None;
        }
        let parts: u64 = crate::codec::read_u32(v, (5 + nl) as usize) as u64;
        if len != 13 + nl + 4 * parts {
            return None;
        }
        let name = crate::codec::copy_range(v, 5, (5 + nl) as usize);
        let replication = crate::codec::read_u32(v, (9 + nl) as usize);
        let leaders = crate::codec::read_u32s(v, (13 + nl) as usize, parts as usize);
        Some(ControllerCommand::CreateTopic { name, replication, leaders })
    } else if tag == 2 {
        if len != 5 + nl {
            return None;
        }
        let name = crate::codec::copy_range(v, 5, (5 + nl) as usize);
        Some(ControllerCommand::DeleteTopic { name })
    } else if tag == 3 {
        if len_u < 9 {
            return None;
        }
        let hl: u64 = crate::codec::read_u32(v, 5) as u64;
        if len != 13 + hl {
            return None;
        }
        let id = crate::codec::read_u32(v, 1);
        let host = crate::codec::copy_range(v, 9, (9 + hl) as usize);
        let port = crate::codec::read_u32(v, (9 + hl) as usize);
        Some(ControllerCommand::RegisterBroker { id, host, port })
    } else if tag == 4 {
        if len < 13 + nl {
            return None;
        }
        let il: u64 = crate::codec::read_u32(v, (9 + nl) as usize) as u64;
        if len != 13 + nl + 4 * il {
            return None;
        }
        let name = crate::codec::copy_range(v, 5, (5 + nl) as usize);
        let partition = crate::codec::read_u32(v, (5 + nl) as usize);
        let isr = crate::codec::read_u32s(v, (13 + nl) as usize, il as usize);
        Some(ControllerCommand::UpdateIsr { name, partition, isr })
    } else if tag == 5 {
        if len != 13 + nl {
            return None;
        }
        let name = crate::codec::copy_range(v, 5, (5 + nl) as usize);
        let partition = crate::codec::read_u32(v, (5 + nl) as usize);
        let leader = crate::codec::read_u32(v, (9 + nl) as usize);
        Some(ControllerCommand::ElectPartitionLeader { name, partition, leader })
    } else {
        None
    }
}

/// Writes the CreateTopic payload for a topic of `leaders.len()`
/// partitions: the tag, the length-prefixed name, the partition count, the
/// replication factor, and one leader per partition. Decoding it hands the
/// same command back.
pub fn encode_create_topic(name: &Vec<u8>, replication: u32, leaders: &Vec<NodeId>) -> (r: Vec<
    u8,
>)
    requires
        name@.len() < u32::MAX,
        leaders@.len() < u32::MAX,
    ensures
        spec_parse_command(r@) == Some(
            CommandModel::CreateTopic {
                name: name@,
                replication,
                leaders: leaders@,
            },
        ),
{
    let mut out: Vec<u8> = Vec::new();
    out.push(1u8);
    crate::codec::push_u32(&mut out, name.len() as u32);
    let mut i: usize = 0;
    proof {
        assert(out@ =~= seq![1u8] + crate::codec::be32_bytes(name@.len() as u32)
            + name@.take(0));
    }
    while i < name.len()
        invariant
            i <= name@.len(),
            name@.len() < u32::MAX,
            out@ == seq![1u8] + crate::codec::be32_bytes(name@.len() as u32) + name@.take(
                i as int,
            ),
        decreases name@.len() - i,
    {
        out.push(name[i]);
        proof {
            assert(out@ =~= seq![1u8] + crate::codec::be32_bytes(name@.len() as u32) + name@.take(
                i + 1,
            ));
        }
        i = i + 1;
    }
    proof {
        assert(name@.take(name@.len() as int) =~= name@);
    }
    crate::codec::push_u32(&mut out, leaders.len() as u32);
    crate::codec::push_u32(&mut out, replication);
    let ghost head = out@;
    let mut k: usize = 0;
    while k < leaders.len()
        invariant
            k <= leaders@.len(),
            leaders@.len() < u32::MAX,
            out@.len() == head.len() + 4 * k,
            forall|j: int| 0 <= j < head.len() ==> (#[trigger] out@[j]) == head[j],
            crate::codec::spec_u32s(out@, head.len() as int, k as int) == leaders@.take(k as int),
        decreases leaders@.len() - k,
    {
        let ghost prev = out@;
        crate::codec::push_u32(&mut out, leaders[k]);
        proof {
            assert forall|n: int|
                0 <= n <= k implies crate::codec::spec_u32s(out@, head.len() as int, n)
                =~= crate::codec::spec_u32s(prev, head.len() as int, n) by {
                lemma_u32s_stable(prev, out@, head.len() as int, n);
            }
            assert(crate::codec::be32(out@, head.len() + 4 * k as int) == leaders@[k as int]);
            assert(crate::codec::spec_u32s(out@, head.len() as int, k + 1) =~= leaders@.take(
                k + 1,
            ));
        }
        k = k + 1;
    }
    proof {
        assert(leaders@.take(leaders@.len() as int) =~= leaders@);
        lemma_parse_create_topic(out@, name@, replication, leaders@, head);
    }
    out
}

/// A shorter prefix of packed words is unchanged by appending bytes.
proof fn lemma_u32s_stable(a: Seq<u8>, b: Seq<u8>, at: int, n: int)
    requires
        0 <= at,
        a.len() <= b.len(),
        at + 4 * n <= a.len(),
        forall|j: int| 0 <= j < a.len() ==> (#[trigger] b[j]) == a[j],
        n >= 0,
    ensures
        crate::codec::spec_u32s(b, at, n) == crate::codec::spec_u32s(a, at, n),
    decreases n,
{
    if n > 0 {
        lemma_u32s_stable(a, b, at, n - 1);
        assert(crate::codec::be32(b, at + 4 * (n - 1)) == crate::codec::be32(a, at + 4 * (n - 1)));
    }
}

/// The written CreateTopic bytes decode to exactly the encoded command.
proof fn lemma_parse_create_topic(
    s: Seq<u8>,
    name: Seq<u8>,
    replication: u32,
    leaders: Seq<NodeId>,
    head: Seq<u8>,
)
    requires
        name.len() < u32::MAX,
        leaders.len() < u32::MAX,
        head == seq![1u8] + crate::codec::be32_bytes(name.len() as u32) + name
            + crate::codec::be32_bytes(leaders.len() as u32) + crate::codec::be32_bytes(
            replication,
        ),
        s.len() == head.len() + 4 * leaders.len(),
        forall|j: int| 0 <= j < head.len() ==> (#[trigger] s[j]) == head[j],
        crate::codec::spec_u32s(s, head.len() as int, leaders.len() as int) == leaders,
    ensures
        spec_parse_command(s) == Some(
            CommandModel::CreateTopic { name, replication, leaders },
        ),
{
    let nl = name.len() as int;
    assert(s[0] == 1);
    lemma_be32_of_bytes_at(s, 1, name.len() as u32);
    assert(s.subrange(5, 5 + nl) =~= name);
    lemma_be32_of_bytes_at(s, 5 + nl, leaders.len() as u32);
    lemma_be32_of_bytes_at(s, 9 + nl, replication);
    assert(spec_parse_command(s) matches Some(c) && c =~= CommandModel::CreateTopic {
        name,
        replication,
        leaders,
    });
}

/// Four bytes written by `be32_bytes` read back as the written word.
proof fn lemma_be32_of_bytes_at(s: Seq<u8>, at: int, x: u32)
    requires
        0 <= at,
        at + 4 <= s.len(),
        s[at] == (x / 0x1000000) as u8,
        s[at + 1] == ((x / 0x10000) % 0x100) as u8,
        s[at + 2] == ((x / 0x100) % 0x100) as u8,
        s[at + 3] == (x % 0x100) as u8,
    ensures
        crate::codec::be32(s, at) == x,
{
    assert(x == (x / 0x1000000) * 0x1000000 + ((x / 0x10000) % 0x100) * 0x10000 + ((x / 0x100)
        % 0x100) * 0x100 + x % 0x100) by (bit_vector);
}

/// Writes the DeleteTopic payload: the tag and the length-prefixed name.
/// Decoding it hands the same command back.
pub fn encode_delete_topic(name: &Vec<u8>) -> (r: Vec<u8>)
    requires
        name@.len() < u32::MAX,
    ensures
        spec_parse_command(r@) == Some(CommandModel::DeleteTopic { name: name@ }),
{
    let mut out: Vec<u8> = Vec::new();
    out.push(2u8);
    crate::codec::push_u32(&mut out, name.len() as u32);
    let mut i: usize = 0;
    proof {
        assert(out@ =~= seq![2u8] + crate::codec::be32_bytes(name@.len() as u32)
            + name@.take(0));
    }
    while i < name.len()
        invariant
            i <= name@.len(),
            name@.len() < u32::MAX,
            out@ == seq![2u8] + crate::codec::be32_bytes(name@.len() as u32) + name@.take(
                i as int,
            ),
        decreases name@.len() - i,
    {
        out.push(name[i]);
        proof {
            assert(out@ =~= seq![2u8] + crate::codec::be32_bytes(name@.len() as u32) + name@.take(
                i + 1,
            ));
        }
        i = i + 1;
    }
    proof {
        assert(name@.take(name@.len() as int) =~= name@);
        lemma_be32_of_bytes_at(out@, 1, name@.len() as u32);
        assert(out@.subrange(5, 5 + name@.len() as int) =~= name@);
        assert(spec_parse_command(out@) matches Some(c) && c =~= CommandModel::DeleteTopic {
            name: name@,
        });
    }
    out
}

/// The fresh assignments a created topic starts with: partition `k` led by
/// `leaders[k]`, whose replica and in-sync sets are just that leader.
pub open spec fn spec_assignments(leaders: Seq<NodeId>) -> Seq<AssignmentModel> {
    Seq::new(
        leaders.len(),
        |k: int|
            AssignmentModel {
                partition: k as u32,
                leader: leaders[k],
                replicas: seq![leaders[k]],
                isr: seq![leaders[k]],
            },
    )
}

/// What one decoded command does to the metadata, and what it reports.
pub open spec fn spec_apply(m: ControllerModel, c: CommandModel) -> (ControllerModel, ApplyOutcome) {
    match c {
        CommandModel::CreateTopic { name, replication, leaders } => {
            if spec_topic_index(m.topics, name) >= 0 {
                (m, ApplyOutcome::AlreadyExists)
            } else {
                (
                    ControllerModel {
                        topics: m.topics.push(
                            TopicModel { name, replication, assignments: spec_assignments(leaders) },
                        ),
                        brokers: m.brokers,
                    },
                    ApplyOutcome::Done,
                )
            }
        },
        CommandModel::DeleteTopic { name } => {
            let i = spec_topic_index(m.topics, name);
            if i < 0 {
                (m, ApplyOutcome::UnknownTopic)
            } else {
                (
                    ControllerModel { topics: m.topics.remove(i), brokers: m.brokers },
                    ApplyOutcome::Done,
                )
            }
        },
        CommandModel::RegisterBroker { id, host, port } => {
            let b = BrokerModel { id, host, port };
            let i = spec_broker_index(m.brokers, id);
            if i < 0 {
                (
                    ControllerModel { topics: m.topics, brokers: m.brokers.push(b) },
                    ApplyOutcome::Done,
                )
            } else {
                (
                    ControllerModel { topics: m.topics, brokers: m.brokers.update(i, b) },
                    ApplyOutcome::Done,
                )
            }
        },
        CommandModel::UpdateIsr { name, partition, isr } => {
            let i = spec_topic_index(m.topics, name);
            if i < 0 {
                (m, ApplyOutcome::UnknownTopic)
            } else if partition >= m.topics[i].assignments.len() {
                (m, ApplyOutcome::UnknownPartition)
            } else {
                let t = m.topics[i];
                let a = t.assignments[partition as int];
                let a2 = AssignmentModel {
                    partition: a.partition,
                    leader: a.leader,
                    replicas: a.replicas,
                    isr,
                };
                let t2 = TopicModel {
                    name: t.name,
                    replication: t.replication,
                    assignments: t.assignments.update(partition as int, a2),
                };
                (
                    ControllerModel { topics: m.topics.update(i, t2), brokers: m.brokers },
                    ApplyOutcome::Done,
                )
            }
        },
        CommandModel::ElectPartitionLeader { name, partition, leader } => {
            let i = spec_topic_index(m.topics, name);
            if i < 0 {
                (m, ApplyOutcome::UnknownTopic)
            } else if partition >= m.topics[i].assignments.len() {
                (m, ApplyOutcome::UnknownPartition)
            } else {
                let t = m.topics[i];
                let a = t.assignments[partition as int];
                let a2 = AssignmentModel {
                    partition: a.partition,
                    leader,
                    replicas: a.replicas,
                    isr: a.isr,
                };
                let t2 = TopicModel {
                    name: t.name,
                    replication: t.replication,
                    assignments: t.assignments.update(partition as int, a2),
                };
                (
                    ControllerModel { topics: m.topics.update(i, t2), brokers: m.brokers },
                    ApplyOutcome::Done,
                )
            }
        },
    }
}

/// What one raw payload does to the metadata: decode, then apply; a payload
/// that does not decode changes nothing.
pub open spec fn spec_step(m: ControllerModel, s: Seq<u8>) -> ControllerModel {
    match spec_parse_command(s) {
        Some(c) => spec_apply(m, c).0,
        None => m,
    }
}

/// What applying one raw payload reports.
pub open spec fn spec_step_outcome(m: ControllerModel, s: Seq<u8>) -> ApplyOutcome {
    match spec_parse_command(s) {
        Some(c) => spec_apply(m, c).1,
        None => ApplyOutcome::Malformed,
    }
}

/// The metadata after replaying `entries` in order from `m`.
pub open spec fn spec_replay(m: ControllerModel, entries: Seq<Seq<u8>>) -> ControllerModel
    decreases entries.len(),
{
    if entries.len() == 0 {
        m
    } else {
        spec_replay(spec_step(m, entries[0]), entries.drop_first())
    }
}

/// The outcomes the controller reports while replaying `entries` from `m`,
/// one per payload, in order.
pub open spec fn spec_replay_outcomes(m: ControllerModel, entries: Seq<Seq<u8>>) -> Seq<
    ApplyOutcome,
>
    decreases entries.len(),
{
    if entries.len() == 0 {
        Seq::empty()
    } else {
        seq![spec_step_outcome(m, entries[0])] + spec_replay_outcomes(
            spec_step(m, entries[0]),
            entries.drop_first(),
        )
    }
}

/// One outcome is reported per replayed payload.
pub proof fn lemma_replay_outcomes_len(m: ControllerModel, entries: Seq<Seq<u8>>)
    ensures
        spec_replay_outcomes(m, entries).len() == entries.len(),
    decreases entries.len(),
{
    if entries.len() > 0 {
        lemma_replay_outcomes_len(spec_step(m, entries[0]), entries.drop_first());
    }
}

/// Outcome replay composes over concatenation just as state replay does.
pub proof fn lemma_replay_outcomes_append(m: ControllerModel, s1: Seq<Seq<u8>>, s2: Seq<Seq<u8>>)
    ensures
        spec_replay_outcomes(m, s1 + s2) == spec_replay_outcomes(m, s1) + spec_replay_outcomes(
            spec_replay(m, s1),
            s2,
        ),
    decreases s1.len(),
{
    if s1.len() == 0 {
        assert(s1 + s2 =~= s2);
        assert(spec_replay_outcomes(m, s1) + spec_replay_outcomes(spec_replay(m, s1), s2)
            =~= spec_replay_outcomes(m, s2));
    } else {
        assert((s1 + s2).drop_first() =~= s1.drop_first() + s2);
        assert((s1 + s2)[0] == s1[0]);
        lemma_replay_outcomes_append(spec_step(m, s1[0]), s1.drop_first(), s2);
        let a = seq![spec_step_outcome(m, s1[0])];
        let b = spec_replay_outcomes(spec_step(m, s1[0]), s1.drop_first());
        let c = spec_replay_outcomes(spec_replay(m, s1), s2);
        assert(spec_replay(m, s1) == spec_replay(spec_step(m, s1[0]), s1.drop_first()));
        assert(spec_replay_outcomes(m, s1 + s2) == a + (b + c));
        assert(a + (b + c) =~= (a + b) + c);
    }
}

/// Replay composes over concatenation: replaying a committed prefix and
/// then the rest is the same as replaying the whole stream. With
/// `apply_bytes` pinned to `spec_step`, any two replays of the same stream
/// into the same starting state end in the same state.
pub proof fn lemma_replay_append(m: ControllerModel, s1: Seq<Seq<u8>>, s2: Seq<Seq<u8>>)
    ensures
        spec_replay(m, s1 + s2) == spec_replay(spec_replay(m, s1), s2),
    decreases s1.len(),
{
    if s1.len() == 0 {
        assert(s1 + s2 =~= s2);
    } else {
        assert((s1 + s2).drop_first() =~= s1.drop_first() + s2);
        lemma_replay_append(spec_step(m, s1[0]), s1.drop_first(), s2);
    }
}

impl ControllerState {
    /// An empty metadata store.
    pub fn new() -> (r: ControllerState)
        ensures
            r@.topics.len() == 0,
            r@.brokers.len() == 0,
    {
        ControllerState { topics: Vec::new(), brokers: Vec::new() }
    }

    /// Position of the topic named `name`, per `spec_topic_index`.
    pub fn find_topic(&self, name: &Vec<u8>) -> (r: Option<usize>)
        ensures
            match r {
                Some(i) => i < self.topics@.len() && spec_topic_index(self@.topics, name@)
                    == i as int,
                None => spec_topic_index(self@.topics, name@) == -1,
            },
    {
        let mut i: usize = 0;
        while i < self.topics.len()
            invariant
                i <= self.topics@.len(),
                forall|j: int| 0 <= j < i ==> (#[trigger] self@.topics[j]).name != name@,
            decreases self.topics@.len() - i,
        {
            if crate::codec::bytes_eq(&self.topics[i].name, name) {
                proof {
                    assert(self@.topics[i as int].name == name@);
                    lemma_topic_index_of_prefix_miss(self@.topics, name@, i as int);
                }
                return Some(i);
            }
            proof {
                assert(self@.topics[i as int].name == self.topics@[i as int].name@);
            }
            i = i + 1;
        }
        proof {
            lemma_topic_index_of_prefix_miss(self@.topics, name@, self.topics@.len() as int);
        }
        None
    }

    /// Position of the broker with `id`, per `spec_broker_index`.
    pub fn find_broker(&self, id: NodeId) -> (r: Option<usize>)
        ensures
            match r {
                Some(i) => i < self.brokers@.len() && spec_broker_index(self@.brokers, id)
                    == i as int,
                None => spec_broker_index(self@.brokers, id) == -1,
            },
    {
        let mut i: usize = 0;
        while i < self.brokers.len()
            invariant
                i <= self.brokers@.len(),
                forall|j: int| 0 <= j < i ==> (#[trigger] self@.brokers[j]).id != id,
            decreases self.brokers@.len() - i,
        {
            if self.brokers[i].id == id {
                proof {
                    lemma_broker_index_of_prefix_miss(self@.brokers, id, i as int);
                }
                return Some(i);
            }
            i = i + 1;
        }
        proof {
            lemma_broker_index_of_prefix_miss(self@.brokers, id, self.brokers@.len() as int);
        }
        None
    }

    /// Applies one committed entry payload: decode, mutate, report.
    ///
    /// The whole effect is `spec_step` of the old state and the bytes, so
    /// replaying the same payload stream always rebuilds the same state.
    pub fn apply_bytes(&mut self, payload: &Vec<u8>) -> (r: ApplyOutcome)
        ensures
            final(self)@ == spec_step(old(self)@, payload@),
            r == spec_step_outcome(old(self)@, payload@),
    {
        match parse_command(payload) {
            None => ApplyOutcome::Malformed,
            Some(cmd) => self.apply_command(cmd),
        }
    }

    /// Applies one decoded command; the whole effect is `spec_apply`.
    pub fn apply_command(&mut self, cmd: ControllerCommand) -> (r: ApplyOutcome)
        ensures
            final(self)@ == spec_apply(old(self)@, cmd@).0,
            r == spec_apply(old(self)@, cmd@).1,
    {
        let ghost m0 = self@;
        let ghost cv = cmd@;
        match cmd {
            ControllerCommand::CreateTopic { name, replication, leaders } => {
                match self.find_topic(&name) {
                    Some(_) => ApplyOutcome::AlreadyExists,
                    None => {
                        let ghost lv = leaders@;
                        let mut assignments: Vec<PartitionAssignment> = Vec::new();
                        let mut k: usize = 0;
                        while k < leaders.len()
                            invariant
                                k <= lv.len(),
                                leaders@ == lv,
                                assignments@.len() == k,
                                forall|j: int|
                                    0 <= j < k ==> (#[trigger] assignments@[j])@
                                        == spec_assignments(lv)[j],
                            decreases lv.len() - k,
                        {
                            let leader = leaders[k];
                            let mut replicas: Vec<NodeId> = Vec::new();
                            replicas.push(leader);
                            let mut isr: Vec<NodeId> = Vec::new();
                            isr.push(leader);
                            assignments.push(
                                PartitionAssignment {
                                    partition: #[verifier::truncate] (k as u32),
                                    leader,
                                    replicas,
                                    isr,
                                },
                            );
                            proof {
                                assert(assignments@[k as int]@ =~= spec_assignments(lv)[k as int]);
                            }
                            k = k + 1;
                        }
                        let t = Topic { name, replication, assignments };
                        proof {
                            assert(t@.assignments =~= spec_assignments(lv));
                        }
                        self.topics.push(t);
                        proof {
                            assert(self@ =~= spec_apply(m0, cv).0);
                        }
                        ApplyOutcome::Done
                    },
                }
            },
            ControllerCommand::DeleteTopic { name } => {
                match self.find_topic(&name) {
                    None => ApplyOutcome::UnknownTopic,
                    Some(i) => {
                        self.topics.remove(i);
                        proof {
                            assert(self@.topics =~= m0.topics.remove(i as int));
                            assert(self@ =~= spec_apply(m0, cv).0);
                        }
                        ApplyOutcome::Done
                    },
                }
            },
            ControllerCommand::RegisterBroker { id, host, port } => {
                let b = Broker { id, host, port };
                match self.find_broker(id) {
                    None => {
                        self.brokers.push(b);
                        proof {
                            assert(self@.brokers =~= m0.brokers.push(b@));
                            assert(self@ =~= spec_apply(m0, cv).0);
                        }
                        ApplyOutcome::Done
                    },
                    Some(i) => {
                        self.brokers.set(i, b);
                        proof {
                            assert(self@.brokers =~= m0.brokers.update(i as int, b@));
                            assert(self@ =~= spec_apply(m0, cv).0);
                        }
                        ApplyOutcome::Done
                    },
                }
            },
            ControllerCommand::UpdateIsr { name, partition, isr } => {
                match self.find_topic(&name) {
                    None => ApplyOutcome::UnknownTopic,
                    Some(i) => {
                        let mut t = self.topics.remove(i);
                        if (partition as usize) >= t.assignments.len() {
                            self.topics.insert(i, t);
                            proof {
                                assert(self@.topics =~= m0.topics);
                                assert(self@ =~= spec_apply(m0, cv).0);
                            }
                            ApplyOutcome::UnknownPartition
                        } else {
                            let p = partition as usize;
                            let a = t.assignments.remove(p);
                            let a2 = PartitionAssignment {
                                partition: a.partition,
                                leader: a.leader,
                                replicas: a.replicas,
                                isr,
                            };
                            t.assignments.insert(p, a2);
                            proof {
                                assert(t@.assignments =~= m0.topics[i as int].assignments.update(
                                    p as int,
                                    a2@,
                                ));
                            }
                            self.topics.insert(i, t);
                            proof {
                                assert(self@.topics =~= spec_apply(m0, cv).0.topics);
                                assert(self@ =~= spec_apply(m0, cv).0);
                            }
                            ApplyOutcome::Done
                        }
                    },
                }
            },
            ControllerCommand::ElectPartitionLeader { name, partition, leader } => {
                match self.find_topic(&name) {
                    None => ApplyOutcome::UnknownTopic,
                    Some(i) => {
                        let mut t = self.topics.remove(i);
                        if (partition as usize) >= t.assignments.len() {
                            self.topics.insert(i, t);
                            proof {
                                assert(self@.topics =~= m0.topics);
                                assert(self@ =~= spec_apply(m0, cv).0);
                            }
                            ApplyOutcome::UnknownPartition
                        } else {
                            let p = partition as usize;
                            let a = t.assignments.remove(p);
                            let a2 = PartitionAssignment {
                                partition: a.partition,
                                leader,
                                replicas: a.replicas,
                                isr: a.isr,
                            };
                            t.assignments.insert(p, a2);
                            proof {
                                assert(t@.assignments =~= m0.topics[i as int].assignments.update(
                                    p as int,
                                    a2@,
                                ));
                            }
                            self.topics.insert(i, t);
                            proof {
                                assert(self@.topics =~= spec_apply(m0, cv).0.topics);
                                assert(self@ =~= spec_apply(m0, cv).0);
                            }
                            ApplyOutcome::Done
                        }
                    },
                }
            },
        }
    }
}

} // verus!
