//! Raft role behavior: elections, replication acceptance and rejection,
//! divergence repair, commit safety, and monotonic state.

use josefine::controller::ControllerState;
use josefine::error::RaftError;
use josefine::follower::Follower;
use josefine::raft::{
    Command, Entry, Node, NodeId, Raft, RaftConfig, RaftHandle, RaftLog, State,
};
use josefine::rpc::RpcMessage;

fn config(id: NodeId) -> RaftConfig {
    RaftConfig {
        id,
        protocol_version: 0,
        heartbeat_timeout: 5,
        election_timeout_min: 10,
        election_timeout_max: 20,
    }
}

fn nodes(ids: &[NodeId]) -> Vec<Node> {
    ids.iter().map(|&id| Node { id, addr: format!("node-{}", id) }).collect()
}

fn follower(id: NodeId, peer_ids: &[NodeId]) -> Raft<Follower> {
    Raft {
        id,
        state: State::new(),
        nodes: nodes(peer_ids),
        role: Follower { leader_id: None, election_deadline: 3 },
        config: config(id),
        log: RaftLog::new(),
        clock: 0,
        outbox: Vec::new(),
        fsm: ControllerState::new(),
        applied: Vec::new(),
    }
}

fn entry(index: u64, term: u64, payload: &[u8]) -> Entry {
    Entry { index, term, payload: payload.to_vec() }
}

/// A valid CreateTopic payload for a one-partition topic led by `leader`.
fn create_topic_payload(name: &[u8], leader: u32) -> Vec<u8> {
    let mut p = vec![1u8];
    p.extend_from_slice(&(name.len() as u32).to_be_bytes());
    p.extend_from_slice(name);
    p.extend_from_slice(&1u32.to_be_bytes());
    p.extend_from_slice(&1u32.to_be_bytes());
    p.extend_from_slice(&leader.to_be_bytes());
    p
}

#[test]
fn follower_becomes_candidate_after_election_timeout() {
    let node = follower(2, &[1, 2, 3]);
    let mut handle = RaftHandle::Follower(node);
    for _ in 0..3 {
        handle = match handle {
            RaftHandle::Follower(f) => f.apply(Command::Tick).unwrap(),
            RaftHandle::Candidate(c) => c.apply(Command::Tick).unwrap(),
            RaftHandle::Leader(l) => l.apply(Command::Tick).unwrap(),
        };
    }
    match handle {
        RaftHandle::Candidate(c) => {
            assert_eq!(c.state.current_term, 1);
            assert_eq!(c.state.voted_for, Some(2));
            let votes: Vec<_> = c
                .outbox
                .iter()
                .filter(|e| matches!(e.msg, RpcMessage::Vote { .. }))
                .collect();
            assert_eq!(votes.len(), 2, "one vote request per other node");
        },
        _ => panic!("expected a candidate after the deadline"),
    }
}

#[test]
fn candidate_with_quorum_of_ballots_becomes_leader() {
    let node = follower(2, &[1, 2, 3]);
    let c = match node.apply(Command::Tick).unwrap() {
        RaftHandle::Follower(f) => match f.apply(Command::Tick).unwrap() {
            RaftHandle::Follower(f2) => match f2.apply(Command::Tick).unwrap() {
                RaftHandle::Candidate(c) => c,
                _ => panic!("expected candidate"),
            },
            RaftHandle::Candidate(c) => c,
            _ => panic!("unexpected"),
        },
        RaftHandle::Candidate(c) => c,
        _ => panic!("unexpected"),
    };
    let term = c.state.current_term;
    match c.apply(Command::VoteResponse { term, voter_id: 3, granted: true }).unwrap() {
        RaftHandle::Leader(l) => {
            assert_eq!(l.state.current_term, term);
        },
        _ => panic!("two of three votes should elect"),
    }
}

#[test]
fn three_node_election_and_old_leader_steps_down() {
    // node 2 wins term 1 while node 1 is partitioned away
    let node = follower(2, &[1, 2, 3]);
    let mut h = RaftHandle::Follower(node);
    for _ in 0..3 {
        h = match h {
            RaftHandle::Follower(f) => f.apply(Command::Tick).unwrap(),
            RaftHandle::Candidate(c) => c.apply(Command::Tick).unwrap(),
            RaftHandle::Leader(l) => l.apply(Command::Tick).unwrap(),
        };
    }
    let c = match h {
        RaftHandle::Candidate(c) => c,
        _ => panic!("expected candidate"),
    };
    let term = c.state.current_term;
    assert!(term >= 1);
    let leader = match c.apply(Command::VoteResponse { term, voter_id: 3, granted: true }).unwrap()
    {
        RaftHandle::Leader(l) => l,
        _ => panic!("expected leader"),
    };
    // the new leader commits a topic once a quorum acknowledges
    let leader = match leader
        .apply(Command::Propose { payload: create_topic_payload(b"u", 2) })
        .unwrap()
    {
        RaftHandle::Leader(l) => l,
        _ => panic!("leader accepts proposals"),
    };
    let leader = match leader
        .apply(Command::AppendResponse { node_id: 3, term, index: 1, success: true })
        .unwrap()
    {
        RaftHandle::Leader(l) => l,
        _ => panic!("ack keeps leadership"),
    };
    assert_eq!(leader.state.commit_index, 1);
    assert_eq!(leader.fsm.topics.len(), 1);
    assert_eq!(leader.fsm.topics[0].name, b"u".to_vec());
    // the outcome journal carries the committed proposal's result
    assert_eq!(leader.applied.len(), 1);
    assert_eq!(leader.applied[0], (1, josefine::controller::ApplyOutcome::Done));

    // a stale leader of term 0 observes the higher term and steps down
    let stale = josefine::leader::Leader {
        progress: josefine::progress::ReplicationProgress { peers: Vec::new() },
        heartbeat_time: 0,
        heartbeat_timeout: 5,
    };
    let old_leader: Raft<josefine::leader::Leader> = Raft {
        id: 1,
        state: State::new(),
        nodes: nodes(&[1, 2, 3]),
        role: stale,
        config: config(1),
        log: RaftLog::new(),
        clock: 0,
        outbox: Vec::new(),
        fsm: ControllerState::new(),
        applied: Vec::new(),
    };
    match old_leader
        .apply(Command::AppendEntries {
            term,
            leader_id: 2,
            prev_log_index: 0,
            prev_log_term: 0,
            entries: vec![],
            leader_commit: 0,
        })
        .unwrap()
    {
        RaftHandle::Follower(f) => assert_eq!(f.state.current_term, term),
        _ => panic!("higher term must depose the old leader"),
    }
}

#[test]
fn follower_rejects_append_past_its_log_end() {
    let node = follower(3, &[1, 2, 3]);
    match node
        .apply(Command::AppendEntries {
            term: 1,
            leader_id: 1,
            prev_log_index: 7,
            prev_log_term: 1,
            entries: vec![entry(8, 1, b"x")],
            leader_commit: 0,
        })
        .unwrap()
    {
        RaftHandle::Follower(f) => {
            assert_eq!(f.log.entries.len(), 0, "log unchanged");
            let last = f.outbox.last().expect("a response is queued");
            match &last.msg {
                RpcMessage::AppendAck { success, index, .. } => {
                    assert!(!success);
                    assert_eq!(*index, 0);
                },
                other => panic!("expected an ack, got {:?}", other),
            }
        },
        _ => panic!("a follower stays a follower on replication"),
    }
}

#[test]
fn follower_accepts_valid_append_and_applies_commits() {
    let node = follower(3, &[1, 2, 3]);
    let payload = create_topic_payload(b"t", 1);
    match node
        .apply(Command::AppendEntries {
            term: 1,
            leader_id: 1,
            prev_log_index: 0,
            prev_log_term: 0,
            entries: vec![Entry { index: 1, term: 1, payload: payload.clone() }],
            leader_commit: 1,
        })
        .unwrap()
    {
        RaftHandle::Follower(f) => {
            assert_eq!(f.log.entries.len(), 1);
            assert_eq!(f.state.commit_index, 1);
            assert_eq!(f.state.last_applied, 1);
            assert_eq!(f.fsm.topics.len(), 1, "the committed entry reached the fsm");
            assert_eq!(f.role.leader_id, Some(1));
        },
        _ => panic!("expected follower"),
    }
}

#[test]
fn log_divergence_repair_truncates_and_appends() {
    let mut node = follower(3, &[1, 2, 3]);
    node.state.current_term = 2;
    node.log.entries = vec![
        entry(1, 1, b"a"),
        entry(2, 1, b"b"),
        entry(3, 1, b"c"),
        entry(4, 2, b"d"),
        entry(5, 2, b"stale-5"),
        entry(6, 2, b"stale-6"),
    ];
    match node
        .apply(Command::AppendEntries {
            term: 3,
            leader_id: 1,
            prev_log_index: 4,
            prev_log_term: 2,
            entries: vec![entry(5, 3, b"fresh-5"), entry(6, 3, b"fresh-6")],
            leader_commit: 6,
        })
        .unwrap()
    {
        RaftHandle::Follower(f) => {
            assert_eq!(f.log.entries.len(), 6);
            assert_eq!(f.log.entries[4].term, 3);
            assert_eq!(f.log.entries[4].payload, b"fresh-5".to_vec());
            assert_eq!(f.log.entries[5].term, 3);
            assert_eq!(f.log.entries[5].payload, b"fresh-6".to_vec());
            assert_eq!(f.state.commit_index, 6);
        },
        _ => panic!("expected follower"),
    }
}

#[test]
fn vote_is_stable_within_a_term() {
    let node = follower(3, &[1, 2, 3]);
    let f = match node
        .apply(Command::VoteRequest { term: 1, candidate_id: 1, last_log_index: 0, last_log_term: 0 })
        .unwrap()
    {
        RaftHandle::Follower(f) => f,
        _ => panic!("expected follower"),
    };
    assert_eq!(f.state.voted_for, Some(1));
    let f2 = match f
        .apply(Command::VoteRequest { term: 1, candidate_id: 2, last_log_index: 5, last_log_term: 1 })
        .unwrap()
    {
        RaftHandle::Follower(f2) => f2,
        _ => panic!("expected follower"),
    };
    assert_eq!(f2.state.voted_for, Some(1), "the term-1 vote does not move");
    match f2.outbox.last().map(|e| &e.msg) {
        Some(RpcMessage::Ballot { granted, .. }) => assert!(!granted),
        other => panic!("expected a ballot, got {:?}", other),
    }
}

#[test]
fn commit_requires_a_quorum() {
    // five nodes: one ack (plus the leader) is not a majority
    let peers: Vec<u32> = vec![1, 3, 4, 5];
    let progress = josefine::progress::ReplicationProgress::new(&peers, 2);
    let leader_role = josefine::leader::Leader {
        progress,
        heartbeat_time: 0,
        heartbeat_timeout: 5,
    };
    let mut node: Raft<josefine::leader::Leader> = Raft {
        id: 2,
        state: State::new(),
        nodes: nodes(&[1, 2, 3, 4, 5]),
        role: leader_role,
        config: config(2),
        log: RaftLog::new(),
        clock: 0,
        outbox: Vec::new(),
        fsm: ControllerState::new(),
        applied: Vec::new(),
    };
    node.state.current_term = 1;
    node.log.entries = vec![entry(1, 1, b"p")];
    let l = match node
        .apply(Command::AppendResponse { node_id: 3, term: 1, index: 1, success: true })
        .unwrap()
    {
        RaftHandle::Leader(l) => l,
        _ => panic!("expected leader"),
    };
    assert_eq!(l.state.commit_index, 0, "two of five is no quorum");
    let l2 = match l
        .apply(Command::AppendResponse { node_id: 4, term: 1, index: 1, success: true })
        .unwrap()
    {
        RaftHandle::Leader(l2) => l2,
        _ => panic!("expected leader"),
    };
    assert_eq!(l2.state.commit_index, 1, "three of five commits");
}

#[test]
fn failed_ack_steps_next_index_back_to_probe() {
    let peers: Vec<u32> = vec![1, 3];
    let mut progress = josefine::progress::ReplicationProgress::new(&peers, 5);
    progress.record_success(3, 7);
    match progress.get(3).unwrap() {
        josefine::progress::ProgressHandle::Replicate(p) => {
            assert_eq!(p.index, 7);
            assert_eq!(p.next, 8);
        },
        other => panic!("expected replicate mode, got {:?}", other),
    }
    progress.record_failure(3);
    match progress.get(3).unwrap() {
        josefine::progress::ProgressHandle::Probe(p) => {
            assert_eq!(p.index, 7);
            assert_eq!(p.next, 8, "the cursor never falls behind the match point");
        },
        other => panic!("expected probe mode, got {:?}", other),
    }
}

#[test]
fn proposing_to_a_follower_is_refused_with_a_hint() {
    let mut node = follower(3, &[1, 2, 3]);
    node.role.leader_id = Some(1);
    let e = node.apply(Command::Propose { payload: b"x".to_vec() }).unwrap_err();
    assert_eq!(e, RaftError::NotLeader { leader_hint: Some(1) });
    assert_eq!(e.describe(), "not leader");
}

#[test]
fn terms_never_decrease_across_steps() {
    let node = follower(3, &[1, 2, 3]);
    let mut term_seen = node.state.current_term;
    let mut h = RaftHandle::Follower(node);
    let cmds = || -> Vec<Command> {
        vec![
            Command::Tick,
            Command::VoteRequest { term: 4, candidate_id: 1, last_log_index: 0, last_log_term: 0 },
            Command::AppendEntries {
                term: 2,
                leader_id: 1,
                prev_log_index: 0,
                prev_log_term: 0,
                entries: vec![],
                leader_commit: 0,
            },
            Command::Tick,
        ]
    };
    for cmd in cmds() {
        let next = match h {
            RaftHandle::Follower(f) => f.apply(cmd),
            RaftHandle::Candidate(c) => c.apply(cmd),
            RaftHandle::Leader(l) => l.apply(cmd),
        };
        h = match next {
            Ok(nh) => nh,
            Err(_) => break,
        };
        let t = match &h {
            RaftHandle::Follower(f) => f.state.current_term,
            RaftHandle::Candidate(c) => c.state.current_term,
            RaftHandle::Leader(l) => l.state.current_term,
        };
        assert!(t >= term_seen, "current_term is monotone");
        term_seen = t;
    }
    assert!(term_seen >= 4);
}
