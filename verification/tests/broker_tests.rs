//! Broker-side behavior: the controller FSM, version negotiation, framing,
//! dispatch rules, and the single-node create/produce/fetch path.

use josefine::api_versions::ApiVersionsCommand;
use josefine::api_versions::response_version;
use josefine::controller::{ApplyOutcome, ControllerState};
use josefine::dispatch::{
    dispatch_partition, encode_frame, parse_request_header, route_api, take_frame,
    PartitionDispatch, Route,
};
use josefine::partition::PartitionLog;
use josefine::raft::{Command, Node, Raft, RaftConfig, RaftHandle, RaftLog, State};
use josefine::rpc::NoopRpc;
use josefine::rpc::Rpc;
use josefine::segment::Record;

fn create_topic_payload(name: &[u8], partitions: u32, leaders: &[u32]) -> Vec<u8> {
    let mut p = vec![1u8];
    p.extend_from_slice(&(name.len() as u32).to_be_bytes());
    p.extend_from_slice(name);
    p.extend_from_slice(&partitions.to_be_bytes());
    p.extend_from_slice(&1u32.to_be_bytes());
    for l in leaders {
        p.extend_from_slice(&l.to_be_bytes());
    }
    p
}

fn delete_topic_payload(name: &[u8]) -> Vec<u8> {
    let mut p = vec![2u8];
    p.extend_from_slice(&(name.len() as u32).to_be_bytes());
    p.extend_from_slice(name);
    p
}

fn elect_leader_payload(name: &[u8], partition: u32, leader: u32) -> Vec<u8> {
    let mut p = vec![5u8];
    p.extend_from_slice(&(name.len() as u32).to_be_bytes());
    p.extend_from_slice(name);
    p.extend_from_slice(&partition.to_be_bytes());
    p.extend_from_slice(&leader.to_be_bytes());
    p
}

#[test]
fn controller_create_and_delete_topic() {
    let mut c = ControllerState::new();
    let out = c.apply_bytes(&create_topic_payload(b"t", 2, &[1, 2]));
    assert_eq!(out, ApplyOutcome::Done);
    assert_eq!(c.topics.len(), 1);
    assert_eq!(c.topics[0].name, b"t".to_vec());
    assert_eq!(c.topics[0].assignments.len(), 2);
    assert_eq!(c.topics[0].assignments[0].leader, 1);
    assert_eq!(c.topics[0].assignments[1].leader, 2);

    let again = c.apply_bytes(&create_topic_payload(b"t", 2, &[1, 2]));
    assert_eq!(again, ApplyOutcome::AlreadyExists);
    assert_eq!(c.topics.len(), 1);

    let gone = c.apply_bytes(&delete_topic_payload(b"t"));
    assert_eq!(gone, ApplyOutcome::Done);
    assert_eq!(c.topics.len(), 0);

    let missing = c.apply_bytes(&delete_topic_payload(b"t"));
    assert_eq!(missing, ApplyOutcome::UnknownTopic);
}

#[test]
fn controller_elect_partition_leader() {
    let mut c = ControllerState::new();
    c.apply_bytes(&create_topic_payload(b"t", 1, &[1]));
    let out = c.apply_bytes(&elect_leader_payload(b"t", 0, 3));
    assert_eq!(out, ApplyOutcome::Done);
    assert_eq!(c.topics[0].assignments[0].leader, 3);
    let bad = c.apply_bytes(&elect_leader_payload(b"t", 9, 3));
    assert_eq!(bad, ApplyOutcome::UnknownPartition);
}

fn register_broker_payload(id: u32, host: &[u8], port: u32) -> Vec<u8> {
    let mut p = vec![3u8];
    p.extend_from_slice(&id.to_be_bytes());
    p.extend_from_slice(&(host.len() as u32).to_be_bytes());
    p.extend_from_slice(host);
    p.extend_from_slice(&port.to_be_bytes());
    p
}

fn update_isr_payload(name: &[u8], partition: u32, isr: &[u32]) -> Vec<u8> {
    let mut p = vec![4u8];
    p.extend_from_slice(&(name.len() as u32).to_be_bytes());
    p.extend_from_slice(name);
    p.extend_from_slice(&partition.to_be_bytes());
    p.extend_from_slice(&(isr.len() as u32).to_be_bytes());
    for n in isr {
        p.extend_from_slice(&n.to_be_bytes());
    }
    p
}

#[test]
fn controller_registers_brokers_and_updates_isr() {
    let mut c = ControllerState::new();
    assert_eq!(c.apply_bytes(&register_broker_payload(1, b"hostA", 9092)), ApplyOutcome::Done);
    assert_eq!(c.apply_bytes(&register_broker_payload(2, b"hostB", 9093)), ApplyOutcome::Done);
    // a re-registration overwrites in place
    assert_eq!(c.apply_bytes(&register_broker_payload(1, b"hostC", 9094)), ApplyOutcome::Done);
    assert_eq!(c.brokers.len(), 2);
    assert_eq!(c.brokers[0].host, b"hostC".to_vec());
    assert_eq!(c.brokers[0].port, 9094);

    c.apply_bytes(&create_topic_payload(b"t", 1, &[1]));
    assert_eq!(c.apply_bytes(&update_isr_payload(b"t", 0, &[1, 2])), ApplyOutcome::Done);
    assert_eq!(c.topics[0].assignments[0].isr, vec![1, 2]);
    assert_eq!(c.apply_bytes(&update_isr_payload(b"x", 0, &[1])), ApplyOutcome::UnknownTopic);
}

#[test]
fn encoded_payloads_round_trip_through_the_controller() {
    let mut c = ControllerState::new();
    let create = josefine::controller::encode_create_topic(&b"t".to_vec(), 2, &vec![1, 2]);
    assert_eq!(c.apply_bytes(&create), ApplyOutcome::Done);
    assert_eq!(c.topics.len(), 1);
    assert_eq!(c.topics[0].assignments.len(), 2);
    assert_eq!(c.topics[0].replication, 2);
    let delete = josefine::controller::encode_delete_topic(&b"t".to_vec());
    assert_eq!(c.apply_bytes(&delete), ApplyOutcome::Done);
    assert_eq!(c.topics.len(), 0);
}

#[test]
fn controller_rejects_malformed_payloads() {
    let mut c = ControllerState::new();
    assert_eq!(c.apply_bytes(&vec![9u8, 0, 0, 0, 0]), ApplyOutcome::Malformed);
    assert_eq!(c.apply_bytes(&vec![1u8, 0, 0]), ApplyOutcome::Malformed);
    assert_eq!(c.topics.len(), 0);
}

#[test]
fn replaying_the_same_stream_rebuilds_identical_state() {
    let stream: Vec<Vec<u8>> = vec![
        create_topic_payload(b"a", 1, &[1]),
        create_topic_payload(b"b", 2, &[2, 3]),
        elect_leader_payload(b"a", 0, 2),
        delete_topic_payload(b"b"),
        vec![42u8, 0, 0, 0, 0],
    ];
    let mut c1 = ControllerState::new();
    let mut c2 = ControllerState::new();
    for p in &stream {
        c1.apply_bytes(p);
    }
    for p in &stream {
        c2.apply_bytes(p);
    }
    assert_eq!(c1.topics.len(), c2.topics.len());
    for (t1, t2) in c1.topics.iter().zip(c2.topics.iter()) {
        assert_eq!(t1.name, t2.name);
        assert_eq!(t1.replication, t2.replication);
        assert_eq!(t1.assignments.len(), t2.assignments.len());
        for (a1, a2) in t1.assignments.iter().zip(t2.assignments.iter()) {
            assert_eq!(a1.partition, a2.partition);
            assert_eq!(a1.leader, a2.leader);
            assert_eq!(a1.replicas, a2.replicas);
            assert_eq!(a1.isr, a2.isr);
        }
    }
    assert_eq!(c1.brokers.len(), c2.brokers.len());
}

#[test]
fn api_versions_table_enumerates_supported_ranges() {
    let res = ApiVersionsCommand::execute().unwrap();
    assert_eq!(res.error_code, 0);
    assert_eq!(res.api_keys.len(), 15);
    let lai = res.api_keys.iter().find(|v| v.api_key == 4).unwrap();
    assert_eq!((lai.min_version, lai.max_version), (0, 0));
    let sr = res.api_keys.iter().find(|v| v.api_key == 5).unwrap();
    assert_eq!((sr.min_version, sr.max_version), (0, 0));
    let dg = res.api_keys.iter().find(|v| v.api_key == 42).unwrap();
    assert_eq!((dg.min_version, dg.max_version), (0, 2));
    let produce = res.api_keys.iter().find(|v| v.api_key == 0).unwrap();
    assert_eq!((produce.min_version, produce.max_version), (3, 13));
    let api_versions = res.api_keys.iter().find(|v| v.api_key == 18).unwrap();
    assert_eq!((api_versions.min_version, api_versions.max_version), (0, 4));
    let create = res.api_keys.iter().find(|v| v.api_key == 19).unwrap();
    assert_eq!((create.min_version, create.max_version), (2, 7));
}

#[test]
fn version_downgrade_falls_back_to_baseline() {
    // a client asking version 3 of an API whose max is 2 is answered in 0
    assert_eq!(response_version(3, 0, 2), 0);
    // the client then speaks a supported version
    assert_eq!(response_version(2, 0, 2), 2);
    assert_eq!(response_version(0, 1, 4), 0, "below the minimum is the baseline too");
}

#[test]
fn framing_round_trip() {
    let payload = b"framed request bytes".to_vec();
    let framed = encode_frame(&payload);
    assert_eq!(framed.len(), payload.len() + 4);
    let (frame, used) = take_frame(&framed).unwrap();
    assert_eq!(frame, payload);
    assert_eq!(used, framed.len());
    // an incomplete prefix yields nothing
    let partial = framed[..framed.len() - 1].to_vec();
    assert!(take_frame(&partial).is_none());
}

#[test]
fn request_header_parses_fields_and_null_client_id() {
    let mut frame: Vec<u8> = Vec::new();
    frame.extend_from_slice(&18i16.to_be_bytes());
    frame.extend_from_slice(&3i16.to_be_bytes());
    frame.extend_from_slice(&77i32.to_be_bytes());
    frame.extend_from_slice(&(-1i16).to_be_bytes());
    let h = parse_request_header(&frame).unwrap();
    assert_eq!(h.api_key, 18);
    assert_eq!(h.api_version, 3);
    assert_eq!(h.correlation_id, 77);
    assert!(h.client_id.is_none());

    let mut with_id: Vec<u8> = Vec::new();
    with_id.extend_from_slice(&0i16.to_be_bytes());
    with_id.extend_from_slice(&9i16.to_be_bytes());
    with_id.extend_from_slice(&5i32.to_be_bytes());
    with_id.extend_from_slice(&4i16.to_be_bytes());
    with_id.extend_from_slice(b"cli1");
    let h2 = parse_request_header(&with_id).unwrap();
    assert_eq!(h2.client_id, Some(b"cli1".to_vec()));
}

#[test]
fn dispatch_routes_by_api_key() {
    assert_eq!(route_api(3), Route::Snapshot);
    assert_eq!(route_api(18), Route::Snapshot);
    assert_eq!(route_api(19), Route::Proposal);
    assert_eq!(route_api(20), Route::Proposal);
    assert_eq!(route_api(0), Route::Log);
    assert_eq!(route_api(1), Route::Log);
    assert_eq!(route_api(99), Route::Unsupported);
}

#[test]
fn produce_to_a_follower_reroutes_with_the_leader_hint() {
    let mut c = ControllerState::new();
    c.apply_bytes(&create_topic_payload(b"t", 1, &[2]));
    let d = dispatch_partition(&c, &b"t".to_vec(), 0, 1);
    assert_eq!(d, PartitionDispatch::NotLeader { leader_hint: Some(2) });
    let local = dispatch_partition(&c, &b"t".to_vec(), 0, 2);
    assert_eq!(local, PartitionDispatch::Local);
    let unknown = dispatch_partition(&c, &b"nope".to_vec(), 0, 1);
    assert_eq!(unknown, PartitionDispatch::Unknown);
}

#[test]
fn single_node_create_produce_fetch() {
    // a single-node cluster elects itself
    let node: Raft<josefine::follower::Follower> = Raft {
        id: 1,
        state: State::new(),
        nodes: vec![Node { id: 1, addr: "127.0.0.1:8844".to_string() }],
        role: josefine::follower::Follower { leader_id: None, election_deadline: 1 },
        config: RaftConfig {
            id: 1,
            protocol_version: 0,
            heartbeat_timeout: 5,
            election_timeout_min: 10,
            election_timeout_max: 20,
        },
        log: RaftLog::new(),
        clock: 0,
        outbox: Vec::new(),
        fsm: ControllerState::new(),
        applied: Vec::new(),
    };
    let c = match node.apply(Command::Tick).unwrap() {
        RaftHandle::Candidate(c) => c,
        _ => panic!("a lone node stands for election at once"),
    };
    let term = c.state.current_term;
    let leader = match c.apply(Command::VoteResponse { term, voter_id: 1, granted: true }).unwrap()
    {
        RaftHandle::Leader(l) => l,
        _ => panic!("its own ballot is the whole quorum"),
    };
    // CreateTopics goes through the consensus log
    let leader = match leader
        .apply(Command::Propose { payload: create_topic_payload(b"t", 1, &[1]) })
        .unwrap()
    {
        RaftHandle::Leader(l) => l,
        _ => panic!("expected leader"),
    };
    let leader = match leader
        .apply(Command::AppendResponse { node_id: 1, term, index: 1, success: true })
        .unwrap()
    {
        RaftHandle::Leader(l) => l,
        _ => panic!("expected leader"),
    };
    assert_eq!(leader.state.commit_index, 1);
    assert_eq!(leader.fsm.topics.len(), 1);
    assert_eq!(dispatch_partition(&leader.fsm, &b"t".to_vec(), 0, 1), PartitionDispatch::Local);

    // produce two records, fetch them back in order
    let mut log = PartitionLog::new(1 << 30, 4096);
    let o1 = log
        .append(Record { timestamp: 0, key: b"k1".to_vec(), value: b"v1".to_vec() })
        .unwrap();
    let o2 = log
        .append(Record { timestamp: 0, key: b"k2".to_vec(), value: b"v2".to_vec() })
        .unwrap();
    assert_eq!((o1, o2), (0, 1));
    let fetched = log.read(0, 1048576).unwrap();
    assert_eq!(fetched.len(), 2);
    assert_eq!(fetched[0].key, b"k1".to_vec());
    assert_eq!(fetched[0].value, b"v1".to_vec());
    assert_eq!(fetched[1].key, b"k2".to_vec());
    assert_eq!(fetched[1].value, b"v2".to_vec());
}

#[test]
fn noop_rpc_swallows_traffic() {
    let rpc = NoopRpc::new();
    let state = State::new();
    assert!(rpc.heartbeat(2, 1, 0, &Vec::<josefine::raft::Entry>::new()).is_ok());
    rpc.respond_vote(&state, 1, true);
    rpc.request_vote(&state, 2);
    rpc.ping(2);
    assert_eq!(rpc.get_header().version, 0);
    assert!(rpc.add_self_to_cluster("127.0.0.1:9000").is_ok());
}
