//! The ApiVersions command: enumerates, for every API this broker speaks,
//! the version range it implements, and picks the version a reply is
//! encoded in.

use vstd::prelude::*;
use kafka_protocol::messages as km;
use kafka_protocol::protocol::Message;
use crate::error::RaftError;

verus! {

/// The version range of one API, as the response enumerates it.
#[derive(Clone, Copy, PartialEq, Eq, Structural, Debug)]
pub struct ApiVersion {
    pub api_key: i16,
    pub min_version: i16,
    pub max_version: i16,
}

/// The response to an ApiVersionsRequest.
#[derive(Debug)]
pub struct ApiVersionsResponse {
    pub error_code: i16,
    pub api_keys: Vec<ApiVersion>,
}

/// Relies on kafka_protocol's ApiKey::Produce and ProduceRequest::VERSIONS.
#[verifier::external_body]
fn produce_entry() -> (r: (i16, i16, i16))
    ensures
        r == (0i16, 3i16, 13i16),
{
    (km::ApiKey::Produce as i16, km::ProduceRequest::VERSIONS.min, km::ProduceRequest::VERSIONS.max)
}

/// Relies on kafka_protocol's ApiKey::Fetch and FetchRequest::VERSIONS.
#[verifier::external_body]
fn fetch_entry() -> (r: (i16, i16, i16))
    ensures
        r == (1i16, 4i16, 18i16),
{
    (km::ApiKey::Fetch as i16, km::FetchRequest::VERSIONS.min, km::FetchRequest::VERSIONS.max)
}

/// Relies on kafka_protocol's ApiKey::ListOffsets and ListOffsetsRequest::VERSIONS.
#[verifier::external_body]
fn list_offsets_entry() -> (r: (i16, i16, i16))
    ensures
        r == (2i16, 1i16, 10i16),
{
    (
        km::ApiKey::ListOffsets as i16,
        km::ListOffsetsRequest::VERSIONS.min,
        km::ListOffsetsRequest::VERSIONS.max,
    )
}

/// Relies on kafka_protocol's ApiKey::Metadata and MetadataRequest::VERSIONS.
#[verifier::external_body]
fn metadata_entry() -> (r: (i16, i16, i16))
    ensures
        r == (3i16, 0i16, 13i16),
{
    (
        km::ApiKey::Metadata as i16,
        km::MetadataRequest::VERSIONS.min,
        km::MetadataRequest::VERSIONS.max,
    )
}

/// Relies on kafka_protocol's ApiKey::FindCoordinator and FindCoordinatorRequest::VERSIONS.
#[verifier::external_body]
fn find_coordinator_entry() -> (r: (i16, i16, i16))
    ensures
        r == (10i16, 0i16, 6i16),
{
    (
        km::ApiKey::FindCoordinator as i16,
        km::FindCoordinatorRequest::VERSIONS.min,
        km::FindCoordinatorRequest::VERSIONS.max,
    )
}

/// Relies on kafka_protocol's ApiKey::JoinGroup and JoinGroupRequest::VERSIONS.
#[verifier::external_body]
fn join_group_entry() -> (r: (i16, i16, i16))
    ensures
        r == (11i16, 0i16, 9i16),
{
    (
        km::ApiKey::JoinGroup as i16,
        km::JoinGroupRequest::VERSIONS.min,
        km::JoinGroupRequest::VERSIONS.max,
    )
}

/// Relies on kafka_protocol's ApiKey::Heartbeat and HeartbeatRequest::VERSIONS.
#[verifier::external_body]
fn heartbeat_entry() -> (r: (i16, i16, i16))
    ensures
        r == (12i16, 0i16, 4i16),
{
    (
        km::ApiKey::Heartbeat as i16,
        km::HeartbeatRequest::VERSIONS.min,
        km::HeartbeatRequest::VERSIONS.max,
    )
}

/// Relies on kafka_protocol's ApiKey::ListGroups and ListGroupsRequest::VERSIONS.
#[verifier::external_body]
fn list_groups_entry() -> (r: (i16, i16, i16))
    ensures
        r == (16i16, 0i16, 5i16),
{
    (
        km::ApiKey::ListGroups as i16,
        km::ListGroupsRequest::VERSIONS.min,
        km::ListGroupsRequest::VERSIONS.max,
    )
}

/// Relies on kafka_protocol's ApiKey::SyncGroup and SyncGroupRequest::VERSIONS.
#[verifier::external_body]
fn sync_group_entry() -> (r: (i16, i16, i16))
    ensures
        r == (14i16, 0i16, 5i16),
{
    (
        km::ApiKey::SyncGroup as i16,
        km::SyncGroupRequest::VERSIONS.min,
        km::SyncGroupRequest::VERSIONS.max,
    )
}

/// Relies on kafka_protocol's ApiKey::CreateTopics and CreateTopicsRequest::VERSIONS.
#[verifier::external_body]
fn create_topics_entry() -> (r: (i16, i16, i16))
    ensures
        r == (19i16, 2i16, 7i16),
{
    (
        km::ApiKey::CreateTopics as i16,
        km::CreateTopicsRequest::VERSIONS.min,
        km::CreateTopicsRequest::VERSIONS.max,
    )
}

/// Relies on kafka_protocol's ApiKey::DeleteGroups and DeleteGroupsRequest::VERSIONS.
#[verifier::external_body]
fn delete_groups_entry() -> (r: (i16, i16, i16))
    ensures
        r == (42i16, 0i16, 2i16),
{
    (
        km::ApiKey::DeleteGroups as i16,
        km::DeleteGroupsRequest::VERSIONS.min,
        km::DeleteGroupsRequest::VERSIONS.max,
    )
}

/// The deprecated inter-broker APIs LeaderAndIsr (key 4) and StopReplica
/// (key 5) belong to the broker's minimum supported set, but the protocol
/// crate of this build no longer models their messages, so no range can be
/// read from it. This broker speaks their baseline version only, and says
/// so here as its own fixed fact.
pub const LEADER_AND_ISR_API_KEY: i16 = 4;

pub const STOP_REPLICA_API_KEY: i16 = 5;

pub const INTER_BROKER_BASELINE_VERSION: i16 = 0;

/// Relies on kafka_protocol's ApiKey::ApiVersions and ApiVersionsRequest::VERSIONS.
#[verifier::external_body]
fn api_versions_entry() -> (r: (i16, i16, i16))
    ensures
        r == (18i16, 0i16, 4i16),
{
    (
        km::ApiKey::ApiVersions as i16,
        km::ApiVersionsRequest::VERSIONS.min,
        km::ApiVersionsRequest::VERSIONS.max,
    )
}

/// Relies on kafka_protocol's ApiKey::DeleteTopics and DeleteTopicsRequest::VERSIONS.
#[verifier::external_body]
fn delete_topics_entry() -> (r: (i16, i16, i16))
    ensures
        r == (20i16, 1i16, 6i16),
{
    (
        km::ApiKey::DeleteTopics as i16,
        km::DeleteTopicsRequest::VERSIONS.min,
        km::DeleteTopicsRequest::VERSIONS.max,
    )
}

/// The full table this broker advertises, in the order the dispatcher
/// enumerates it.
pub open spec fn spec_supported_versions() -> Seq<ApiVersion> {
    seq![
        ApiVersion { api_key: 0, min_version: 3, max_version: 13 },
        ApiVersion { api_key: 1, min_version: 4, max_version: 18 },
        ApiVersion { api_key: 2, min_version: 1, max_version: 10 },
        ApiVersion { api_key: 3, min_version: 0, max_version: 13 },
        ApiVersion { api_key: 4, min_version: 0, max_version: 0 },
        ApiVersion { api_key: 5, min_version: 0, max_version: 0 },
        ApiVersion { api_key: 10, min_version: 0, max_version: 6 },
        ApiVersion { api_key: 11, min_version: 0, max_version: 9 },
        ApiVersion { api_key: 12, min_version: 0, max_version: 4 },
        ApiVersion { api_key: 16, min_version: 0, max_version: 5 },
        ApiVersion { api_key: 14, min_version: 0, max_version: 5 },
        ApiVersion { api_key: 19, min_version: 2, max_version: 7 },
        ApiVersion { api_key: 42, min_version: 0, max_version: 2 },
        ApiVersion { api_key: 18, min_version: 0, max_version: 4 },
        ApiVersion { api_key: 20, min_version: 1, max_version: 6 },
    ]
}

/// Serves ApiVersionsRequest: enumerate every supported API key with the
/// version range this broker implements.
pub struct ApiVersionsCommand;

impl ApiVersionsCommand {
    /// Builds the response: no error, and exactly the advertised table.
    pub fn execute() -> (r: Result<ApiVersionsResponse, RaftError>)
        ensures
            r matches Ok(res) ==> res.error_code == 0 && res.api_keys@
                == spec_supported_versions(),
            r is Ok,
    {
        let mut api_keys: Vec<ApiVersion> = Vec::new();
        let e = produce_entry();
        api_keys.push(ApiVersion { api_key: e.0, min_version: e.1, max_version: e.2 });
        let e = fetch_entry();
        api_keys.push(ApiVersion { api_key: e.0, min_version: e.1, max_version: e.2 });
        let e = list_offsets_entry();
        api_keys.push(ApiVersion { api_key: e.0, min_version: e.1, max_version: e.2 });
        let e = metadata_entry();
        api_keys.push(ApiVersion { api_key: e.0, min_version: e.1, max_version: e.2 });
        api_keys.push(
            ApiVersion {
                api_key: LEADER_AND_ISR_API_KEY,
                min_version: INTER_BROKER_BASELINE_VERSION,
                max_version: INTER_BROKER_BASELINE_VERSION,
            },
        );
        api_keys.push(
            ApiVersion {
                api_key: STOP_REPLICA_API_KEY,
                min_version: INTER_BROKER_BASELINE_VERSION,
                max_version: INTER_BROKER_BASELINE_VERSION,
            },
        );
        let e = find_coordinator_entry();
        api_keys.push(ApiVersion { api_key: e.0, min_version: e.1, max_version: e.2 });
        let e = join_group_entry();
        api_keys.push(ApiVersion { api_key: e.0, min_version: e.1, max_version: e.2 });
        let e = heartbeat_entry();
        api_keys.push(ApiVersion { api_key: e.0, min_version: e.1, max_version: e.2 });
        let e = list_groups_entry();
        api_keys.push(ApiVersion { api_key: e.0, min_version: e.1, max_version: e.2 });
        let e = sync_group_entry();
        api_keys.push(ApiVersion { api_key: e.0, min_version: e.1, max_version: e.2 });
        let e = create_topics_entry();
        api_keys.push(ApiVersion { api_key: e.0, min_version: e.1, max_version: e.2 });
        let e = delete_groups_entry();
        api_keys.push(ApiVersion { api_key: e.0, min_version: e.1, max_version: e.2 });
        let e = api_versions_entry();
        api_keys.push(ApiVersion { api_key: e.0, min_version: e.1, max_version: e.2 });
        let e = delete_topics_entry();
        api_keys.push(ApiVersion { api_key: e.0, min_version: e.1, max_version: e.2 });
        proof {
            assert(api_keys@ =~= spec_supported_versions());
        }
        Ok(ApiVersionsResponse { error_code: 0, api_keys })
    }
}

/// The version a reply is encoded in: the client's own when this broker
/// supports it, else version 0, the baseline every client can read.
pub fn response_version(client_version: i16, min_version: i16, max_version: i16) -> (r: i16)
    ensures
        r == (if min_version <= client_version && client_version <= max_version {
            client_version
        } else {
            0i16
        }),
{
    if min_version <= client_version && client_version <= max_version {
        client_version
    } else {
        0
    }
}

} // verus!
