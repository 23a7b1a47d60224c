//! Core of a distributed, append-only commit-log service: a Raft-based
//! replication engine, a segmented partition log, and the broker's framed
//! request dispatch, with their invariants stated and checked.

pub mod error;
pub mod raft;
pub mod progress;
pub mod rpc;
pub mod codec;
pub mod controller;
pub mod follower;
pub mod candidate;
pub mod leader;
pub mod segment;
pub mod partition;
pub mod api_versions;
pub mod dispatch;
pub mod reader;

use vstd::prelude::*;

verus! {

} // verus!
