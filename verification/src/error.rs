//! Error taxonomy shared by the log, the Raft engine and the dispatcher.

use vstd::prelude::*;

verus! {

/// Why an operation on the log, the Raft node or the dispatcher failed.
#[derive(Clone, PartialEq, Eq, Structural, Debug)]
pub enum RaftError {
    /// A disk or socket operation failed.
    IoFailed,
    /// CRC mismatch or malformed frame.
    Corrupt,
    /// Offset below log start or above log end.
    OutOfRange,
    /// The operation requires leadership; carries the current leader if known.
    NotLeader { leader_hint: Option<u32> },
    /// Message for a term older than the current one.
    StaleTerm,
    /// Deadline exceeded.
    Timeout,
    /// Protocol violation or unsupported version.
    InvalidRequest,
    /// Appending would exceed the segment's byte bound; the caller rolls.
    SegmentFull,
    /// No record at the requested offset within the segment.
    NotFound,
}

impl RaftError {
    /// A short human-readable name for the error kind.
    pub fn describe(&self) -> (r: &'static str)
        ensures
            r@.len() > 0,
    {
        let s: &'static str = match self {
            RaftError::IoFailed => "io failed",
            RaftError::Corrupt => "corrupt",
            RaftError::OutOfRange => "out of range",
            RaftError::NotLeader { .. } => "not leader",
            RaftError::StaleTerm => "stale term",
            RaftError::Timeout => "timeout",
            RaftError::InvalidRequest => "invalid request",
            RaftError::SegmentFull => "segment full",
            RaftError::NotFound => "not found",
        };
        proof {
            reveal_strlit("io failed");
            reveal_strlit("corrupt");
            reveal_strlit("out of range");
            reveal_strlit("not leader");
            reveal_strlit("stale term");
            reveal_strlit("timeout");
            reveal_strlit("invalid request");
            reveal_strlit("segment full");
            reveal_strlit("not found");
        }
        s
    }
}

} // verus!
