//! A cursor over a partition's segments, for sequential consumption.

use vstd::prelude::*;
use crate::segment::Segment;

verus! {

/// A reader's position in a partition: the segment it currently reads,
/// the sealed segments behind it, and its place.
#[derive(Debug)]
pub struct Reader {
    pub segment: Box<Segment>,
    pub segments: Vec<Segment>,
    pub index: usize,
    pub offset: u64,
}

impl Reader {
    /// A reader at `offset` inside `segment`.
    pub fn new(segment: Box<Segment>, segments: Vec<Segment>, offset: u64) -> (r: Reader)
        ensures
            r.offset == offset,
            r.index == 0,
    {
        Reader { segment, segments, index: 0, offset }
    }
}

} // verus!
