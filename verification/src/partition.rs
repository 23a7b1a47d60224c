//! The partition log: contiguous segments with one active tail, offering
//! append, random reads by offset, and truncation.

use vstd::prelude::*;
use crate::error::RaftError;
use crate::segment::{models_of_records, spec_record_size, spec_records_size, Record, RecordModel, Segment};

verus! {

/// One topic-partition's log: a run of offset-contiguous segments, the
/// last of which is the active one appends go to.
#[derive(Debug)]
pub struct PartitionLog {
    pub segments: Vec<Segment>,
    pub segment_max_bytes: u64,
    pub index_interval_bytes: u64,
}

impl PartitionLog {
    /// At least one segment; each well-formed and bounded; each following
    /// segment starts exactly where the previous one ends.
    pub open spec fn wf(self) -> bool {
        &&& self.segments@.len() >= 1
        &&& forall|i: int| 0 <= i < self.segments@.len() ==> (#[trigger] self.segments@[i]).wf()
        &&& forall|i: int|
            0 <= i < self.segments@.len() ==> (#[trigger] self.segments@[i]).max_bytes
                == self.segment_max_bytes
        &&& forall|i: int|
            0 <= i < self.segments@.len() ==> (#[trigger] self.segments@[i]).base_offset
                + self.segments@[i].records@.len() <= u64::MAX - 2
        &&& forall|i: int|
            0 <= i < self.segments@.len() ==> (#[trigger] self.segments@[i]).records@.len()
                < u32::MAX - 2
        &&& forall|i: int|
            1 <= i < self.segments@.len() ==> (#[trigger] self.segments@[i]).base_offset
                == self.segments@[i - 1].base_offset + self.segments@[i - 1].records@.len()
    }

    /// The first offset held (or the next to be assigned, when empty).
    pub open spec fn spec_log_start(self) -> u64 {
        self.segments@[0].base_offset
    }

    /// The offset the next appended record gets.
    pub open spec fn spec_log_end(self) -> u64 {
        (self.segments@.last().base_offset + self.segments@.last().records@.len()) as u64
    }

    /// The record at `offset`, as the segments hold it.
    pub open spec fn read_model(self, offset: u64) -> Option<RecordModel> {
        if exists|i: int|
            0 <= i < self.segments@.len() && (#[trigger] self.segments@[i]).base_offset <= offset
                && offset - self.segments@[i].base_offset < self.segments@[i].records@.len() {
            let i = choose|i: int|
                0 <= i < self.segments@.len() && (#[trigger] self.segments@[i]).base_offset
                    <= offset && offset - self.segments@[i].base_offset
                    < self.segments@[i].records@.len();
            Some(self.segments@[i].records@[offset - self.segments@[i].base_offset]@)
        } else {
            None
        }
    }

    /// An empty log starting at offset 0.
    pub fn new(segment_max_bytes: u64, index_interval_bytes: u64) -> (r: PartitionLog)
        ensures
            r.wf(),
            r.spec_log_start() == 0,
            r.spec_log_end() == 0,
            r.segment_max_bytes == segment_max_bytes,
    {
        let mut segments: Vec<Segment> = Vec::new();
        segments.push(Segment::open(0, segment_max_bytes, index_interval_bytes));
        PartitionLog { segments, segment_max_bytes, index_interval_bytes }
    }

    pub fn log_start_offset(&self) -> (r: u64)
        requires
            self.wf(),
        ensures
            r == self.spec_log_start(),
    {
        self.segments[0].base_offset
    }

    pub fn log_end_offset(&self) -> (r: u64)
        requires
            self.wf(),
        ensures
            r == self.spec_log_end(),
    {
        let last = &self.segments[self.segments.len() - 1];
        last.base_offset + last.count()
    }

    /// Appends one record at the next offset, sealing the active segment
    /// and rolling a new one when it is full. `SegmentFull` only for a
    /// record no segment could hold.
    pub fn append(&mut self, record: Record) -> (r: Result<u64, RaftError>)
        requires
            old(self).wf(),
            record.key@.len() + record.value@.len() + 24 <= u32::MAX,
        ensures
            final(self).wf(),
            final(self).spec_log_start() == old(self).spec_log_start(),
            final(self).segment_max_bytes == old(self).segment_max_bytes,
            r matches Ok(off) ==> (off == old(self).spec_log_end() && final(self).spec_log_end()
                == old(self).spec_log_end() + 1 && final(self).read_model(off) == Some(record@)),
            r matches Err(e) ==> (e == RaftError::SegmentFull && (spec_record_size(record@)
                > old(self).segment_max_bytes || old(self).spec_log_end() > u64::MAX - 3)
                && final(self).spec_log_end() == old(self).spec_log_end()),
    {
        let n = self.segments.len();
        let end = self.log_end_offset();
        let last_idx = n - 1;
        let rsize: u64 = 24 + (record.key.len() as u64) + (record.value.len() as u64);
        if rsize > self.segment_max_bytes {
            return Err(RaftError::SegmentFull);
        }
        if end > u64::MAX - 3 {
            return Err(RaftError::SegmentFull);
        }
        let count_full = self.segments[last_idx].count() >= (u32::MAX as u64) - 3;
        let fits = !count_full && rsize <= self.segment_max_bytes - self.segments[last_idx].size;
        if fits {
            let mut active = self.segments.remove(last_idx);
            match active.append(record) {
                Ok(_pos) => {},
                Err(_) => {
                    // the size check above said it fits
                    proof {
                        assert(false);
                    }
                },
            }
            let ghost ga = active;
            self.segments.insert(last_idx, active);
            proof {
                assert(self.segments@ =~= old(self).segments@.update(last_idx as int, ga));
                lemma_read_model_at(*self, last_idx as int, end);
            }
            Ok(end)
        } else {
            // the active segment is full: seal it and roll a new one
            let mut fresh = Segment::open(end, self.segment_max_bytes, self.index_interval_bytes);
            let rr = fresh.append(record);
            match rr {
                Ok(_pos) => {},
                Err(_) => {
                    // a record within max_bytes fits an empty segment
                    proof {
                        assert(false);
                    }
                },
            }
            let ghost gf = fresh;
            self.segments.push(fresh);
            proof {
                assert(self.segments@ =~= old(self).segments@.push(gf));
                lemma_read_model_at(*self, self.segments@.len() - 1, end);
            }
            Ok(end)
        }
    }

    /// Reads the single record at `offset`, `NotFound` outside the range.
    pub fn read_at(&self, offset: u64) -> (r: Result<Record, RaftError>)
        requires
            self.wf(),
        ensures
            match r {
                Ok(rec) => self.read_model(offset) == Some(rec@),
                Err(e) => e == RaftError::NotFound && self.read_model(offset) is None,
            },
    {
        let n = self.segments.len();
        let mut i: usize = 0;
        while i < n
            invariant
                self.wf(),
                n == self.segments@.len(),
                i <= n,
                forall|k: int|
                    0 <= k < i ==> !((#[trigger] self.segments@[k]).base_offset <= offset && offset
                        - self.segments@[k].base_offset < self.segments@[k].records@.len()),
            decreases n - i,
        {
            let seg = &self.segments[i];
            match seg.read(offset) {
                Ok(rec) => {
                    proof {
                        lemma_read_model_at(*self, i as int, offset);
                    }
                    return Ok(rec);
                },
                Err(_) => {},
            }
            i = i + 1;
        }
        Err(RaftError::NotFound)
    }

    /// Records from `offset` on, stopping before `max_bytes` of encoded
    /// record data would be exceeded or at the log end. Empty at exactly
    /// the log end; `OutOfRange` outside `[log_start, log_end]`.
    pub fn read(&self, offset: u64, max_bytes: u64) -> (r: Result<Vec<Record>, RaftError>)
        requires
            self.wf(),
        ensures
            match r {
                Ok(v) => {
                    &&& offset == self.spec_log_end() ==> v@.len() == 0
                    &&& self.spec_log_start() <= offset <= self.spec_log_end()
                    &&& offset + v@.len() <= self.spec_log_end()
                    &&& forall|k: int|
                        0 <= k < v@.len() ==> Some((#[trigger] v@[k])@) == self.read_model(
                            (offset + k) as u64,
                        )
                    // the read stops only at the log end or the byte
                    // budget: what came back fits, and one more would not
                    &&& spec_records_size(models_of_records(v@)) <= max_bytes
                    &&& (offset + v@.len() < self.spec_log_end() ==> (self.read_model(
                        (offset + v@.len()) as u64,
                    ) matches Some(nx) && spec_records_size(models_of_records(v@))
                        + spec_record_size(nx) > max_bytes))
                },
                Err(e) => e == RaftError::OutOfRange && (offset < self.spec_log_start() || offset
                    > self.spec_log_end()),
            },
    {
        let start = self.log_start_offset();
        let end = self.log_end_offset();
        if offset < start || offset > end {
            return Err(RaftError::OutOfRange);
        }
        let mut out: Vec<Record> = Vec::new();
        let mut used: u64 = 0;
        let mut o: u64 = offset;
        proof {
            assert(models_of_records(out@) =~= Seq::<RecordModel>::empty());
        }
        while o < end
            invariant
                self.wf(),
                end == self.spec_log_end(),
                self.spec_log_start() <= offset,
                offset <= o <= end,
                out@.len() == o - offset,
                used <= max_bytes,
                used == spec_records_size(models_of_records(out@)),
                forall|k: int|
                    0 <= k < out@.len() ==> Some((#[trigger] out@[k])@) == self.read_model(
                        (offset + k) as u64,
                    ),
            decreases end - o,
        {
            proof {
                lemma_end_in_range(*self, o);
            }
            let rec = match self.read_at(o) {
                Ok(rec) => rec,
                Err(_) => {
                    return Err(RaftError::OutOfRange);
                },
            };
            let rsize128: u128 = 24 + (rec.key.len() as u128) + (rec.value.len() as u128);
            proof {
                assert(rsize128 == spec_record_size(rec@));
            }
            if rsize128 > (max_bytes - used) as u128 {
                return Ok(out);
            }
            let rsize: u64 = rsize128 as u64;
            used = used + rsize;
            let ghost before = models_of_records(out@);
            out.push(rec);
            proof {
                assert(models_of_records(out@) =~= before.push(rec@));
                assert(models_of_records(out@).drop_last() =~= before);
                assert(models_of_records(out@).last() == rec@);
            }
            o = o + 1;
        }
        Ok(out)
    }

    /// Discards every record at `offset` and beyond: whole segments whose
    /// base lies at or past it go, the one containing it is cut. The log
    /// end lands exactly on `offset` whenever `offset` is at or below it.
    /// Pops whole segments whose base lies at or past `offset`, keeping at
    /// least one segment. Nothing moves when `offset` is past the log end.
    #[verifier::rlimit(100)]
    fn drop_tail_segments(&mut self, offset: u64)
        requires
            old(self).wf(),
            old(self).spec_log_start() <= offset,
        ensures
            final(self).wf(),
            final(self).segment_max_bytes == old(self).segment_max_bytes,
            final(self).index_interval_bytes == old(self).index_interval_bytes,
            final(self).spec_log_start() == old(self).spec_log_start(),
            final(self).segments@ == old(self).segments@.take(final(self).segments@.len() as int),
            final(self).segments@.last().base_offset <= offset,
            offset <= old(self).spec_log_end() ==> offset <= final(self).spec_log_end(),
            offset > old(self).spec_log_end() ==> final(self).segments@ == old(self).segments@,
    {
        let end = self.log_end_offset();
        proof {
            assert(self.segments@ =~= old(self).segments@.take(self.segments@.len() as int));
        }
        if offset > end {
            // nothing at or past `offset` exists: every segment ends at or
            // below the log end
            proof {
                let n = self.segments@.len();
                assert forall|k: int| 0 <= k < n implies (#[trigger] self.segments@[k]).base_offset
                    <= offset by {
                    if k < n - 1 {
                        lemma_bases_ordered(*self, k, n - 1);
                    }
                }
            }
            return ;
        }
        while self.segments.len() > 1 && self.segments[self.segments.len() - 1].base_offset
            >= offset
            invariant
                self.wf(),
                self.spec_log_start() == old(self).spec_log_start(),
                self.spec_log_start() <= offset,
                self.segment_max_bytes == old(self).segment_max_bytes,
                self.index_interval_bytes == old(self).index_interval_bytes,
                self.segments@.len() <= old(self).segments@.len(),
                self.segments@ == old(self).segments@.take(self.segments@.len() as int),
                offset <= self.spec_log_end(),
            decreases self.segments@.len(),
        {
            let _gone = self.segments.pop();
            proof {
                assert(self.segments@ =~= old(self).segments@.take(self.segments@.len() as int));
            }
        }
    }

    /// Discards every record at `offset` and beyond: whole segments whose
    /// base lies at or past it go, the one containing it is cut. The log
    /// end lands exactly on `offset` whenever `offset` is at or below it.
    #[verifier::rlimit(100)]
    #[verifier::spinoff_prover]
    pub fn truncate_to(&mut self, offset: u64)
        requires
            old(self).wf(),
            old(self).spec_log_start() <= offset,
        ensures
            final(self).wf(),
            final(self).spec_log_start() == old(self).spec_log_start(),
            final(self).segment_max_bytes == old(self).segment_max_bytes,
            offset <= old(self).spec_log_end() ==> final(self).spec_log_end() == offset,
            offset > old(self).spec_log_end() ==> final(self).spec_log_end() == old(
                self,
            ).spec_log_end(),
    {
        self.drop_tail_segments(offset);
        let ghost mid = *self;
        let last_idx = self.segments.len() - 1;
        let base = self.segments[last_idx].base_offset;
        let keep = offset - base;
        let mut last = self.segments.remove(last_idx);
        last.truncate_records(keep);
        let ghost gl = last;
        self.segments.insert(last_idx, last);
        proof {
            assert(self.segments@ =~= mid.segments@.update(last_idx as int, gl));
            assert(forall|i: int|
                0 <= i < self.segments@.len() - 1 ==> (#[trigger] self.segments@[i])
                    == mid.segments@[i]);
        }
    }
}

/// Segments cover disjoint, ordered offset ranges: an earlier segment ends
/// at or before a later one begins.
pub proof fn lemma_bases_ordered(log: PartitionLog, a: int, b: int)
    requires
        log.wf(),
        0 <= a < b < log.segments@.len(),
    ensures
        log.segments@[a].base_offset + log.segments@[a].records@.len()
            <= log.segments@[b].base_offset,
    decreases b - a,
{
    if b == a + 1 {
        assert(log.segments@[b].base_offset == log.segments@[b - 1].base_offset
            + log.segments@[b - 1].records@.len());
    } else {
        lemma_bases_ordered(log, a, b - 1);
        assert(log.segments@[b].base_offset == log.segments@[b - 1].base_offset
            + log.segments@[b - 1].records@.len());
    }
}

/// When segment `i` holds `offset`, `read_model` reads exactly that slot:
/// no other segment's range can claim it.
pub proof fn lemma_read_model_at(log: PartitionLog, i: int, offset: u64)
    requires
        log.wf(),
        0 <= i < log.segments@.len(),
        log.segments@[i].base_offset <= offset,
        offset - log.segments@[i].base_offset < log.segments@[i].records@.len(),
    ensures
        log.read_model(offset) == Some(
            log.segments@[i].records@[offset - log.segments@[i].base_offset]@,
        ),
{
    assert(exists|k: int|
        0 <= k < log.segments@.len() && (#[trigger] log.segments@[k]).base_offset <= offset
            && offset - log.segments@[k].base_offset < log.segments@[k].records@.len());
    let j = choose|k: int|
        0 <= k < log.segments@.len() && (#[trigger] log.segments@[k]).base_offset <= offset
            && offset - log.segments@[k].base_offset < log.segments@[k].records@.len();
    if j < i {
        lemma_bases_ordered(log, j, i);
    } else if j > i {
        lemma_bases_ordered(log, i, j);
    }
}

/// Every offset at or past the log start and below the log end lies inside
/// some segment.
pub proof fn lemma_end_in_range(log: PartitionLog, o: u64)
    requires
        log.wf(),
        log.spec_log_start() <= o,
        o < log.spec_log_end(),
    ensures
        log.read_model(o) is Some,
{
    lemma_offset_in_segment(log, o, log.segments@.len() - 1);
}

/// If `o` is at or above the log start and below the end of segment `i`,
/// some segment holds it.
pub proof fn lemma_offset_in_segment(log: PartitionLog, o: u64, i: int)
    requires
        log.wf(),
        0 <= i < log.segments@.len(),
        log.spec_log_start() <= o,
        o < log.segments@[i].base_offset + log.segments@[i].records@.len(),
    ensures
        log.read_model(o) is Some,
    decreases i,
{
    if o >= log.segments@[i].base_offset {
        assert(exists|k: int|
            0 <= k < log.segments@.len() && (#[trigger] log.segments@[k]).base_offset <= o && o
                - log.segments@[k].base_offset < log.segments@[k].records@.len());
    } else {
        assert(i > 0);
        assert(log.segments@[i].base_offset == log.segments@[i - 1].base_offset + log.segments@[i
            - 1].records@.len());
        lemma_offset_in_segment(log, o, i - 1);
    }
}

} // verus!
