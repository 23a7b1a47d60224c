//! The segment store: a bounded, offset-contiguous run of records, the
//! sparse offset index over its byte layout, and the byte codec that a
//! segment is persisted and recovered through.

use vstd::prelude::*;
use crate::codec::{be32, be32_bytes, be64, be64_bytes, push_u32, push_u64, read_u32, read_u64};
use crate::error::RaftError;
use crate::raft::clone_bytes;

verus! {

/// One record: an opaque key and value, stamped by the producer.
#[derive(Debug)]
pub struct Record {
    pub timestamp: i64,
    pub key: Vec<u8>,
    pub value: Vec<u8>,
}

/// The mathematical content of a `Record`.
#[verifier::ext_equal]
pub struct RecordModel {
    pub timestamp: i64,
    pub key: Seq<u8>,
    pub value: Seq<u8>,
}

impl View for Record {
    type V = RecordModel;

    open spec fn view(&self) -> RecordModel {
        RecordModel { timestamp: self.timestamp, key: self.key@, value: self.value@ }
    }
}

impl Clone for Record {
    /// The copy carries the same timestamp, key and value bytes.
    fn clone(&self) -> (r: Self)
        ensures
            r@ == self@,
    {
        Record {
            timestamp: self.timestamp,
            key: clone_bytes(&self.key),
            value: clone_bytes(&self.value),
        }
    }
}

/// The checksum a record carries: a 31-multiplier fold over the bytes.
pub open spec fn crc_of(s: Seq<u8>) -> u32
    decreases s.len(),
{
    if s.len() == 0 {
        0
    } else {
        (((crc_of(s.drop_last()) as int) * 31 + s.last()) % 0x100000000) as u32
    }
}

/// The bytes the checksum of a record covers: timestamp, lengths, key, value.
pub open spec fn spec_record_body(r: RecordModel) -> Seq<u8> {
    be64_bytes(r.timestamp as u64) + be32_bytes(r.key.len() as u32) + be32_bytes(
        r.value.len() as u32,
    ) + r.key + r.value
}

/// A record on disk: a length prefix, the checksum, then the body.
pub open spec fn spec_encode_record(r: RecordModel) -> Seq<u8> {
    be32_bytes((20 + r.key.len() + r.value.len()) as u32) + be32_bytes(crc_of(spec_record_body(r)))
        + spec_record_body(r)
}

/// The number of bytes a record occupies on disk.
pub open spec fn spec_record_size(r: RecordModel) -> int {
    24 + r.key.len() as int + r.value.len() as int
}

/// Encodes one record exactly as `spec_encode_record` lays it out.
pub fn encode_record(r: &Record) -> (out: Vec<u8>)
    requires
        r.key@.len() + r.value@.len() + 20 <= u32::MAX,
    ensures
        out@ == spec_encode_record(r@),
        out@.len() == spec_record_size(r@),
{
    let klen: u32 = r.key.len() as u32;
    let vlen: u32 = r.value.len() as u32;
    let mut body: Vec<u8> = Vec::new();
    push_u64(&mut body, r.timestamp as u64);
    push_u32(&mut body, klen);
    push_u32(&mut body, vlen);
    proof {
        assert(body@ =~= be64_bytes(r.timestamp as u64) + be32_bytes(r.key@.len() as u32)
            + be32_bytes(r.value@.len() as u32) + r.key@.take(0));
    }
    let mut i: usize = 0;
    while i < r.key.len()
        invariant
            i <= r.key@.len(),
            body@ == be64_bytes(r.timestamp as u64) + be32_bytes(r.key@.len() as u32)
                + be32_bytes(r.value@.len() as u32) + r.key@.take(i as int),
        decreases r.key@.len() - i,
    {
        body.push(r.key[i]);
        proof {
            assert(body@ =~= be64_bytes(r.timestamp as u64) + be32_bytes(r.key@.len() as u32)
                + be32_bytes(r.value@.len() as u32) + r.key@.take(i + 1));
        }
        i = i + 1;
    }
    proof {
        assert(be64_bytes(r.timestamp as u64) + be32_bytes(r.key@.len() as u32) + be32_bytes(
            r.value@.len() as u32,
        ) + r.key@.take(r.key@.len() as int) + r.value@.take(0) =~= body@);
    }
    let mut j: usize = 0;
    while j < r.value.len()
        invariant
            j <= r.value@.len(),
            body@ == be64_bytes(r.timestamp as u64) + be32_bytes(r.key@.len() as u32)
                + be32_bytes(r.value@.len() as u32) + r.key@.take(r.key@.len() as int)
                + r.value@.take(j as int),
        decreases r.value@.len() - j,
    {
        body.push(r.value[j]);
        proof {
            assert(body@ =~= be64_bytes(r.timestamp as u64) + be32_bytes(r.key@.len() as u32)
                + be32_bytes(r.value@.len() as u32) + r.key@.take(r.key@.len() as int)
                + r.value@.take(j + 1));
        }
        j = j + 1;
    }
    proof {
        assert(r.key@.take(r.key@.len() as int) =~= r.key@);
        assert(r.value@.take(r.value@.len() as int) =~= r.value@);
        assert(body@ =~= spec_record_body(r@));
    }
    let crc = crc_range(&body, 0, body.len());
    proof {
        assert(body@.subrange(0, body@.len() as int) =~= body@);
    }
    let mut out: Vec<u8> = Vec::new();
    push_u32(&mut out, 20 + klen + vlen);
    push_u32(&mut out, crc);
    let mut k: usize = 0;
    let ghost head = be32_bytes((20 + r.key@.len() + r.value@.len()) as u32) + be32_bytes(
        crc_of(spec_record_body(r@)),
    );
    proof {
        assert(out@ =~= head + body@.take(0));
    }
    while k < body.len()
        invariant
            k <= body@.len(),
            body@ == spec_record_body(r@),
            out@ == head + body@.take(k as int),
        decreases body@.len() - k,
    {
        out.push(body[k]);
        proof {
            assert(out@ =~= head + body@.take(k + 1));
        }
        k = k + 1;
    }
    proof {
        assert(body@.take(body@.len() as int) =~= body@);
        assert(out@ =~= spec_encode_record(r@));
    }
    out
}

/// Reads one record at `at`, if a complete, checksum-valid one lies there:
/// the record and the position just past it.
pub open spec fn spec_parse_record(s: Seq<u8>, at: int) -> Option<(RecordModel, int)> {
    if at + 4 > s.len() {
        None
    } else {
        let len = be32(s, at) as int;
        if len < 20 || at + 4 + len > s.len() {
            None
        } else {
            let crc = be32(s, at + 4);
            let body = s.subrange(at + 8, at + 4 + len);
            let klen = be32(s, at + 16) as int;
            let vlen = be32(s, at + 20) as int;
            if crc != crc_of(body) || 20 + klen + vlen != len {
                None
            } else {
                Some(
                    (
                        RecordModel {
                            timestamp: be64(s, at + 8) as i64,
                            key: s.subrange(at + 24, at + 24 + klen),
                            value: s.subrange(at + 24 + klen, at + 24 + klen + vlen),
                        },
                        at + 4 + len,
                    ),
                )
            }
        }
    }
}

/// The longest prefix of complete, checksum-valid records from `at`: what
/// recovery keeps. A torn or corrupt tail parses as nothing and is dropped.
pub open spec fn spec_parse_records(s: Seq<u8>, at: int) -> Seq<RecordModel>
    decreases s.len() - at when 0 <= at <= s.len()
{
    match spec_parse_record(s, at) {
        None => Seq::empty(),
        Some((r, next)) => if at < next <= s.len() {
            seq![r] + spec_parse_records(s, next)
        } else {
            Seq::empty()
        },
    }
}

/// Scans `bytes` from the front, keeping every complete, checksum-valid
/// record and stopping at the first torn or corrupt one.
#[verifier::rlimit(100)]
pub fn recover_records(bytes: &Vec<u8>) -> (out: Vec<Record>)
    ensures
        crate::segment::models_of_records(out@) == spec_parse_records(bytes@, 0),
{
    let n = bytes.len();
    let mut out: Vec<Record> = Vec::new();
    let mut at: usize = 0;
    proof {
        assert(models_of_records(out@) + spec_parse_records(bytes@, 0) =~= spec_parse_records(
            bytes@,
            0,
        ));
    }
    loop
        invariant
            0 <= at <= n,
            n == bytes@.len(),
            models_of_records(out@) + spec_parse_records(bytes@, at as int) =~= spec_parse_records(
                bytes@,
                0,
            ),
        decreases n - at,
    {
        if n < 4 || at > n - 4 {
            proof {
                assert(spec_parse_records(bytes@, at as int) =~= Seq::<RecordModel>::empty());
                assert(models_of_records(out@) =~= spec_parse_records(bytes@, 0));
            }
            return out;
        }
        let len32 = read_u32(bytes, at);
        let len: usize = len32 as usize;
        if len < 20 || len > n - 4 || at > n - 4 - len {
            proof {
                assert(spec_parse_record(bytes@, at as int) is None);
                assert(spec_parse_records(bytes@, at as int) =~= Seq::<RecordModel>::empty());
                assert(models_of_records(out@) =~= spec_parse_records(bytes@, 0));
            }
            return out;
        }
        let crc = read_u32(bytes, at + 4);
        let body_crc = crc_range(bytes, at + 8, at + 4 + len);
        let klen64: u64 = read_u32(bytes, at + 16) as u64;
        let vlen64: u64 = read_u32(bytes, at + 20) as u64;
        if crc != body_crc || 20 + klen64 + vlen64 != len as u64 {
            proof {
                assert(spec_parse_record(bytes@, at as int) is None);
                assert(spec_parse_records(bytes@, at as int) =~= Seq::<RecordModel>::empty());
                assert(models_of_records(out@) =~= spec_parse_records(bytes@, 0));
            }
            return out;
        }
        let timestamp = read_u64(bytes, at + 8) as i64;
        let klen: usize = klen64 as usize;
        let vlen: usize = vlen64 as usize;
        let key = crate::codec::copy_range(bytes, at + 24, at + 24 + klen);
        let value = crate::codec::copy_range(bytes, at + 24 + klen, at + 24 + klen + vlen);
        let rec = Record { timestamp, key, value };
        proof {
            let parsed = spec_parse_record(bytes@, at as int);
            assert(parsed matches Some(p) && p.0 =~= rec@ && p.1 == at + 4 + len);
        }
        let ghost before = models_of_records(out@);
        out.push(rec);
        proof {
            assert(models_of_records(out@) =~= before + seq![rec@]);
            assert(spec_parse_records(bytes@, at as int) == seq![rec@] + spec_parse_records(
                bytes@,
                at + 4 + len,
            ));
            assert(models_of_records(out@) + spec_parse_records(bytes@, at + 4 + len)
                =~= before + spec_parse_records(bytes@, at as int));
        }
        at = at + 4 + len;
    }
}

/// Computes `crc_of` over `v[from .. to]`.
pub fn crc_range(v: &Vec<u8>, from: usize, to: usize) -> (r: u32)
    requires
        from <= to <= v@.len(),
    ensures
        r == crc_of(v@.subrange(from as int, to as int)),
{
    let mut c: u32 = 0;
    let mut i: usize = from;
    while i < to
        invariant
            from <= i <= to <= v@.len(),
            c == crc_of(v@.subrange(from as int, i as int)),
        decreases to - i,
    {
        let w: u64 = (c as u64) * 31 + (v[i] as u64);
        c = (w % 0x100000000) as u32;
        proof {
            let t = v@.subrange(from as int, i + 1);
            assert(t.drop_last() =~= v@.subrange(from as int, i as int));
            assert(t.last() == v@[i as int]);
        }
        i = i + 1;
    }
    c
}

/// Every record occupies at least its header.
pub proof fn lemma_records_size_nonneg(rs: Seq<RecordModel>)
    ensures
        spec_records_size(rs) >= 0,
    decreases rs.len(),
{
    if rs.len() > 0 {
        lemma_records_size_nonneg(rs.drop_last());
    }
}

/// A prefix of a run occupies no more bytes than the whole run.
pub proof fn lemma_records_size_take_le(rs: Seq<RecordModel>, i: int)
    requires
        0 <= i <= rs.len(),
    ensures
        spec_records_size(rs.take(i)) <= spec_records_size(rs),
    decreases rs.len(),
{
    if i < rs.len() {
        assert(rs.drop_last().take(i) =~= rs.take(i));
        lemma_records_size_take_le(rs.drop_last(), i);
        assert(spec_record_size(rs.last()) >= 0);
    } else {
        assert(rs.take(i) =~= rs);
    }
}

/// The mathematical content of a sequence of records.
pub open spec fn models_of_records(rs: Seq<Record>) -> Seq<RecordModel> {
    Seq::new(rs.len(), |i: int| rs[i]@)
}

/// One sparse index entry: a relative offset and where its record starts.
#[derive(Clone, Copy, Debug)]
pub struct IndexEntry {
    pub relative_offset: u32,
    pub file_position: u32,
}

/// One segment: records `[base_offset, base_offset + count)`, bounded by
/// `max_bytes` of encoded size, with its sparse offset index.
#[derive(Debug)]
pub struct Segment {
    pub base_offset: u64,
    pub max_bytes: u64,
    pub index_interval_bytes: u64,
    pub records: Vec<Record>,
    pub size: u64,
    pub index: Vec<IndexEntry>,
    pub bytes_since_last_index: u64,
}

/// The encoded size of a run of records.
pub open spec fn spec_records_size(rs: Seq<RecordModel>) -> int
    decreases rs.len(),
{
    if rs.len() == 0 {
        0
    } else {
        spec_records_size(rs.drop_last()) + spec_record_size(rs.last())
    }
}

impl Segment {
    /// Size accounting matches the records; the index climbs strictly in
    /// both fields and points inside the written bytes.
    pub open spec fn wf(self) -> bool {
        &&& self.size == spec_records_size(models_of_records(self.records@))
        &&& self.size <= self.max_bytes
        &&& forall|i: int, j: int|
            0 <= i < j < self.index@.len() ==> (#[trigger] self.index@[i]).relative_offset < (
            #[trigger] self.index@[j]).relative_offset && self.index@[i].file_position
                < self.index@[j].file_position
        &&& forall|i: int|
            0 <= i < self.index@.len() ==> (#[trigger] self.index@[i]).relative_offset
                < self.records@.len()
    }

    /// An empty writable segment starting at `base_offset`.
    pub fn open(base_offset: u64, max_bytes: u64, index_interval_bytes: u64) -> (r: Segment)
        ensures
            r.wf(),
            r.base_offset == base_offset,
            r.max_bytes == max_bytes,
            r.records@.len() == 0,
            r.size == 0,
    {
        Segment {
            base_offset,
            max_bytes,
            index_interval_bytes,
            records: Vec::new(),
            size: 0,
            index: Vec::new(),
            bytes_since_last_index: 0,
        }
    }

    /// The count of records held.
    pub fn count(&self) -> (r: u64)
        ensures
            r == self.records@.len(),
    {
        self.records.len() as u64
    }

    /// Appends one record, or refuses with `SegmentFull` when its encoded
    /// size would push the segment past `max_bytes`. On success the new
    /// record stands at the end and everything before it is untouched.
    pub fn append(&mut self, record: Record) -> (r: Result<u64, RaftError>)
        requires
            old(self).wf(),
            record.key@.len() + record.value@.len() + 24 <= u32::MAX,
            old(self).records@.len() < u32::MAX - 1,
        ensures
            final(self).wf(),
            final(self).base_offset == old(self).base_offset,
            final(self).max_bytes == old(self).max_bytes,
            r matches Err(e) ==> e == RaftError::SegmentFull && final(self).records@ == old(
                self,
            ).records@ && old(self).size + spec_record_size(record@) > old(self).max_bytes,
            r matches Ok(pos) ==> (old(self).size + spec_record_size(record@) <= old(
                self,
            ).max_bytes && pos == old(self).size && models_of_records(final(self).records@)
                == models_of_records(old(self).records@).push(record@) && final(self).size == old(
                self,
            ).size + spec_record_size(record@)),
    {
        let rsize: u64 = 24 + (record.key.len() as u64) + (record.value.len() as u64);
        proof {
            assert(rsize == spec_record_size(record@));
        }
        if self.max_bytes - self.size < rsize {
            return Err(RaftError::SegmentFull);
        }
        let pos = self.size;
        let ghost before = models_of_records(self.records@);
        self.records.push(record);
        self.size = self.size + rsize;
        proof {
            assert(models_of_records(self.records@) =~= before.push(record@));
            assert(models_of_records(self.records@).drop_last() =~= before);
            assert(models_of_records(self.records@).last() == record@);
        }
        self.bytes_since_last_index = crate::raft::sat_add(self.bytes_since_last_index, rsize);
        if self.bytes_since_last_index >= self.index_interval_bytes {
            let rel: u32 = (self.records.len() - 1) as u32;
            let filepos: u32 = if pos <= u32::MAX as u64 {
                pos as u32
            } else {
                u32::MAX
            };
            let fits = if self.index.len() == 0 {
                true
            } else {
                let tail = self.index[self.index.len() - 1];
                tail.relative_offset < rel && tail.file_position < filepos
            };
            if fits {
                self.index.push(IndexEntry { relative_offset: rel, file_position: filepos });
            }
            self.bytes_since_last_index = 0;
        }
        Ok(pos)
    }

    /// The record at absolute `offset`, or `NotFound` outside
    /// `[base_offset, base_offset + count)`.
    pub fn read(&self, offset: u64) -> (r: Result<Record, RaftError>)
        requires
            self.wf(),
            self.base_offset + self.records@.len() <= u64::MAX,
        ensures
            match r {
                Ok(rec) => self.base_offset <= offset && offset - self.base_offset
                    < self.records@.len() && rec@ == self.records@[offset - self.base_offset]@,
                Err(e) => e == RaftError::NotFound && (offset < self.base_offset || offset
                    - self.base_offset >= self.records@.len()),
            },
    {
        if offset < self.base_offset {
            return Err(RaftError::NotFound);
        }
        let rel = offset - self.base_offset;
        if rel >= self.records.len() as u64 {
            return Err(RaftError::NotFound);
        }
        Ok(self.records[rel as usize].clone())
    }

    /// The greatest index entry at or before `relative_offset`, where a
    /// read starts scanning.
    pub fn index_lookup(&self, relative_offset: u32) -> (r: Option<IndexEntry>)
        requires
            self.wf(),
        ensures
            match r {
                Some(e) => e.relative_offset <= relative_offset && (exists|i: int|
                    0 <= i < self.index@.len() && self.index@[i] == e),
                None => forall|i: int|
                    0 <= i < self.index@.len() ==> (#[trigger] self.index@[i]).relative_offset
                        > relative_offset,
            },
    {
        let mut best: Option<IndexEntry> = None;
        let mut i: usize = 0;
        while i < self.index.len()
            invariant
                i <= self.index@.len(),
                match best {
                    Some(e) => e.relative_offset <= relative_offset && (exists|k: int|
                        0 <= k < self.index@.len() && self.index@[k] == e),
                    None => forall|k: int|
                        0 <= k < i ==> (#[trigger] self.index@[k]).relative_offset
                            > relative_offset,
                },
            decreases self.index@.len() - i,
        {
            let e = self.index[i];
            if e.relative_offset <= relative_offset {
                best = Some(e);
            }
            i = i + 1;
        }
        best
    }

    /// Discards every record at relative position `>= keep` (used when the
    /// partition truncates into this segment). The index entries that point
    /// past the kept range go with them.
    pub fn truncate_records(&mut self, keep: u64)
        requires
            old(self).wf(),
        ensures
            final(self).wf(),
            final(self).base_offset == old(self).base_offset,
            final(self).max_bytes == old(self).max_bytes,
            keep <= old(self).records@.len() ==> final(self).records@.len() == keep,
            keep >= old(self).records@.len() ==> final(self).records@ == old(self).records@,
            models_of_records(final(self).records@) == models_of_records(old(self).records@).take(
                if keep <= old(self).records@.len() {
                    keep as int
                } else {
                    old(self).records@.len() as int
                },
            ),
    {
        let n = self.records.len();
        if keep >= n as u64 {
            proof {
                assert(models_of_records(self.records@) =~= models_of_records(
                    self.records@,
                ).take(self.records@.len() as int));
            }
            return ;
        }
        let keep_u: usize = keep as usize;
        let ghost before = models_of_records(self.records@);
        self.records.truncate(keep_u);
        proof {
            assert(self.records@ =~= old(self).records@.take(keep as int));
            assert(models_of_records(self.records@) =~= before.take(keep as int));
        }
        let mut new_size: u64 = 0;
        let mut i: usize = 0;
        let ghost kept = models_of_records(self.records@);
        proof {
            lemma_records_size_nonneg(kept);
            lemma_records_size_take_le(before, keep as int);
            assert(kept =~= before.take(keep as int));
        }
        while i < self.records.len()
            invariant
                i <= self.records@.len(),
                kept == models_of_records(self.records@),
                new_size == spec_records_size(kept.take(i as int)),
                spec_records_size(kept) <= old(self).size,
                old(self).wf(),
            decreases self.records@.len() - i,
        {
            let rec = &self.records[i];
            let rsize128: u128 = 24 + (rec.key.len() as u128) + (rec.value.len() as u128);
            proof {
                assert(kept.take(i + 1).drop_last() =~= kept.take(i as int));
                assert(kept.take(i + 1).last() == kept[i as int]);
                assert(kept[i as int] == self.records@[i as int]@);
                lemma_records_size_take_le(kept, i + 1);
                assert(new_size + rsize128 <= u64::MAX);
            }
            let rsize: u64 = rsize128 as u64;
            new_size = new_size + rsize;
            i = i + 1;
        }
        self.size = new_size;
        self.index = Vec::new();
        self.bytes_since_last_index = 0;
        proof {
            assert(kept.take(kept.len() as int) =~= kept);
        }
    }
}

} // verus!
