//! Segment and partition-log behavior: append/read round trips, rolling,
//! truncation, and crash recovery of a torn tail.

use josefine::error::RaftError;
use josefine::partition::PartitionLog;
use josefine::segment::{encode_record, recover_records, Record, Segment};

fn rec(key: &[u8], value: &[u8]) -> Record {
    Record { timestamp: 42, key: key.to_vec(), value: value.to_vec() }
}

#[test]
fn segment_append_then_sequential_reads_return_appended_records() {
    let mut seg = Segment::open(0, 1 << 20, 4096);
    for i in 0..10u8 {
        let r = seg.append(rec(&[i], &[i, i])).unwrap();
        assert_eq!(r, (i as u64) * 27);
    }
    for i in 0..10u8 {
        let got = seg.read(i as u64).unwrap();
        assert_eq!(got.key, vec![i]);
        assert_eq!(got.value, vec![i, i]);
        assert_eq!(got.timestamp, 42);
    }
    assert!(matches!(seg.read(10), Err(RaftError::NotFound)));
}

#[test]
fn segment_refuses_record_past_max_bytes() {
    let mut seg = Segment::open(0, 40, 4096);
    seg.append(rec(b"a", b"b")).unwrap();
    let e = seg.append(rec(b"cc", b"dd")).unwrap_err();
    assert!(matches!(e, RaftError::SegmentFull));
}

#[test]
fn partition_append_assigns_dense_offsets_and_rolls() {
    let mut log = PartitionLog::new(64, 4096);
    for i in 0..20u8 {
        let off = log.append(rec(&[i], &[i])).unwrap();
        assert_eq!(off, i as u64);
    }
    assert!(log.segments.len() > 1, "small segments must have rolled");
    assert_eq!(log.log_end_offset(), 20);
    assert_eq!(log.log_start_offset(), 0);
    for i in 0..20u8 {
        let got = log.read_at(i as u64).unwrap();
        assert_eq!(got.key, vec![i]);
    }
}

#[test]
fn read_at_log_end_returns_empty_not_error() {
    let mut log = PartitionLog::new(1 << 20, 4096);
    for i in 0..5u8 {
        log.append(rec(&[i], &[i])).unwrap();
    }
    let v = log.read(5, 1 << 20).unwrap();
    assert!(v.is_empty());
    let e = log.read(6, 1 << 20).unwrap_err();
    assert!(matches!(e, RaftError::OutOfRange));
}

#[test]
fn read_respects_max_bytes() {
    let mut log = PartitionLog::new(1 << 20, 4096);
    for i in 0..10u8 {
        log.append(rec(&[i], &[i])).unwrap();
    }
    // each record is 26 bytes; 60 bytes admit two of them
    let v = log.read(0, 60).unwrap();
    assert_eq!(v.len(), 2);
    assert_eq!(v[0].key, vec![0]);
    assert_eq!(v[1].key, vec![1]);
}

#[test]
fn append_truncate_round_trip_lands_k_below_peak() {
    let mut log = PartitionLog::new(128, 4096);
    let n: u64 = 50;
    let k: u64 = 17;
    for i in 0..n {
        log.append(rec(&[i as u8], &[i as u8])).unwrap();
    }
    assert_eq!(log.log_end_offset(), n);
    log.truncate_to(n - k);
    assert_eq!(log.log_end_offset(), n - k);
    let v = log.read(n - k, 1 << 20).unwrap();
    assert!(v.is_empty());
    // appending continues from the new end
    let off = log.append(rec(b"x", b"y")).unwrap();
    assert_eq!(off, n - k);
}

#[test]
fn recovery_drops_partial_trailing_record() {
    let mut bytes: Vec<u8> = Vec::new();
    for i in 0..1000u32 {
        let r = rec(&i.to_be_bytes(), b"v");
        let enc = encode_record(&r);
        bytes.extend_from_slice(&enc);
    }
    // simulate a torn write: chop 7 bytes off the tail
    let torn = bytes[..bytes.len() - 7].to_vec();
    let recovered = recover_records(&torn);
    assert_eq!(recovered.len(), 999);
    assert_eq!(recovered[998].key, 998u32.to_be_bytes().to_vec());

    // a restarted log rebuilt from the recovered records continues at 999
    let mut log = PartitionLog::new(1 << 30, 4096);
    for r in recovered {
        log.append(r).unwrap();
    }
    assert_eq!(log.log_end_offset(), 999);
    let next = log.append(rec(b"after-restart", b"v")).unwrap();
    assert_eq!(next, 999);
}

#[test]
fn sparse_index_entries_climb_and_bound_the_offset() {
    // one index entry roughly every 32 bytes of 26-byte records
    let mut seg = Segment::open(0, 1 << 20, 32);
    for i in 0..16u8 {
        seg.append(rec(&[i], &[i])).unwrap();
    }
    assert!(!seg.index.is_empty());
    for w in seg.index.windows(2) {
        assert!(w[0].relative_offset < w[1].relative_offset);
        assert!(w[0].file_position < w[1].file_position);
    }
    let e = seg.index_lookup(10).unwrap();
    assert!(e.relative_offset <= 10);
}

#[test]
fn recovery_drops_corrupt_crc_tail() {
    let mut bytes: Vec<u8> = Vec::new();
    for i in 0..3u8 {
        bytes.extend_from_slice(&encode_record(&rec(&[i], &[i])));
    }
    let n = bytes.len();
    bytes[n - 1] ^= 0xff;
    let recovered = recover_records(&bytes);
    assert_eq!(recovered.len(), 2);
}

#[test]
fn recovery_roundtrips_clean_segments() {
    let mut bytes: Vec<u8> = Vec::new();
    let originals: Vec<Record> =
        (0..25u8).map(|i| rec(&[i, i + 1], &[i.wrapping_mul(3)])).collect();
    for r in &originals {
        bytes.extend_from_slice(&encode_record(r));
    }
    let recovered = recover_records(&bytes);
    assert_eq!(recovered.len(), originals.len());
    for (a, b) in recovered.iter().zip(originals.iter()) {
        assert_eq!(a.timestamp, b.timestamp);
        assert_eq!(a.key, b.key);
        assert_eq!(a.value, b.value);
    }
}
