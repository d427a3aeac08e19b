use blackhole::codec::{encode_embedding, CodecError};
use blackhole::common::{generate_keys, KeyWriter, WRITE_BATCH_SIZE};
use blackhole::keys::{reverse_key, scan_bounds, KeyOrder};
use blackhole::latency::{summarize, LatencyHistogram, RunReport, MAX_LATENCY_MICROS};
use blackhole::lmdb_backend::{classify_get, classify_move, NOT_FOUND_CODE};
use blackhole::scan::{collect_range, scan_step};
use blackhole::serving::{admit_values, feature_prefix, ServeError};
use blackhole::store::{DatabaseType, EngineError, StoreError};

fn record(prefix: &str, ts: u16, value: u32) -> (Vec<u8>, Vec<u8>) {
    (reverse_key(prefix, ts), encode_embedding(&[value, value + 1]))
}

fn sorted(mut recs: Vec<(Vec<u8>, Vec<u8>)>) -> Vec<(Vec<u8>, Vec<u8>)> {
    recs.sort();
    recs
}

#[test]
fn scan_returns_range_most_recent_first() {
    let recs = sorted(vec![
        record("e1.f", 5, 50),
        record("e1.f", 10, 100),
        record("e1.f", 15, 150),
        record("e1.f", 20, 200),
    ]);
    let (lo, hi) = scan_bounds("e1.f", 10, 20, KeyOrder::Reverse);
    let got = collect_range(&recs, &lo, &hi).unwrap();
    assert_eq!(got, vec![200, 201, 150, 151, 100, 101]);
}

#[test]
fn scan_of_empty_range_is_empty() {
    let recs = sorted(vec![record("e1.f", 5, 50), record("e1.f", 10, 100)]);
    let (lo, hi) = scan_bounds("e1.f", 100, 200, KeyOrder::Reverse);
    assert_eq!(collect_range(&recs, &lo, &hi), Ok(vec![]));
    assert_eq!(collect_range(&[], &lo, &hi), Ok(vec![]));
}

#[test]
fn scan_stops_at_other_prefixes() {
    let recs = sorted(vec![record("e1.f", 12, 1), record("e1.g", 12, 2), record("e2.f", 12, 3)]);
    let (lo, hi) = scan_bounds("e1.f", 0, 65535, KeyOrder::Reverse);
    assert_eq!(collect_range(&recs, &lo, &hi), Ok(vec![1, 2]));
}

#[test]
fn scan_reports_malformed_value_in_range() {
    let recs = vec![(reverse_key("p", 3), vec![1, 2, 3])];
    let (lo, hi) = scan_bounds("p", 0, 10, KeyOrder::Reverse);
    assert_eq!(collect_range(&recs, &lo, &hi), Err(CodecError::LengthError { len: 3 }));
}

#[test]
fn scan_ignores_malformed_value_out_of_range() {
    let recs = vec![(reverse_key("p", 30), vec![1, 2, 3])];
    let (lo, hi) = scan_bounds("p", 0, 10, KeyOrder::Reverse);
    assert_eq!(collect_range(&recs, &lo, &hi), Ok(vec![]));
}

#[test]
fn scan_step_decides_per_key() {
    let (lo, hi) = scan_bounds("p", 10, 20, KeyOrder::Reverse);
    let mut out = vec![9];
    let v = encode_embedding(&[4]);
    assert_eq!(scan_step(&mut out, &reverse_key("p", 5), &v, &lo, &hi), Ok(false));
    assert_eq!(out, vec![9]);
    assert_eq!(scan_step(&mut out, &reverse_key("p", 30), &v, &lo, &hi), Ok(true));
    assert_eq!(out, vec![9]);
    assert_eq!(scan_step(&mut out, &reverse_key("p", 15), &v, &lo, &hi), Ok(true));
    assert_eq!(out, vec![9, 4]);
}

#[test]
fn classify_get_tells_absence_from_failure() {
    assert_eq!(classify_get(Ok(vec![1])), Ok(Some(vec![1])));
    assert_eq!(classify_get(Err(NOT_FOUND_CODE)), Ok(None));
    assert_eq!(classify_get(Err(-30796)), Err(StoreError::Engine(EngineError::Lmdb(-30796))));
}

#[test]
fn classify_move_ends_at_not_found() {
    assert_eq!(classify_move(Ok((Some(vec![1]), vec![2]))), Some(Ok((vec![1], vec![2]))));
    assert_eq!(classify_move(Ok((None, vec![2]))), None);
    assert_eq!(classify_move(Err(NOT_FOUND_CODE)), None);
    assert_eq!(classify_move(Err(5)), Some(Err(EngineError::Lmdb(5))));
}

#[test]
fn generate_keys_pads_entity_and_replica() {
    let keys = generate_keys(2, 3);
    let text: Vec<String> = keys.into_iter().map(|k| String::from_utf8(k).unwrap()).collect();
    assert_eq!(
        text,
        vec!["000000000000", "000000000001", "000000000002", "000000000100", "000000000101", "000000000102"]
    );
    assert!(generate_keys(0, 5).is_empty());
    assert!(generate_keys(5, 0).is_empty());
}

#[test]
fn writer_batches_and_keeps_canonical_keys() {
    let mut w = KeyWriter::new("pre_write", 1500, 2);
    let mut batches = Vec::new();
    let mut n = 0;
    while w.has_next() {
        let key = w.next_key();
        if let Some(b) = w.push(vec![n as u8]) {
            assert_eq!(b.len(), WRITE_BATCH_SIZE);
            batches.push(b);
        }
        if n == 3 {
            assert_eq!(key, b"pre_write.000000000101".to_vec());
        }
        n += 1;
    }
    assert_eq!(n, 3000);
    let (rest, canonical) = w.finish();
    assert_eq!(batches.len(), 3);
    assert!(rest.is_empty());
    assert_eq!(canonical.len(), 1500);
    assert_eq!(canonical[0], b"pre_write.000000000000".to_vec());
    assert_eq!(canonical[1499], b"pre_write.000000149900".to_vec());
    assert_eq!(batches[0][0].0, b"pre_write.000000000000".to_vec());
    assert_eq!(batches[0][1].0, b"pre_write.000000000001".to_vec());
    assert_eq!(batches[1][0].0, b"pre_write.000000050000".to_vec());
}

#[test]
fn writer_hands_out_partial_batch_at_finish() {
    let mut w = KeyWriter::new("postwrite", 3, 1);
    while w.has_next() {
        assert!(w.push(vec![]).is_none());
    }
    let (rest, canonical) = w.finish();
    assert_eq!(rest.len(), 3);
    assert_eq!(canonical.len(), 3);
    assert_eq!(rest[2].0, b"postwrite.000000000200".to_vec());
}

#[test]
fn database_type_names() {
    assert_eq!(DatabaseType::LMDB.name(), "lmdb");
    assert_eq!(DatabaseType::RocksDB.name(), "rocksdb");
}

#[test]
fn feature_prefix_joins_with_dot() {
    assert_eq!(feature_prefix("e1", "clicks"), "e1.clicks");
    assert_eq!(feature_prefix("e1", ""), "e1");
    assert_eq!(feature_prefix("", "f"), ".f");
}

#[test]
fn admit_values_treats_empty_as_not_found() {
    assert_eq!(admit_values(Ok(vec![1, 2])), Ok(vec![1, 2]));
    assert_eq!(admit_values(Ok(vec![])), Err(ServeError::NotFound));
    assert_eq!(
        admit_values(Err(StoreError::Engine(EngineError::Lmdb(7)))),
        Err(ServeError::Store(StoreError::Engine(EngineError::Lmdb(7))))
    );
}

#[test]
fn latency_histogram_counts_up_to_limit() {
    let mut h = LatencyHistogram::new();
    assert_eq!(h.hist.percentile(50.0).unwrap(), None);
    assert!(h.record(5));
    assert!(h.record(MAX_LATENCY_MICROS));
    assert!(!h.record(MAX_LATENCY_MICROS + 1));
    let max = h.hist.percentile(100.0).unwrap().unwrap();
    assert!(max.end() >= MAX_LATENCY_MICROS);
    let low = h.hist.percentile(50.0).unwrap().unwrap();
    assert_eq!(low.end(), 5);
    let total: u64 = h.hist.as_slice().iter().sum();
    assert_eq!(total, 2);
}

#[test]
fn latency_histogram_starts_empty() {
    let h = LatencyHistogram::new();
    assert!(h.hist.as_slice().iter().all(|c| *c == 0));
    assert_eq!(h.hist.percentile(99.0).unwrap(), None);
}

#[test]
fn summary_of_idle_run_is_zero() {
    let r = summarize(0, 0, 5_000_000, None, None, None, None);
    assert_eq!(
        r,
        RunReport {
            throughput_milli: 0,
            p50_micros: 0,
            p95_micros: 0,
            p99_micros: 0,
            max_micros: 0,
            total_operations: 0,
            errors: 0
        }
    );
    assert_eq!(summarize(0, 3, 0, None, None, None, None).throughput_milli, 0);
}

#[test]
fn summary_reports_rate_and_percentiles() {
    let r = summarize(10, 1, 2_000_000, Some(5), Some(40), Some(90), Some(1200));
    assert_eq!(r.throughput_milli, 5000);
    assert_eq!((r.p50_micros, r.p95_micros, r.p99_micros, r.max_micros), (5, 40, 90, 1200));
    assert_eq!((r.total_operations, r.errors), (10, 1));
    assert_eq!(summarize(3, 0, 7, None, None, None, None).throughput_milli, 428_571_428);
    assert_eq!(summarize(u64::MAX, 0, 1, None, None, None, None).throughput_milli, u64::MAX);
}
