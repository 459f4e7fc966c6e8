use csv_ingest::cache::{CacheEntry, IngestionCache, ScanAction};
use csv_ingest::cache::scan_decision;
use csv_ingest::fingerprint::fingerprint_hex;
use csv_ingest::numeric::is_numeric_text;
use csv_ingest::pipeline::{step, BoundedQueue, PipelineEvent, PipelineState};
use csv_ingest::record::parse_csv_dynamic;
use csv_ingest::snapshot::load_snapshot;
use csv_ingest::stats::ImportStats;
use csv_ingest::writes::{classify, into_query, record_to_write, write_timestamp_from_parse};
use csv_ingest::writes::{FieldValue, WriteTimestamp};
use csv_ingest::ImportError;

fn entry(path: &str, hash: &str, last: u64, count: u64) -> CacheEntry {
    CacheEntry {
        path: path.to_string(),
        hash: hash.to_string(),
        last_processed: last,
        records_count: count,
    }
}

#[test]
fn fingerprint_of_empty_input() {
    let r = fingerprint_hex(&Vec::new());
    assert_eq!(r, "e3b0c44298fc1c149afbf4c8996fb92427ae41e4649b934ca495991b7852b855");
}

#[test]
fn fingerprint_of_known_bytes() {
    let r = fingerprint_hex(&b"abc".to_vec());
    assert_eq!(r, "ba7816bf8f01cfea414140de5dae2223b00361a396177a9cb410ff61f20015ad");
}

#[test]
fn fingerprint_changes_with_one_byte() {
    let a = fingerprint_hex(&b"hello world".to_vec());
    let b = fingerprint_hex(&b"hello worle".to_vec());
    assert_ne!(a, b);
    assert_eq!(a.len(), 64);
    assert_eq!(b.len(), 64);
}

#[test]
fn parse_basic_rows() {
    let data = b"timestamp,cpu,host\n2024-01-01T00:00:00Z,42.5,node-1\n2024-01-01T00:00:01Z,43.0,node-2\n".to_vec();
    let records = parse_csv_dynamic(&data).unwrap();
    assert_eq!(records.len(), 2);
    assert_eq!(records[0].timestamp, "2024-01-01T00:00:00Z");
    assert_eq!(records[0].fields.len(), 2);
    assert_eq!(records[0].fields[0], ("cpu".to_string(), "42.5".to_string()));
    assert_eq!(records[0].fields[1], ("host".to_string(), "node-1".to_string()));
    assert_eq!(records[1].fields[1], ("host".to_string(), "node-2".to_string()));
}

#[test]
fn parse_drops_empty_timestamp_row() {
    let data = b"timestamp,cpu\n,1.0\n2024-01-01T00:00:00Z,2.0\n".to_vec();
    let records = parse_csv_dynamic(&data).unwrap();
    assert_eq!(records.len(), 1);
    assert_eq!(records[0].fields[0].1, "2.0");
}

#[test]
fn parse_without_timestamp_column_drops_all_rows() {
    let data = b"cpu,host\n1.0,a\n2.0,b\n".to_vec();
    let records = parse_csv_dynamic(&data).unwrap();
    assert_eq!(records.len(), 0);
}

#[test]
fn parse_duplicate_column_last_value_wins() {
    let data = b"timestamp,cpu,cpu\n2024-01-01T00:00:00Z,1.0,2.0\n".to_vec();
    let records = parse_csv_dynamic(&data).unwrap();
    assert_eq!(records.len(), 1);
    assert_eq!(records[0].fields, vec![("cpu".to_string(), "2.0".to_string())]);
}

#[test]
fn parse_malformed_row_fails_the_file() {
    let data = b"timestamp,cpu\n2024-01-01T00:00:00Z,1.0,extra\n".to_vec();
    let err = parse_csv_dynamic(&data).unwrap_err();
    assert_eq!(err, ImportError::DecodeError);
}

#[test]
fn numeric_literals_are_recognized() {
    assert!(is_numeric_text("42.5"));
    assert!(is_numeric_text("-1"));
    assert!(is_numeric_text("+0.5"));
    assert!(is_numeric_text(".5"));
    assert!(is_numeric_text("5."));
    assert!(is_numeric_text("1e9"));
    assert!(is_numeric_text("-2.5E-3"));
    assert!(is_numeric_text("inf"));
    assert!(is_numeric_text("-Infinity"));
    assert!(is_numeric_text("NaN"));
}

#[test]
fn non_numeric_text_is_rejected() {
    assert!(!is_numeric_text(""));
    assert!(!is_numeric_text("node-1"));
    assert!(!is_numeric_text("1.2.3"));
    assert!(!is_numeric_text("+"));
    assert!(!is_numeric_text("e5"));
    assert!(!is_numeric_text("."));
    assert!(!is_numeric_text("5e"));
    assert!(!is_numeric_text("4 2"));
    assert!(!is_numeric_text("0x10"));
}

#[test]
fn classifier_agrees_with_float_parsing() {
    for case in ["42.5", "node-1", "inf", "NaN", ".5", "5.", "1e9", "", "1.2.3", "+", "e5", "-2.5E-3", "0x10", "infinity"] {
        assert_eq!(
            is_numeric_text(case),
            case.parse::<f64>().is_ok(),
            "classification of {:?} disagrees with float parsing",
            case
        );
    }
}

#[test]
fn classify_returns_tagged_value() {
    match classify("42.5".to_string()) {
        FieldValue::Numeric(v) => assert_eq!(v, "42.5"),
        FieldValue::Label(_) => panic!("42.5 must classify as numeric"),
    }
    match classify("node-1".to_string()) {
        FieldValue::Label(v) => assert_eq!(v, "node-1"),
        FieldValue::Numeric(_) => panic!("node-1 must classify as a label"),
    }
}

#[test]
fn conversion_classifies_fields_and_tags() {
    let data = b"timestamp,cpu,host\n2024-01-01T00:00:00Z,42.5,node-1\n".to_vec();
    let records = parse_csv_dynamic(&data).unwrap();
    let w = record_to_write(&records[0], "stats", 0);
    assert_eq!(w.measurement, "stats");
    assert_eq!(w.numeric_fields, vec![("cpu".to_string(), "42.5".to_string())]);
    assert_eq!(w.tags, vec![("host".to_string(), "node-1".to_string())]);
    assert_eq!(w.timestamp, WriteTimestamp::Nanoseconds(1_704_067_200_000_000_000));
}

#[test]
fn conversion_falls_back_to_current_time() {
    let data = b"timestamp,cpu\nnot-a-date,1.5\n".to_vec();
    let records = parse_csv_dynamic(&data).unwrap();
    assert_eq!(records.len(), 1, "a malformed timestamp must not drop the record");
    let w = into_query(&records[0], "stats");
    match w.timestamp {
        WriteTimestamp::Nanoseconds(_) => {},
        WriteTimestamp::Seconds(_) => panic!("the fallback must use nanosecond precision"),
    }
    assert_eq!(w.numeric_fields, vec![("cpu".to_string(), "1.5".to_string())]);
}

#[test]
fn timestamp_resolution_from_parse_outcome() {
    assert_eq!(write_timestamp_from_parse(None, 123), WriteTimestamp::Nanoseconds(123));
    assert_eq!(
        write_timestamp_from_parse(Some((5, Some(5_000_000_000))), 123),
        WriteTimestamp::Nanoseconds(5_000_000_000)
    );
    assert_eq!(
        write_timestamp_from_parse(Some((5, None)), 123),
        WriteTimestamp::Seconds(5)
    );
}

#[test]
fn timestamp_with_offset_converts_to_utc() {
    let data = b"timestamp,v\n2024-01-01T01:00:00+01:00,1\n".to_vec();
    let records = parse_csv_dynamic(&data).unwrap();
    let w = record_to_write(&records[0], "m", 0);
    assert_eq!(w.timestamp, WriteTimestamp::Nanoseconds(1_704_067_200_000_000_000));
}

#[test]
fn far_future_timestamp_falls_back_to_seconds() {
    // An instant beyond the nanosecond-representable range keeps the record
    // at second precision instead of dropping it.
    let data = b"timestamp,v\n3000-01-01T00:00:00Z,1\n".to_vec();
    let records = parse_csv_dynamic(&data).unwrap();
    let w = record_to_write(&records[0], "m", 0);
    match w.timestamp {
        WriteTimestamp::Seconds(s) => assert!(s > 0),
        WriteTimestamp::Nanoseconds(_) => {
            panic!("an instant outside the nanosecond range must use second precision")
        }
    }
}

#[test]
fn cache_get_and_upsert() {
    let mut cache = IngestionCache::new();
    assert_eq!(cache.len(), 0);
    assert!(cache.get(&"a.csv".to_string()).is_none());
    cache.upsert(entry("a.csv", "h1", 10, 2));
    cache.upsert(entry("b.csv", "h2", 11, 3));
    assert_eq!(cache.len(), 2);
    let got = cache.get(&"a.csv".to_string()).unwrap();
    assert_eq!(got.hash, "h1");
    assert_eq!(got.records_count, 2);
    cache.upsert(entry("a.csv", "h3", 12, 5));
    assert_eq!(cache.len(), 2, "overwriting an entry must not add one");
    let got = cache.get(&"a.csv".to_string()).unwrap();
    assert_eq!(got.hash, "h3");
    assert_eq!(got.last_processed, 12);
}

#[test]
fn snapshot_round_trip_preserves_entries() {
    let mut cache = IngestionCache::new();
    cache.upsert(entry("data/a.csv", "aa11", 1_700_000_000_000_000_000, 7));
    cache.upsert(entry("data/with\nnewline.csv", "bb22", 2, 0));
    cache.upsert(entry("data/🗂.csv", "cc33", 3, 9));
    let text = cache.snapshot_text();
    let loaded = load_snapshot(&text).unwrap();
    assert_eq!(loaded.entries.len(), 3);
    for (a, b) in cache.entries.iter().zip(loaded.entries.iter()) {
        assert_eq!(a.path, b.path);
        assert_eq!(a.hash, b.hash);
        assert_eq!(a.last_processed, b.last_processed);
        assert_eq!(a.records_count, b.records_count);
    }
}

#[test]
fn save_after_load_is_byte_identical() {
    let mut cache = IngestionCache::new();
    cache.upsert(entry("x.csv", "e3b0", 42, 1));
    cache.upsert(entry("y.csv", "ffee", 43, 2));
    let text = cache.snapshot_text();
    let reloaded = load_snapshot(&text).unwrap();
    assert_eq!(reloaded.snapshot_text(), text);
}

#[test]
fn empty_text_loads_as_empty_mapping() {
    let cache = load_snapshot("").unwrap();
    assert_eq!(cache.entries.len(), 0);
    assert_eq!(cache.snapshot_text(), "");
}

#[test]
fn malformed_snapshot_is_a_fatal_startup_error() {
    assert_eq!(load_snapshot("not a snapshot").unwrap_err(), ImportError::FatalStartupError);
    assert_eq!(load_snapshot("0000000000000001").unwrap_err(), ImportError::FatalStartupError);
}

#[test]
fn scanner_skips_only_on_matching_fingerprint() {
    let cached = "aa".to_string();
    let same = "aa".to_string();
    let changed = "bb".to_string();
    assert_eq!(scan_decision(false, Some(&cached), Some(&same)), ScanAction::Skip);
    assert_eq!(scan_decision(false, Some(&cached), Some(&changed)), ScanAction::Enqueue);
    assert_eq!(scan_decision(false, None, Some(&same)), ScanAction::Enqueue);
    assert_eq!(scan_decision(false, Some(&cached), None), ScanAction::Enqueue);
}

#[test]
fn cache_backed_scan_check() {
    let mut cache = IngestionCache::new();
    cache.upsert(entry("a.csv", "h1", 1, 1));
    let path = "a.csv".to_string();
    let unknown = "b.csv".to_string();
    let same = "h1".to_string();
    let changed = "h2".to_string();
    assert_eq!(cache.scan_file_decision(false, &path, Some(&same)), ScanAction::Skip);
    assert_eq!(cache.scan_file_decision(false, &path, Some(&changed)), ScanAction::Enqueue);
    assert_eq!(cache.scan_file_decision(false, &path, None), ScanAction::Enqueue);
    assert_eq!(cache.scan_file_decision(false, &unknown, None), ScanAction::Enqueue);
    assert_eq!(cache.scan_file_decision(true, &path, Some(&same)), ScanAction::Enqueue);
}

#[test]
fn force_reprocesses_everything() {
    let cached = "aa".to_string();
    let same = "aa".to_string();
    assert_eq!(scan_decision(true, Some(&cached), Some(&same)), ScanAction::Enqueue);
    assert_eq!(scan_decision(true, None, None), ScanAction::Enqueue);
}

#[test]
fn second_run_skips_unchanged_files() {
    // First run: the file is new, gets processed, and its entry is recorded.
    let mut cache = IngestionCache::new();
    let content = b"timestamp,v\n2024-01-01T00:00:00Z,1\n".to_vec();
    let path = "a.csv".to_string();
    let hash = fingerprint_hex(&content);
    assert_eq!(
        scan_decision(false, cache.get(&path).map(|e| &e.hash), Some(&hash)),
        ScanAction::Enqueue
    );
    cache.upsert(CacheEntry {
        path: path.clone(),
        hash: hash.clone(),
        last_processed: 1,
        records_count: 1,
    });
    // Second run over the unchanged file: the recomputed fingerprint matches.
    let rehash = fingerprint_hex(&content);
    assert_eq!(
        scan_decision(false, cache.get(&path).map(|e| &e.hash), Some(&rehash)),
        ScanAction::Skip
    );
    // One changed byte forces reprocessing of exactly that file.
    let mutated = b"timestamp,v\n2024-01-01T00:00:00Z,2\n".to_vec();
    let mutated_hash = fingerprint_hex(&mutated);
    assert_eq!(
        scan_decision(false, cache.get(&path).map(|e| &e.hash), Some(&mutated_hash)),
        ScanAction::Enqueue
    );
}

#[test]
fn statistics_accumulate() {
    let mut stats = ImportStats::new();
    stats.add_files_found(3);
    stats.add_files_skipped(1);
    stats.add_files_processed(2);
    stats.add_records_processed(10);
    stats.add_write_results(9, 1);
    assert_eq!(stats.files_found, 3);
    assert_eq!(stats.files_skipped, 1);
    assert_eq!(stats.files_processed, 2);
    assert_eq!(stats.records_processed, 10);
    assert_eq!(stats.successful_inserts, 9);
    assert_eq!(stats.failed_inserts, 1);
}

#[test]
fn coordinator_advances_in_order() {
    let s0 = PipelineState::Scanning;
    let s1 = step(s0, PipelineEvent::ScanFinished);
    assert_eq!(s1, PipelineState::DrainingParser);
    let s2 = step(s1, PipelineEvent::ParserComplete);
    assert_eq!(s2, PipelineState::DrainingWriter);
    let s3 = step(s2, PipelineEvent::WriterComplete);
    assert_eq!(s3, PipelineState::Done);
}

#[test]
fn coordinator_ignores_out_of_order_signals() {
    assert_eq!(
        step(PipelineState::Scanning, PipelineEvent::WriterComplete),
        PipelineState::Scanning
    );
    assert_eq!(
        step(PipelineState::Scanning, PipelineEvent::ParserComplete),
        PipelineState::Scanning
    );
    assert_eq!(
        step(PipelineState::DrainingParser, PipelineEvent::WriterComplete),
        PipelineState::DrainingParser
    );
}

#[test]
fn queue_applies_backpressure_at_capacity_one() {
    let mut q: BoundedQueue<String> = BoundedQueue::new(1);
    assert_eq!(q.len(), 0);
    assert!(q.try_enqueue("a.csv".to_string()).is_ok());
    assert_eq!(q.len(), 1);
    // The queue is full: the producer is held back and keeps its item.
    let refused = q.try_enqueue("b.csv".to_string());
    assert_eq!(refused.unwrap_err(), "b.csv");
    assert_eq!(q.len(), 1, "a full queue must not grow");
    // The slow consumer takes one; the producer's retry now succeeds.
    assert_eq!(q.dequeue().unwrap(), "a.csv");
    assert!(q.try_enqueue("b.csv".to_string()).is_ok());
    assert_eq!(q.dequeue().unwrap(), "b.csv");
    assert!(q.dequeue().is_none());
}
