use logpeaks::parsers::{filter_record, process_records, FilterConfig, FilterOutcome, RawRecord};
use logpeaks::peaks::{PeaksAggregator, RenderRow};
use logpeaks::round_floor::BucketWidth;
use logpeaks::severity::Severity;

const SEC: i128 = 1_000_000_000;

fn minute_agg() -> PeaksAggregator {
    PeaksAggregator::new(BucketWidth { secs: 60, nanos: 0 })
}

fn open_config(min_severity: i32) -> FilterConfig {
    FilterConfig { min_severity, mask: None, begin: None, end: None }
}

fn row(token: &str, t: Option<i128>) -> RawRecord {
    RawRecord::Row { severity_token: token.to_string(), time_nanos: t, raw: String::new() }
}

#[test]
fn one_bad_severity_among_ten_does_not_fail_the_run() {
    // Nine well-formed ERROR records and one with an unparseable severity
    // token: nine aggregated, one UnknownSeverity diagnostic.
    let mut records: Vec<RawRecord> = Vec::new();
    for i in 0..9 {
        records.push(row("ERROR", Some(i as i128 * SEC)));
    }
    records.insert(4, row("ERRR", Some(3 * SEC)));
    let mut agg = minute_agg();
    let stats = process_records(&records, &open_config(0), &mut agg);
    assert_eq!(stats.aggregated, 9);
    assert_eq!(stats.unknown_severity, 1);
    assert_eq!(stats.rejected, 0);
    assert_eq!(stats.malformed, 0);
    assert_eq!(stats.unreadable, 0);
    assert_eq!(
        agg.render(),
        vec![RenderRow { severity: Severity::Error, bucket_nanos: 0, count: 9 }]
    );
}

#[test]
fn raising_min_severity_never_admits_more() {
    let records: Vec<RawRecord> = vec![
        row("DEBUG", Some(SEC)),
        row("INFO", Some(SEC)),
        row("WARNING", Some(SEC)),
        row("ERROR", Some(SEC)),
        row("FATAL", Some(SEC)),
    ];
    let mut admitted: Vec<usize> = Vec::new();
    for min in 0..8 {
        let mut agg = minute_agg();
        let stats = process_records(&records, &open_config(min), &mut agg);
        admitted.push(stats.aggregated);
    }
    for w in admitted.windows(2) {
        assert!(w[1] <= w[0]);
    }
    assert_eq!(admitted[0], 5);
    assert_eq!(admitted[5], 2);
    assert_eq!(admitted[7], 0);
}

#[test]
fn mask_is_an_exact_prefix_match() {
    let cfg = |mask: Option<&str>| FilterConfig {
        min_severity: 0,
        mask: mask.map(|m| m.to_string()),
        begin: None,
        end: None,
    };
    // A mask retains a record only if the severity token starts with it.
    let r = filter_record(&cfg(Some("ERR")), "ERROR", Some(SEC), String::new());
    assert!(matches!(r, FilterOutcome::Admitted(_)));
    let r = filter_record(&cfg(Some("WARN")), "ERROR", Some(SEC), String::new());
    assert!(matches!(r, FilterOutcome::Rejected));
    // Substring but not prefix: rejected.
    let r = filter_record(&cfg(Some("RROR")), "ERROR", Some(SEC), String::new());
    assert!(matches!(r, FilterOutcome::Rejected));
    // An empty mask admits everything.
    let r = filter_record(&cfg(Some("")), "ERROR", Some(SEC), String::new());
    assert!(matches!(r, FilterOutcome::Admitted(_)));
    // A mask longer than the token always rejects.
    let r = filter_record(&cfg(Some("ERRORX")), "ERROR", Some(SEC), String::new());
    assert!(matches!(r, FilterOutcome::Rejected));
}

#[test]
fn time_range_bounds_are_inclusive() {
    let cfg = FilterConfig {
        min_severity: 0,
        mask: None,
        begin: Some(10 * SEC),
        end: Some(20 * SEC),
    };
    let admitted = |t: i128| {
        matches!(
            filter_record(&cfg, "ERROR", Some(t), String::new()),
            FilterOutcome::Admitted(_)
        )
    };
    assert!(!admitted(10 * SEC - 1));
    assert!(admitted(10 * SEC));
    assert!(admitted(15 * SEC));
    assert!(admitted(20 * SEC));
    assert!(!admitted(20 * SEC + 1));
}

#[test]
fn record_without_timestamp_is_never_excluded_by_time_range() {
    let cfg = FilterConfig {
        min_severity: 0,
        mask: None,
        begin: Some(10 * SEC),
        end: Some(20 * SEC),
    };
    let r = filter_record(&cfg, "ERROR", None, String::new());
    match r {
        FilterOutcome::Admitted(line) => {
            assert_eq!(line.severity, Severity::Error);
            assert_eq!(line.time_nanos, None);
        },
        _ => panic!("a record lacking a timestamp must pass the time-range filter"),
    }
    // It is admitted, yet contributes to no time bucket.
    let records: Vec<RawRecord> = vec![row("ERROR", None)];
    let mut agg = minute_agg();
    let stats = process_records(&records, &cfg, &mut agg);
    assert_eq!(stats.aggregated, 1);
    assert_eq!(agg.render(), vec![]);
}

#[test]
fn unreadable_and_malformed_records_are_counted_and_skipped() {
    let records: Vec<RawRecord> = vec![
        RawRecord::Unreadable,
        row("ERROR", Some(SEC)),
        RawRecord::Malformed,
        RawRecord::Malformed,
    ];
    let mut agg = minute_agg();
    let stats = process_records(&records, &open_config(0), &mut agg);
    assert_eq!(stats.unreadable, 1);
    assert_eq!(stats.malformed, 2);
    assert_eq!(stats.aggregated, 1);
    assert_eq!(
        agg.render(),
        vec![RenderRow { severity: Severity::Error, bucket_nanos: 0, count: 1 }]
    );
}

#[test]
fn unknown_severity_is_reported_through_filter_record() {
    let r = filter_record(&open_config(0), "BOGUS", Some(SEC), String::new());
    match r {
        FilterOutcome::Failed(e) => {
            assert_eq!(e, logpeaks::errors::ParseError::UnknownSeverity);
        },
        _ => panic!("an unrecognized severity token must be a per-record error"),
    }
}

#[test]
fn sharded_processing_merges_to_the_sequential_result() {
    let mut records: Vec<RawRecord> = Vec::new();
    for i in 0..30 {
        let token = if i % 3 == 0 { "ERROR" } else { "WARNING" };
        records.push(row(token, Some(i as i128 * 7 * SEC)));
    }
    let cfg = open_config(0);

    let mut whole = minute_agg();
    process_records(&records, &cfg, &mut whole);

    let shard_a: Vec<RawRecord> = records[..11]
        .iter()
        .map(|r| match r {
            RawRecord::Row { severity_token, time_nanos, raw } => RawRecord::Row {
                severity_token: severity_token.clone(),
                time_nanos: *time_nanos,
                raw: raw.clone(),
            },
            RawRecord::Unreadable => RawRecord::Unreadable,
            RawRecord::Malformed => RawRecord::Malformed,
        })
        .collect();
    let shard_b: Vec<RawRecord> = records.drain(11..).collect();

    let mut agg_a = minute_agg();
    process_records(&shard_a, &cfg, &mut agg_a);
    let mut agg_b = minute_agg();
    process_records(&shard_b, &cfg, &mut agg_b);
    agg_a.merge(&agg_b);
    assert_eq!(agg_a.render(), whole.render());
}
