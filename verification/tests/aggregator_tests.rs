use logpeaks::peaks::{BucketEntry, PeaksAggregator, RenderRow};
use logpeaks::round_floor::BucketWidth;
use logpeaks::severity::Severity;

fn minute() -> BucketWidth {
    BucketWidth { secs: 60, nanos: 0 }
}
const T: i128 = 123_000_000_000;
const SEC: i128 = 1_000_000_000;

#[test]
fn three_errors_two_buckets() {
    // Three ERROR events at T, T+10s, T+70s with a 60 s bucket width:
    // two land in floor(T, 60 s), one in the following bucket.
    let mut agg = PeaksAggregator::new(minute());
    agg.update(Severity::Error, T);
    agg.update(Severity::Error, T + 10 * SEC);
    agg.update(Severity::Error, T + 70 * SEC);
    let rows = agg.render();
    assert_eq!(
        rows,
        vec![
            RenderRow { severity: Severity::Error, bucket_nanos: 120 * SEC, count: 2 },
            RenderRow { severity: Severity::Error, bucket_nanos: 180 * SEC, count: 1 },
        ]
    );
}

#[test]
fn split_and_merge_equals_sequential() {
    let mut whole = PeaksAggregator::new(minute());
    whole.update(Severity::Error, T);
    whole.update(Severity::Error, T + 10 * SEC);
    whole.update(Severity::Error, T + 70 * SEC);

    let mut first = PeaksAggregator::new(minute());
    first.update(Severity::Error, T);
    first.update(Severity::Error, T + 10 * SEC);
    let mut second = PeaksAggregator::new(minute());
    second.update(Severity::Error, T + 70 * SEC);

    first.merge(&second);
    assert_eq!(first.render(), whole.render());
}

#[test]
fn merge_is_commutative_and_associative_on_values() {
    let mut a = PeaksAggregator::new(minute());
    a.update(Severity::Error, T);
    let mut b = PeaksAggregator::new(minute());
    b.update(Severity::Error, T + 10 * SEC);
    b.update(Severity::Error, T + 70 * SEC);
    let mut c = PeaksAggregator::new(minute());
    c.update(Severity::Error, T + 130 * SEC);

    // ((a + b) + c)
    let mut left = a.clone();
    left.merge(&b);
    left.merge(&c);
    // (a + (b + c))
    let mut right = a.clone();
    let mut bc = b.clone();
    bc.merge(&c);
    right.merge(&bc);
    // (c + (a + b))
    let mut swapped = c.clone();
    let mut ab = a.clone();
    ab.merge(&b);
    swapped.merge(&ab);

    assert_eq!(left.render(), right.render());
    assert_eq!(left.render(), swapped.render());
}

#[test]
fn warning_under_errors_only_policy_is_a_no_op() {
    let mut agg = PeaksAggregator::new(minute());
    let before = agg.render();
    agg.update(Severity::Warning, T);
    assert_eq!(agg.render(), before);
    assert_eq!(agg.render(), vec![]);
}

#[test]
fn watched_severity_is_configurable() {
    let mut agg = PeaksAggregator::new_tracking(minute(), Severity::Warning);
    agg.update(Severity::Warning, T);
    agg.update(Severity::Error, T);
    let rows = agg.render();
    assert_eq!(
        rows,
        vec![RenderRow { severity: Severity::Warning, bucket_nanos: 120 * SEC, count: 1 }]
    );
}

#[test]
fn render_is_idempotent() {
    let mut agg = PeaksAggregator::new(minute());
    agg.update(Severity::Error, T);
    agg.update(Severity::Error, T + 70 * SEC);
    let once = agg.render();
    let twice = agg.render();
    assert_eq!(once, twice);
}

#[test]
fn clone_is_independent_with_identical_state() {
    let mut agg = PeaksAggregator::new(minute());
    agg.update(Severity::Error, T);
    let snapshot = agg.clone();
    assert_eq!(snapshot.render(), agg.render());
    agg.update(Severity::Error, T);
    assert_ne!(snapshot.render(), agg.render());
}

#[test]
fn counters_saturate_instead_of_wrapping() {
    let mut agg = PeaksAggregator {
        interval_nanos: 60 * SEC,
        watched: Severity::Error,
        entries: vec![BucketEntry { bucket: 0, count: u64::MAX - 1 }],
    };
    agg.update(Severity::Error, 5);
    agg.update(Severity::Error, 6);
    let rows = agg.render();
    assert_eq!(
        rows,
        vec![RenderRow { severity: Severity::Error, bucket_nanos: 0, count: u64::MAX }]
    );

    let other = PeaksAggregator {
        interval_nanos: 60 * SEC,
        watched: Severity::Error,
        entries: vec![BucketEntry { bucket: 0, count: 7 }],
    };
    agg.merge(&other);
    assert_eq!(agg.render()[0].count, u64::MAX);
}

#[test]
fn buckets_render_sorted_by_start() {
    let mut agg = PeaksAggregator::new(minute());
    agg.update(Severity::Error, T + 700 * SEC);
    agg.update(Severity::Error, T);
    agg.update(Severity::Error, T + 70 * SEC);
    let rows = agg.render();
    let starts: Vec<i128> = rows.iter().map(|r| r.bucket_nanos).collect();
    assert_eq!(starts, vec![120 * SEC, 180 * SEC, 780 * SEC]);
}
