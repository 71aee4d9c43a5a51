//! The peaks aggregator: per-time-bucket event counts for one watched
//! severity, with a merge operation for combining partial results.
//!
//! The state is kept as a vector of bucket entries sorted strictly by
//! bucket start; its mathematical model is a map from bucket start to a
//! saturating counter. Merging is the pointwise saturating sum over the
//! union of bucket keys, which is commutative and associative, so input
//! streams may be partitioned arbitrarily across workers and the partial
//! results combined in any order.

use vstd::prelude::*;
use crate::round_floor::{spec_floor_to_bucket, floor_to_bucket, duration_to_nanos, BucketWidth};
use crate::severity::Severity;

verus! {

/// One bucket's event count.
#[derive(Clone, Copy, PartialEq, Eq, Structural, Debug)]
pub struct BucketEntry {
    pub bucket: i128,
    pub count: u64,
}

/// One line of a rendered report.
#[derive(Clone, Copy, PartialEq, Eq, Structural, Debug)]
pub struct RenderRow {
    pub severity: Severity,
    pub bucket_nanos: i128,
    pub count: u64,
}

/// One log event, reduced to what aggregation reads.
#[derive(Clone, Copy, PartialEq, Eq, Structural, Debug)]
pub struct LogEvent {
    pub severity: Severity,
    pub time_nanos: i128,
}

pub open spec fn entries_sorted(s: Seq<BucketEntry>) -> bool {
    forall|i: int, j: int| 0 <= i < j < s.len() ==> s[i].bucket < s[j].bucket
}

pub open spec fn has_bucket(s: Seq<BucketEntry>, k: int) -> bool {
    exists|i: int| 0 <= i < s.len() && s[i].bucket == k
}

pub open spec fn count_for(s: Seq<BucketEntry>, k: int) -> u64 {
    let i = choose|i: int| 0 <= i < s.len() && s[i].bucket == k;
    s[i].count
}

/// The map a sorted entry sequence stands for.
pub open spec fn entries_map(s: Seq<BucketEntry>) -> Map<int, u64> {
    Map::new(|k: int| has_bucket(s, k), |k: int| count_for(s, k))
}

/// Saturating addition of two counters: a capped count is observably
/// capped, where a wrapped one would silently corrupt the statistics.
pub open spec fn sat_add(a: u64, b: u64) -> u64 {
    if a + b > u64::MAX {
        u64::MAX
    } else {
        (a + b) as u64
    }
}

/// A map's count at a key, with absent keys counting zero.
pub open spec fn count_at(m: Map<int, u64>, k: int) -> u64 {
    if m.dom().contains(k) {
        m[k]
    } else {
        0
    }
}

/// Pointwise saturating sum over the union of bucket keys: the model of
/// `merge`.
pub open spec fn sum_counts(a: Map<int, u64>, b: Map<int, u64>) -> Map<int, u64> {
    Map::new(
        |k: int| a.dom().contains(k) || b.dom().contains(k),
        |k: int| sat_add(count_at(a, k), count_at(b, k)),
    )
}

/// One more event in bucket `k`: the model of `update`.
pub open spec fn bump(m: Map<int, u64>, k: int) -> Map<int, u64> {
    m.insert(k, sat_add(count_at(m, k), 1))
}

/// What one record does to the counts: events of the watched severity land
/// in their time bucket, all others leave the state unchanged.
pub open spec fn spec_update_counts(
    m: Map<int, u64>,
    watched: Severity,
    w: int,
    sev: Severity,
    t: int,
) -> Map<int, u64> {
    if sev == watched {
        bump(m, spec_floor_to_bucket(t, w))
    } else {
        m
    }
}

/// The counts after a whole event stream, oldest first.
pub open spec fn fold_updates(
    m: Map<int, u64>,
    watched: Severity,
    w: int,
    evs: Seq<LogEvent>,
) -> Map<int, u64>
    decreases evs.len(),
{
    if evs.len() == 0 {
        m
    } else {
        spec_update_counts(
            fold_updates(m, watched, w, evs.drop_last()),
            watched,
            w,
            evs.last().severity,
            evs.last().time_nanos as int,
        )
    }
}

/// At an index of a sorted entry sequence, the map agrees with the entry.
proof fn lemma_count_at_index(s: Seq<BucketEntry>, i: int)
    requires
        entries_sorted(s),
        0 <= i < s.len(),
    ensures
        entries_map(s).dom().contains(s[i].bucket as int),
        entries_map(s)[s[i].bucket as int] == s[i].count,
{
    let k = s[i].bucket;
    assert(has_bucket(s, k as int));
    let j = choose|j: int| 0 <= j < s.len() && s[j].bucket == k;
    if i < j {
        assert(s[i].bucket < s[j].bucket);
    } else if j < i {
        assert(s[j].bucket < s[i].bucket);
    }
}

/// Replacing the count at one index updates the map at that entry's key.
proof fn lemma_entries_map_update(s: Seq<BucketEntry>, i: int, c: u64)
    requires
        entries_sorted(s),
        0 <= i < s.len(),
    ensures
        entries_sorted(s.update(i, BucketEntry { bucket: s[i].bucket, count: c })),
        entries_map(s.update(i, BucketEntry { bucket: s[i].bucket, count: c }))
            == entries_map(s).insert(s[i].bucket as int, c),
{
    let e = BucketEntry { bucket: s[i].bucket, count: c };
    let s2 = s.update(i, e);
    assert(entries_sorted(s2));
    let m2 = entries_map(s2);
    let mt = entries_map(s).insert(s[i].bucket as int, c);
    assert forall|k: int| has_bucket(s2, k) implies has_bucket(s, k) by {
        let j = choose|j: int| 0 <= j < s2.len() && s2[j].bucket == k;
        assert(s[j].bucket == k);
    };
    assert forall|k: int| has_bucket(s, k) implies has_bucket(s2, k) by {
        let j = choose|j: int| 0 <= j < s.len() && s[j].bucket == k;
        assert(s2[j].bucket == k);
    };
    assert forall|k: int| m2.dom().contains(k) implies m2[k] == mt[k] by {
        if k == s[i].bucket {
            lemma_count_at_index(s2, i);
        } else {
            let j = choose|j: int| 0 <= j < s.len() && s[j].bucket == k;
            assert(s2[j].bucket == k);
            lemma_count_at_index(s2, j);
            lemma_count_at_index(s, j);
        }
    };
    assert(m2 =~= mt);
}

/// Inserting an entry at its sorted position inserts its key in the map.
proof fn lemma_entries_map_insert(s: Seq<BucketEntry>, i: int, e: BucketEntry)
    requires
        entries_sorted(s),
        0 <= i <= s.len(),
        forall|j: int| 0 <= j < i ==> s[j].bucket < e.bucket,
        forall|j: int| i <= j < s.len() ==> s[j].bucket > e.bucket,
    ensures
        entries_sorted(s.insert(i, e)),
        entries_map(s.insert(i, e)) == entries_map(s).insert(e.bucket as int, e.count),
{
    let s2 = s.insert(i, e);
    s.insert_ensures(i, e);
    assert forall|a: int, b: int| 0 <= a < b < s2.len() implies s2[a].bucket < s2[b].bucket by {
        if a < i && b < i {
            assert(s2[a] == s[a] && s2[b] == s[b]);
        } else if a < i && b == i {
            assert(s2[a] == s[a]);
        } else if a < i && b > i {
            assert(s2[a] == s[a] && s2[b] == s[b - 1]);
            assert(s[a].bucket < e.bucket);
            assert(s[b - 1].bucket > e.bucket);
        } else if a == i && b > i {
            assert(s2[b] == s[b - 1]);
        } else {
            assert(s2[a] == s[a - 1] && s2[b] == s[b - 1]);
        }
    };
    let m2 = entries_map(s2);
    let mt = entries_map(s).insert(e.bucket as int, e.count);
    assert forall|k: int| has_bucket(s2, k) implies (has_bucket(s, k) || k == e.bucket) by {
        let j = choose|j: int| 0 <= j < s2.len() && s2[j].bucket == k;
        if j < i {
            assert(s[j].bucket == k);
        } else if j > i {
            assert(s[j - 1].bucket == k);
        }
    };
    assert forall|k: int| has_bucket(s, k) || k == e.bucket implies has_bucket(s2, k) by {
        if k == e.bucket {
            assert(s2[i].bucket == k);
        } else {
            let j = choose|j: int| 0 <= j < s.len() && s[j].bucket == k;
            if j < i {
                assert(s2[j].bucket == k);
            } else {
                assert(s2[j + 1].bucket == k);
            }
        }
    };
    assert forall|k: int| m2.dom().contains(k) implies m2[k] == mt[k] by {
        if k == e.bucket {
            lemma_count_at_index(s2, i);
        } else {
            let j = choose|j: int| 0 <= j < s.len() && s[j].bucket == k;
            lemma_count_at_index(s, j);
            if j < i {
                assert(s2[j].bucket == k);
                lemma_count_at_index(s2, j);
            } else {
                assert(s2[j + 1].bucket == k);
                lemma_count_at_index(s2, j + 1);
            }
        }
    };
    assert(m2 =~= mt);
}

/// A sorted prefix grows by one entry whose key is fresh for the prefix.
proof fn lemma_take_step(s: Seq<BucketEntry>, i: int)
    requires
        entries_sorted(s),
        0 <= i < s.len(),
    ensures
        entries_sorted(s.take(i)),
        !has_bucket(s.take(i), s[i].bucket as int),
        entries_map(s.take(i + 1)) == entries_map(s.take(i)).insert(s[i].bucket as int, s[i].count),
{
    assert(entries_sorted(s.take(i)));
    assert forall|j: int| 0 <= j < s.take(i).len() implies s.take(i)[j].bucket < s[i].bucket by {
        assert(s[j].bucket < s[i].bucket);
    };
    assert(s.take(i + 1) =~= s.take(i).insert(i, s[i])) by {
        s.take(i).insert_ensures(i, s[i]);
    };
    lemma_entries_map_insert(s.take(i), i, s[i]);
}

/// Summing with the empty partial result changes nothing.
pub proof fn lemma_sum_counts_empty(a: Map<int, u64>)
    ensures
        sum_counts(a, Map::<int, u64>::empty()) == a,
{
    assert(sum_counts(a, Map::<int, u64>::empty()) =~= a);
}

/// Adding a key that is fresh in `b` to `b` adds it to the pointwise sum.
proof fn lemma_sum_counts_insert_fresh(a: Map<int, u64>, b: Map<int, u64>, k: int, c: u64)
    requires
        !b.dom().contains(k),
    ensures
        sum_counts(a, b.insert(k, c))
            == sum_counts(a, b).insert(k, sat_add(count_at(sum_counts(a, b), k), c)),
{
    assert(count_at(sum_counts(a, b), k) == count_at(a, k));
    assert(sum_counts(a, b.insert(k, c))
        =~= sum_counts(a, b).insert(k, sat_add(count_at(sum_counts(a, b), k), c)));
}

/// Merging partial results is commutative.
pub proof fn lemma_sum_counts_commutative(a: Map<int, u64>, b: Map<int, u64>)
    ensures
        sum_counts(a, b) == sum_counts(b, a),
{
    assert(sum_counts(a, b) =~= sum_counts(b, a));
}

/// Merging partial results is associative.
pub proof fn lemma_sum_counts_associative(a: Map<int, u64>, b: Map<int, u64>, c: Map<int, u64>)
    ensures
        sum_counts(sum_counts(a, b), c) == sum_counts(a, sum_counts(b, c)),
{
    assert(sum_counts(sum_counts(a, b), c) =~= sum_counts(a, sum_counts(b, c)));
}

/// An update on one partial result commutes with merging it into another.
proof fn lemma_sum_update_right(
    a: Map<int, u64>,
    b: Map<int, u64>,
    watched_sev: Severity,
    w: int,
    sev: Severity,
    t: int,
)
    ensures
        spec_update_counts(sum_counts(a, b), watched_sev, w, sev, t)
            == sum_counts(a, spec_update_counts(b, watched_sev, w, sev, t)),
{
    if sev == watched_sev {
        let k = spec_floor_to_bucket(t, w);
        assert(bump(sum_counts(a, b), k) =~= sum_counts(a, bump(b, k)));
    }
}

/// Merge matches sequential processing: aggregating a stream split into two
/// ordered sub-streams independently and summing the partial counts gives
/// the counts of processing the whole stream in order.
pub proof fn lemma_merge_matches_sequential(
    watched_sev: Severity,
    w: int,
    s1: Seq<LogEvent>,
    s2: Seq<LogEvent>,
)
    ensures
        fold_updates(Map::<int, u64>::empty(), watched_sev, w, s1 + s2) == sum_counts(
            fold_updates(Map::<int, u64>::empty(), watched_sev, w, s1),
            fold_updates(Map::<int, u64>::empty(), watched_sev, w, s2),
        ),
    decreases s2.len(),
{
    let empty = Map::<int, u64>::empty();
    if s2.len() == 0 {
        assert(s1 + s2 =~= s1);
        lemma_sum_counts_empty(fold_updates(empty, watched_sev, w, s1));
    } else {
        let s2p = s2.drop_last();
        let e = s2.last();
        lemma_merge_matches_sequential(watched_sev, w, s1, s2p);
        assert((s1 + s2).drop_last() =~= s1 + s2p);
        assert((s1 + s2).last() == e);
        lemma_sum_update_right(
            fold_updates(empty, watched_sev, w, s1),
            fold_updates(empty, watched_sev, w, s2p),
            watched_sev,
            w,
            e.severity,
            e.time_nanos as int,
        );
    }
}

/// A stream may be partitioned into three ordered sub-streams, each
/// aggregated independently, and the partial counts merged in any order:
/// every grouping gives the counts of sequential processing.
pub proof fn lemma_partition_any_order(
    watched_sev: Severity,
    w: int,
    s1: Seq<LogEvent>,
    s2: Seq<LogEvent>,
    s3: Seq<LogEvent>,
)
    ensures
        ({
            let f1 = fold_updates(Map::<int, u64>::empty(), watched_sev, w, s1);
            let f2 = fold_updates(Map::<int, u64>::empty(), watched_sev, w, s2);
            let f3 = fold_updates(Map::<int, u64>::empty(), watched_sev, w, s3);
            let whole = fold_updates(Map::<int, u64>::empty(), watched_sev, w, (s1 + s2) + s3);
            whole == sum_counts(sum_counts(f1, f2), f3)
                && whole == sum_counts(f1, sum_counts(f2, f3))
                && whole == sum_counts(f3, sum_counts(f1, f2))
        }),
{
    let f1 = fold_updates(Map::<int, u64>::empty(), watched_sev, w, s1);
    let f2 = fold_updates(Map::<int, u64>::empty(), watched_sev, w, s2);
    let f3 = fold_updates(Map::<int, u64>::empty(), watched_sev, w, s3);
    lemma_merge_matches_sequential(watched_sev, w, s1 + s2, s3);
    lemma_merge_matches_sequential(watched_sev, w, s1, s2);
    lemma_sum_counts_associative(f1, f2, f3);
    lemma_sum_counts_commutative(sum_counts(f1, f2), f3);
}

/// Finds the sorted slot of `bucket`: the index of its entry if present,
/// else where an entry for it would be inserted.
fn find_slot(entries: &Vec<BucketEntry>, bucket: i128) -> (i: usize)
    requires
        entries_sorted(entries@),
    ensures
        i <= entries@.len(),
        forall|j: int| 0 <= j < i ==> entries@[j].bucket < bucket,
        i < entries@.len() ==> entries@[i as int].bucket >= bucket,
{
    let n = entries.len();
    let mut i: usize = 0;
    while i < n
        invariant
            i <= n,
            n == entries@.len(),
            forall|j: int| 0 <= j < i ==> entries@[j].bucket < bucket,
        decreases n - i,
    {
        if entries[i].bucket >= bucket {
            return i;
        }
        i = i + 1;
    }
    i
}

/// The peaks aggregation strategy: counts events of one watched severity
/// per epoch-aligned time bucket. The reference policy tracks `Error`
/// events only; the watched severity is configurable at construction.
#[derive(Debug)]
pub struct PeaksAggregator {
    pub interval_nanos: i128,
    pub watched: Severity,
    pub entries: Vec<BucketEntry>,
}

impl PeaksAggregator {
    /// The structural invariant: a positive bucket width, and entries
    /// sorted strictly by bucket start.
    pub open spec fn wf(self) -> bool {
        &&& self.interval_nanos > 0
        &&& entries_sorted(self.entries@)
    }

    pub open spec fn interval_spec(self) -> int {
        self.interval_nanos as int
    }

    pub open spec fn watched_spec(self) -> Severity {
        self.watched
    }

    /// The mathematical state: bucket start to saturating event count.
    pub open spec fn counts(self) -> Map<int, u64> {
        entries_map(self.entries@)
    }

    /// The rendered report: one row per watched bucket, in bucket order.
    pub open spec fn spec_render(self) -> Seq<RenderRow> {
        Seq::new(
            self.entries@.len(),
            |i: int| RenderRow {
                severity: self.watched,
                bucket_nanos: self.entries@[i].bucket,
                count: self.entries@[i].count,
            },
        )
    }

    /// An empty aggregator for the reference policy: `Error` events only.
    pub fn new(interval: BucketWidth) -> (r: PeaksAggregator)
        requires
            interval.as_nanos_spec() > 0,
        ensures
            r.wf(),
            r.interval_spec() == interval.as_nanos_spec(),
            r.watched_spec() == Severity::Error,
            r.counts() == Map::<int, u64>::empty(),
    {
        PeaksAggregator::new_tracking(interval, Severity::Error)
    }

    /// An empty aggregator that tracks a chosen severity.
    pub fn new_tracking(interval: BucketWidth, watched: Severity) -> (r: PeaksAggregator)
        requires
            interval.as_nanos_spec() > 0,
        ensures
            r.wf(),
            r.interval_spec() == interval.as_nanos_spec(),
            r.watched_spec() == watched,
            r.counts() == Map::<int, u64>::empty(),
    {
        let r = PeaksAggregator {
            interval_nanos: duration_to_nanos(&interval),
            watched,
            entries: Vec::new(),
        };
        proof {
            assert(r.counts() =~= Map::<int, u64>::empty());
        }
        r
    }

    /// Adds `c` events (saturating) to the bucket starting at `bucket`.
    fn add_count(&mut self, bucket: i128, c: u64)
        requires
            old(self).wf(),
        ensures
            final(self).wf(),
            final(self).interval_nanos == old(self).interval_nanos,
            final(self).watched == old(self).watched,
            final(self).counts() == old(self).counts().insert(
                bucket as int,
                sat_add(count_at(old(self).counts(), bucket as int), c),
            ),
    {
        let i = find_slot(&self.entries, bucket);
        if i < self.entries.len() && self.entries[i].bucket == bucket {
            let cur = self.entries[i].count;
            let e = BucketEntry { bucket, count: cur.saturating_add(c) };
            proof {
                lemma_count_at_index(self.entries@, i as int);
                lemma_entries_map_update(self.entries@, i as int, sat_add(cur, c));
            }
            self.entries.set(i, e);
        } else {
            proof {
                lemma_entries_map_insert(
                    self.entries@,
                    i as int,
                    BucketEntry { bucket, count: c },
                );
                assert(!has_bucket(self.entries@, bucket as int)) by {
                    if has_bucket(self.entries@, bucket as int) {
                        let j = choose|j: int|
                            0 <= j < self.entries@.len() && self.entries@[j].bucket == bucket;
                        if j < i {
                            assert(self.entries@[j].bucket < bucket);
                        } else {
                            assert(self.entries@[i as int].bucket < self.entries@[j].bucket
                                || i as int == j);
                        }
                    }
                };
            }
            self.entries.insert(i, BucketEntry { bucket, count: c });
        }
    }

    /// Incorporates one record. An event of the watched severity is counted
    /// in the bucket its timestamp floors to; any other severity leaves the
    /// state unchanged. The lower bound on the timestamp is what the
    /// machine integer forces on bucket starts.
    pub fn update(&mut self, severity: Severity, time_nanos: i128)
        requires
            old(self).wf(),
            time_nanos - (old(self).interval_spec() - 1) >= i128::MIN,
        ensures
            final(self).wf(),
            final(self).interval_spec() == old(self).interval_spec(),
            final(self).watched_spec() == old(self).watched_spec(),
            final(self).counts() == spec_update_counts(
                old(self).counts(),
                old(self).watched_spec(),
                old(self).interval_spec(),
                severity,
                time_nanos as int,
            ),
    {
        if severity == self.watched {
            let bucket = floor_to_bucket(time_nanos, self.interval_nanos);
            self.add_count(bucket, 1);
        }
    }

    /// Combines another partial result of the same shape into this one:
    /// the pointwise saturating sum over the union of bucket keys.
    pub fn merge(&mut self, other: &PeaksAggregator)
        requires
            old(self).wf(),
            other.wf(),
            old(self).interval_spec() == other.interval_spec(),
            old(self).watched_spec() == other.watched_spec(),
        ensures
            final(self).wf(),
            final(self).interval_spec() == old(self).interval_spec(),
            final(self).watched_spec() == old(self).watched_spec(),
            final(self).counts() == sum_counts(old(self).counts(), other.counts()),
    {
        let n = other.entries.len();
        let mut i: usize = 0;
        proof {
            assert(other.entries@.take(0) =~= Seq::<BucketEntry>::empty());
            assert(entries_map(other.entries@.take(0)) =~= Map::<int, u64>::empty());
            lemma_sum_counts_empty(self.counts());
        }
        while i < n
            invariant
                i <= n,
                n == other.entries@.len(),
                other.wf(),
                self.wf(),
                self.interval_nanos == old(self).interval_nanos,
                self.watched == old(self).watched,
                self.counts() == sum_counts(
                    old(self).counts(),
                    entries_map(other.entries@.take(i as int)),
                ),
            decreases n - i,
        {
            let e = other.entries[i];
            proof {
                lemma_take_step(other.entries@, i as int);
                lemma_sum_counts_insert_fresh(
                    old(self).counts(),
                    entries_map(other.entries@.take(i as int)),
                    e.bucket as int,
                    e.count,
                );
            }
            self.add_count(e.bucket, e.count);
            i = i + 1;
        }
        proof {
            assert(other.entries@.take(n as int) =~= other.entries@);
        }
    }

    /// Produces the report rows: one row per watched bucket, sorted by
    /// bucket start, so the output is deterministic. Rendering reads the
    /// state and never changes it.
    pub fn render(&self) -> (r: Vec<RenderRow>)
        ensures
            r@ == self.spec_render(),
    {
        let n = self.entries.len();
        let mut out: Vec<RenderRow> = Vec::new();
        let mut i: usize = 0;
        while i < n
            invariant
                i <= n,
                n == self.entries@.len(),
                out@.len() == i,
                forall|j: int| 0 <= j < i ==> out@[j] == self.spec_render()[j],
            decreases n - i,
        {
            out.push(
                RenderRow {
                    severity: self.watched,
                    bucket_nanos: self.entries[i].bucket,
                    count: self.entries[i].count,
                },
            );
            i = i + 1;
        }
        proof {
            assert(out@ =~= self.spec_render());
        }
        out
    }
}

impl Clone for PeaksAggregator {
    /// An independent instance with identical state, so that a zero-state
    /// instance can be duplicated per shard before parallel accumulation.
    fn clone(&self) -> (r: Self)
        ensures
            r.interval_nanos == self.interval_nanos,
            r.watched == self.watched,
            r.entries@ == self.entries@,
    {
        let n = self.entries.len();
        let mut es: Vec<BucketEntry> = Vec::new();
        let mut i: usize = 0;
        while i < n
            invariant
                i <= n,
                n == self.entries@.len(),
                es@.len() == i,
                forall|j: int| 0 <= j < i ==> es@[j] == self.entries@[j],
            decreases n - i,
        {
            es.push(self.entries[i]);
            i = i + 1;
        }
        proof {
            assert(es@ =~= self.entries@);
        }
        PeaksAggregator { interval_nanos: self.interval_nanos, watched: self.watched, entries: es }
    }
}

/// A rendered report lists each bucket once, in strictly increasing order
/// of bucket start: the output order is deterministic and reproducible.
pub proof fn lemma_render_sorted(a: PeaksAggregator)
    requires
        a.wf(),
    ensures
        forall|i: int, j: int|
            0 <= i < j < a.spec_render().len() ==> a.spec_render()[i].bucket_nanos
                < a.spec_render()[j].bucket_nanos,
{
}

/// Rendering is idempotent: it is a pure function of the aggregator's
/// state, so rendering an unmodified aggregator twice gives identical
/// reports.
pub proof fn lemma_render_idempotent(a: PeaksAggregator, r1: Seq<RenderRow>, r2: Seq<RenderRow>)
    requires
        r1 == a.spec_render(),
        r2 == a.spec_render(),
    ensures
        r1 == r2,
{
}

} // verus!
