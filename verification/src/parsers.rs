//! The filtering stage of the pipeline: normalized records, the filter
//! configuration, and the per-record admission logic applied while a raw
//! record stream is consumed.
//!
//! A format adapter (one per input encoding) extracts from each raw record
//! the fields the pipeline reads and hands them over as a `RawRecord`;
//! everything after that point is decided here. A malformed individual
//! record never aborts a run: it is counted and skipped.

use vstd::prelude::*;
use vstd::string::StrSliceExecFns;
use crate::errors::ParseError;
use crate::peaks::{
    fold_updates, spec_update_counts, LogEvent, PeaksAggregator,
};
use crate::severity::{parse_severity, severity_of_token, Severity};

verus! {

/// A normalized log record: what the aggregation stage reads.
#[derive(Debug)]
pub struct LogLine {
    pub severity: Severity,
    /// Absolute elapsed nanoseconds since the epoch, if the record carried
    /// a timestamp.
    pub time_nanos: Option<i128>,
    /// The record's raw text, retained for diagnostics.
    pub raw: String,
}

/// The recognized filter options, applied while records are read.
#[derive(Debug)]
pub struct FilterConfig {
    /// Only records whose severity rank is at least this are admitted.
    pub min_severity: i32,
    /// If set, only records whose severity token starts with this exact
    /// prefix are admitted.
    pub mask: Option<String>,
    /// Inclusive lower bound on the record timestamp, in nanoseconds.
    pub begin: Option<i128>,
    /// Inclusive upper bound on the record timestamp, in nanoseconds.
    pub end: Option<i128>,
}

/// One raw record as the transport hands it over.
#[derive(Debug)]
pub enum RawRecord {
    /// A record whose relevant fields the format adapter could extract.
    Row { severity_token: String, time_nanos: Option<i128>, raw: String },
    /// The transport failed to produce this record at all.
    Unreadable,
    /// The record did not have the expected shape.
    Malformed,
}

/// What the filter decides for one readable record.
#[derive(Debug)]
pub enum FilterOutcome {
    /// The record passed every predicate.
    Admitted(LogLine),
    /// The record was dropped by a filter predicate.
    Rejected,
    /// The record could not be interpreted; reported, never fatal.
    Failed(ParseError),
}

/// Totals of one processing run. Malformed and unreadable records are
/// reported beside the aggregate rather than aborting it.
#[derive(Clone, Copy, PartialEq, Eq, Structural, Debug)]
pub struct RunStats {
    pub aggregated: usize,
    pub rejected: usize,
    pub unknown_severity: usize,
    pub malformed: usize,
    pub unreadable: usize,
}

/// Trait for all parsers: produce the filtered stream of parsed-or-errored
/// records for one filter configuration. A parser is consumed by `parse`
/// and is not restartable; a fresh instance reads the input again. One
/// concrete parser exists per input encoding; the aggregation stage is
/// format-agnostic.
pub trait LogParser {
    fn parse(
        self,
        min_severity: i32,
        mask: Option<String>,
        begin: Option<i128>,
        end: Option<i128>,
    ) -> Vec<Result<LogLine, ParseError>>;
}

/// `p` is an exact prefix of `s`.
pub open spec fn is_prefix(p: Seq<char>, s: Seq<char>) -> bool {
    p.len() <= s.len() && (forall|i: int| 0 <= i < p.len() ==> p[i] == s[i])
}

/// The severity threshold: rank at least `min_severity`.
pub open spec fn severity_admits(cfg: FilterConfig, sev: Severity) -> bool {
    sev.rank_spec() >= cfg.min_severity as int
}

/// The text mask: with no mask every record passes; with a mask the
/// severity token must start with it.
pub open spec fn mask_admits(cfg: FilterConfig, token: Seq<char>) -> bool {
    match cfg.mask {
        Some(m) => is_prefix(m@, token),
        None => true,
    }
}

/// The time range: both bounds inclusive; a record lacking a timestamp is
/// never excluded by the time-range filter.
pub open spec fn time_admits(cfg: FilterConfig, t: Option<i128>) -> bool {
    match t {
        None => true,
        Some(tv) => {
            &&& match cfg.begin {
                Some(b) => tv >= b,
                None => true,
            }
            &&& match cfg.end {
                Some(e) => tv <= e,
                None => true,
            }
        },
    }
}

/// All three predicates together: whether a record reaches the aggregator.
pub open spec fn admits(cfg: FilterConfig, sev: Severity, token: Seq<char>, t: Option<i128>) -> bool {
    severity_admits(cfg, sev) && mask_admits(cfg, token) && time_admits(cfg, t)
}

/// Character-by-character prefix test.
pub fn str_starts_with(s: &str, prefix: &str) -> (r: bool)
    ensures
        r <==> is_prefix(prefix@, s@),
{
    let plen = prefix.unicode_len();
    let slen = s.unicode_len();
    if plen > slen {
        return false;
    }
    let mut i: usize = 0;
    while i < plen
        invariant
            i <= plen,
            plen == prefix@.len(),
            slen == s@.len(),
            plen <= slen,
            forall|j: int| 0 <= j < i ==> prefix@[j] == s@[j],
        decreases plen - i,
    {
        if prefix.get_char(i) != s.get_char(i) {
            return false;
        }
        i = i + 1;
    }
    true
}

/// Whether one record with a known severity passes all filter predicates.
fn check_admits(cfg: &FilterConfig, sev: Severity, token: &str, time_nanos: Option<i128>) -> (r:
    bool)
    ensures
        r <==> admits(*cfg, sev, token@, time_nanos),
{
    if sev.rank() < cfg.min_severity {
        return false;
    }
    let mask_ok = match &cfg.mask {
        Some(m) => str_starts_with(token, m.as_str()),
        None => true,
    };
    if !mask_ok {
        return false;
    }
    match time_nanos {
        None => true,
        Some(tv) => {
            let begin_ok = match cfg.begin {
                Some(b) => tv >= b,
                None => true,
            };
            let end_ok = match cfg.end {
                Some(e) => tv <= e,
                None => true,
            };
            begin_ok && end_ok
        },
    }
}

/// Decides one readable record: a parse failure of the severity token is
/// an `UnknownSeverity` error for that record alone; otherwise the record
/// is admitted exactly when every predicate passes.
pub fn filter_record(
    cfg: &FilterConfig,
    severity_token: &str,
    time_nanos: Option<i128>,
    raw: String,
) -> (r: FilterOutcome)
    ensures
        match severity_of_token(severity_token@) {
            None => r == FilterOutcome::Failed(ParseError::UnknownSeverity),
            Some(sev) => {
                if admits(*cfg, sev, severity_token@, time_nanos) {
                    r == FilterOutcome::Admitted(LogLine { severity: sev, time_nanos, raw })
                } else {
                    r == FilterOutcome::Rejected
                }
            },
        },
{
    match parse_severity(severity_token) {
        Err(_) => FilterOutcome::Failed(ParseError::UnknownSeverity),
        Ok(sev) => {
            if check_admits(cfg, sev, severity_token, time_nanos) {
                FilterOutcome::Admitted(LogLine { severity: sev, time_nanos, raw })
            } else {
                FilterOutcome::Rejected
            }
        },
    }
}

/// The event an admitted record contributes to aggregation, if any: a
/// record without a timestamp passes the filters but cannot be placed in
/// a time bucket, so it contributes no event.
pub open spec fn record_event(cfg: FilterConfig, r: RawRecord) -> Option<LogEvent> {
    match r {
        RawRecord::Row { severity_token, time_nanos, raw } => {
            match severity_of_token(severity_token@) {
                Some(sev) => {
                    if admits(cfg, sev, severity_token@, time_nanos) {
                        match time_nanos {
                            Some(t) => Some(LogEvent { severity: sev, time_nanos: t }),
                            None => None,
                        }
                    } else {
                        None
                    }
                },
                None => None,
            }
        },
        RawRecord::Unreadable => None,
        RawRecord::Malformed => None,
    }
}

/// The record was readable and passed every filter predicate.
pub open spec fn spec_is_admitted(cfg: FilterConfig, r: RawRecord) -> bool {
    match r {
        RawRecord::Row { severity_token, time_nanos, raw } => {
            match severity_of_token(severity_token@) {
                Some(sev) => admits(cfg, sev, severity_token@, time_nanos),
                None => false,
            }
        },
        _ => false,
    }
}

/// The record was readable but dropped by a filter predicate.
pub open spec fn spec_is_rejected(cfg: FilterConfig, r: RawRecord) -> bool {
    match r {
        RawRecord::Row { severity_token, time_nanos, raw } => {
            match severity_of_token(severity_token@) {
                Some(sev) => !admits(cfg, sev, severity_token@, time_nanos),
                None => false,
            }
        },
        _ => false,
    }
}

/// The record's severity token names no recognized severity.
pub open spec fn spec_is_unknown(r: RawRecord) -> bool {
    match r {
        RawRecord::Row { severity_token, time_nanos, raw } => severity_of_token(
            severity_token@,
        ) is None,
        _ => false,
    }
}

/// The events the admitted records of a stream contribute, in order.
pub open spec fn admitted_events(cfg: FilterConfig, recs: Seq<RawRecord>) -> Seq<LogEvent>
    decreases recs.len(),
{
    if recs.len() == 0 {
        Seq::<LogEvent>::empty()
    } else {
        let rest = admitted_events(cfg, recs.drop_last());
        match record_event(cfg, recs.last()) {
            Some(e) => rest.push(e),
            None => rest,
        }
    }
}

/// How many records of a stream a predicate holds of.
pub open spec fn count_admitted(cfg: FilterConfig, recs: Seq<RawRecord>) -> int
    decreases recs.len(),
{
    if recs.len() == 0 {
        0
    } else {
        count_admitted(cfg, recs.drop_last()) + if spec_is_admitted(cfg, recs.last()) {
            1int
        } else {
            0int
        }
    }
}

pub open spec fn count_rejected(cfg: FilterConfig, recs: Seq<RawRecord>) -> int
    decreases recs.len(),
{
    if recs.len() == 0 {
        0
    } else {
        count_rejected(cfg, recs.drop_last()) + if spec_is_rejected(cfg, recs.last()) {
            1int
        } else {
            0int
        }
    }
}

pub open spec fn count_unknown(recs: Seq<RawRecord>) -> int
    decreases recs.len(),
{
    if recs.len() == 0 {
        0
    } else {
        count_unknown(recs.drop_last()) + if spec_is_unknown(recs.last()) {
            1int
        } else {
            0int
        }
    }
}

pub open spec fn count_malformed(recs: Seq<RawRecord>) -> int
    decreases recs.len(),
{
    if recs.len() == 0 {
        0
    } else {
        count_malformed(recs.drop_last()) + if recs.last() is Malformed {
            1int
        } else {
            0int
        }
    }
}

pub open spec fn count_unreadable(recs: Seq<RawRecord>) -> int
    decreases recs.len(),
{
    if recs.len() == 0 {
        0
    } else {
        count_unreadable(recs.drop_last()) + if recs.last() is Unreadable {
            1int
        } else {
            0int
        }
    }
}

/// Every timestamp of the stream leaves its bucket start representable.
pub open spec fn times_ok(recs: Seq<RawRecord>, w: int) -> bool {
    forall|i: int|
        0 <= i < recs.len() ==> match #[trigger] recs[i] {
            RawRecord::Row { severity_token, time_nanos, raw } => match time_nanos {
                Some(t) => t - (w - 1) >= i128::MIN,
                None => true,
            },
            _ => true,
        }
}

proof fn lemma_take_snoc<A>(s: Seq<A>, i: int)
    requires
        0 <= i < s.len(),
    ensures
        s.take(i + 1).drop_last() =~= s.take(i),
        s.take(i + 1).last() == s[i],
{
}

proof fn lemma_fold_updates_push(
    m: Map<int, u64>,
    watched: Severity,
    w: int,
    evs: Seq<LogEvent>,
    e: LogEvent,
)
    ensures
        fold_updates(m, watched, w, evs.push(e)) == spec_update_counts(
            fold_updates(m, watched, w, evs),
            watched,
            w,
            e.severity,
            e.time_nanos as int,
        ),
{
    assert(evs.push(e).drop_last() =~= evs);
    assert(evs.push(e).last() == e);
}

/// Consumes a raw record stream: filters each record, feeds the admitted
/// ones to the aggregator, and reports the totals. A record that cannot be
/// read or interpreted is counted and skipped; it never aborts the run.
pub fn process_records(records: &Vec<RawRecord>, cfg: &FilterConfig, agg: &mut PeaksAggregator)
    -> (stats: RunStats)
    requires
        old(agg).wf(),
        times_ok(records@, old(agg).interval_spec()),
    ensures
        final(agg).wf(),
        final(agg).interval_spec() == old(agg).interval_spec(),
        final(agg).watched_spec() == old(agg).watched_spec(),
        final(agg).counts() == fold_updates(
            old(agg).counts(),
            old(agg).watched_spec(),
            old(agg).interval_spec(),
            admitted_events(*cfg, records@),
        ),
        stats.aggregated == count_admitted(*cfg, records@),
        stats.rejected == count_rejected(*cfg, records@),
        stats.unknown_severity == count_unknown(records@),
        stats.malformed == count_malformed(records@),
        stats.unreadable == count_unreadable(records@),
{
    let n = records.len();
    let mut i: usize = 0;
    let mut stats = RunStats {
        aggregated: 0,
        rejected: 0,
        unknown_severity: 0,
        malformed: 0,
        unreadable: 0,
    };
    proof {
        assert(records@.take(0) =~= Seq::<RawRecord>::empty());
    }
    while i < n
        invariant
            i <= n,
            n == records@.len(),
            times_ok(records@, old(agg).interval_spec()),
            agg.wf(),
            agg.interval_spec() == old(agg).interval_spec(),
            agg.watched_spec() == old(agg).watched_spec(),
            agg.counts() == fold_updates(
                old(agg).counts(),
                old(agg).watched_spec(),
                old(agg).interval_spec(),
                admitted_events(*cfg, records@.take(i as int)),
            ),
            stats.aggregated == count_admitted(*cfg, records@.take(i as int)),
            stats.rejected == count_rejected(*cfg, records@.take(i as int)),
            stats.unknown_severity == count_unknown(records@.take(i as int)),
            stats.malformed == count_malformed(records@.take(i as int)),
            stats.unreadable == count_unreadable(records@.take(i as int)),
            stats.aggregated <= i,
            stats.rejected <= i,
            stats.unknown_severity <= i,
            stats.malformed <= i,
            stats.unreadable <= i,
        decreases n - i,
    {
        proof {
            lemma_take_snoc(records@, i as int);
        }
        match &records[i] {
            RawRecord::Row { severity_token, time_nanos, raw } => {
                match parse_severity(severity_token.as_str()) {
                    Err(_) => {
                        stats.unknown_severity = stats.unknown_severity + 1;
                    },
                    Ok(sev) => {
                        if check_admits(cfg, sev, severity_token.as_str(), *time_nanos) {
                            stats.aggregated = stats.aggregated + 1;
                            match *time_nanos {
                                Some(t) => {
                                    proof {
                                        lemma_fold_updates_push(
                                            old(agg).counts(),
                                            old(agg).watched_spec(),
                                            old(agg).interval_spec(),
                                            admitted_events(*cfg, records@.take(i as int)),
                                            LogEvent { severity: sev, time_nanos: t },
                                        );
                                    }
                                    agg.update(sev, t);
                                },
                                None => {},
                            }
                        } else {
                            stats.rejected = stats.rejected + 1;
                        }
                    },
                }
            },
            RawRecord::Unreadable => {
                stats.unreadable = stats.unreadable + 1;
            },
            RawRecord::Malformed => {
                stats.malformed = stats.malformed + 1;
            },
        }
        i = i + 1;
    }
    proof {
        assert(records@.take(n as int) =~= records@);
    }
    stats
}

/// Filtering is pointwise, so the admitted events of a stream split into
/// two ordered sub-streams are the admitted events of the parts, in order.
pub proof fn lemma_admitted_events_concat(cfg: FilterConfig, r1: Seq<RawRecord>, r2: Seq<RawRecord>)
    ensures
        admitted_events(cfg, r1 + r2) == admitted_events(cfg, r1) + admitted_events(cfg, r2),
    decreases r2.len(),
{
    if r2.len() == 0 {
        assert(r1 + r2 =~= r1);
        assert(admitted_events(cfg, r1) + admitted_events(cfg, r2) =~= admitted_events(cfg, r1));
    } else {
        lemma_admitted_events_concat(cfg, r1, r2.drop_last());
        assert((r1 + r2).drop_last() =~= r1 + r2.drop_last());
        assert((r1 + r2).last() == r2.last());
        match record_event(cfg, r2.last()) {
            Some(e) => {
                assert(admitted_events(cfg, r1) + admitted_events(cfg, r2.drop_last()).push(e)
                    =~= (admitted_events(cfg, r1) + admitted_events(cfg, r2.drop_last())).push(e));
            },
            None => {},
        }
    }
}

/// Sharded processing matches sequential processing: filtering and
/// aggregating the two halves of a stream independently, each from an
/// empty aggregator, and summing the partial counts gives the counts of
/// one sequential run over the whole stream.
pub proof fn lemma_sharded_processing(
    cfg: FilterConfig,
    watched: Severity,
    w: int,
    r1: Seq<RawRecord>,
    r2: Seq<RawRecord>,
)
    ensures
        fold_updates(Map::<int, u64>::empty(), watched, w, admitted_events(cfg, r1 + r2))
            == crate::peaks::sum_counts(
            fold_updates(Map::<int, u64>::empty(), watched, w, admitted_events(cfg, r1)),
            fold_updates(Map::<int, u64>::empty(), watched, w, admitted_events(cfg, r2)),
        ),
{
    lemma_admitted_events_concat(cfg, r1, r2);
    crate::peaks::lemma_merge_matches_sequential(
        watched,
        w,
        admitted_events(cfg, r1),
        admitted_events(cfg, r2),
    );
}

/// Severity threshold monotonicity: raising the minimum severity never
/// increases the number of records admitted past the filter.
pub proof fn lemma_threshold_monotone(lo: FilterConfig, hi: FilterConfig, recs: Seq<RawRecord>)
    requires
        lo.min_severity <= hi.min_severity,
        lo.mask == hi.mask,
        lo.begin == hi.begin,
        lo.end == hi.end,
    ensures
        count_admitted(hi, recs) <= count_admitted(lo, recs),
    decreases recs.len(),
{
    if recs.len() > 0 {
        lemma_threshold_monotone(lo, hi, recs.drop_last());
        assert(spec_is_admitted(hi, recs.last()) ==> spec_is_admitted(lo, recs.last()));
    }
}

/// Mask prefix semantics: with a mask set, a record is admitted only if
/// its severity token starts with the exact mask; an empty mask never
/// rejects; a mask longer than the token always rejects.
pub proof fn lemma_mask_semantics(cfg: FilterConfig, sev: Severity, token: Seq<char>, t: Option<
    i128,
>)
    ensures
        (cfg.mask matches Some(m) && admits(cfg, sev, token, t)) ==> is_prefix(
            cfg.mask->Some_0@,
            token,
        ),
        (cfg.mask matches Some(m) && m@.len() == 0) ==> mask_admits(cfg, token),
        (cfg.mask matches Some(m) && m@.len() > token.len()) ==> !admits(cfg, sev, token, t),
{
}

} // verus!
