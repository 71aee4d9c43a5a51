//! Epoch-aligned time bucketing.
//!
//! Timestamps are absolute elapsed nanoseconds since the epoch, held in an
//! `i128`. Working on elapsed nanoseconds keeps the rounding free of
//! floating point and of calendar irregularities such as daylight-saving
//! discontinuities. Flooring is true mathematical flooring, also for
//! timestamps before the epoch.

use vstd::prelude::*;
use vstd::arithmetic::div_mod::{
    lemma_fundamental_div_mod, lemma_mod_bound, lemma_mod_multiples_basic,
    lemma_mod_multiples_vanish, lemma_small_mod,
};

verus! {

pub const NANOS_PER_SEC: u64 = 1_000_000_000;

/// A bucket width: whole seconds plus a sub-second nanosecond part.
#[derive(Clone, Copy, PartialEq, Eq, Structural, Debug)]
pub struct BucketWidth {
    pub secs: u64,
    pub nanos: u32,
}

impl BucketWidth {
    /// Total width in nanoseconds.
    pub open spec fn as_nanos_spec(self) -> int {
        self.secs * (NANOS_PER_SEC as int) + self.nanos
    }

    pub fn from_secs(secs: u64) -> (r: BucketWidth)
        ensures
            r.secs == secs,
            r.nanos == 0,
            r.as_nanos_spec() == secs * (NANOS_PER_SEC as int),
    {
        BucketWidth { secs, nanos: 0 }
    }
}

/// Total width of a bucket in nanoseconds, as a machine integer.
pub fn duration_to_nanos(d: &BucketWidth) -> (r: i128)
    ensures
        r as int == d.as_nanos_spec(),
{
    d.secs as i128 * 1_000_000_000 + d.nanos as i128
}

/// The start of the bucket holding `t`: the largest multiple of `w` that
/// does not exceed `t`.
pub open spec fn spec_floor_to_bucket(t: int, w: int) -> int
    recommends
        w > 0,
{
    t - (t % w)
}

/// Floors a timestamp to the start of its bucket. A zero-width bucket is
/// statically disallowed; the lower bound on `t` is what the machine
/// integer forces, since the bucket start of a timestamp close to
/// `i128::MIN` would not be representable.
pub fn floor_to_bucket(t: i128, w: i128) -> (r: i128)
    requires
        w > 0,
        t - (w - 1) >= i128::MIN,
    ensures
        r as int == spec_floor_to_bucket(t as int, w as int),
{
    if t >= 0 {
        let m: i128 = t % w;
        t - m
    } else {
        let p: i128 = -(t + 1);
        let s: i128 = p % w;
        let r: i128 = w - 1 - s;
        proof {
            let pi = p as int;
            let wi = w as int;
            let ti = t as int;
            lemma_fundamental_div_mod(pi, wi);
            lemma_mod_bound(pi, wi);
            assert(ti == wi * (-(pi / wi) - 1) + (wi - 1 - pi % wi)) by (nonlinear_arith)
                requires
                    pi == wi * (pi / wi) + pi % wi,
                    ti == -pi - 1,
            ;
            lemma_mod_multiples_vanish(-(pi / wi) - 1, wi - 1 - pi % wi, wi);
            lemma_small_mod((wi - 1 - pi % wi) as nat, wi as nat);
            assert(ti % wi == wi - 1 - pi % wi);
        }
        t - r
    }
}

/// Floors a timestamp to the start of its bucket for a given width.
pub fn round_floor(t_nanos: i128, interval: &BucketWidth) -> (r: i128)
    requires
        interval.as_nanos_spec() > 0,
        t_nanos - (interval.as_nanos_spec() - 1) >= i128::MIN,
    ensures
        r as int == spec_floor_to_bucket(t_nanos as int, interval.as_nanos_spec()),
{
    let w = duration_to_nanos(interval);
    floor_to_bucket(t_nanos, w)
}

/// Bucket flooring correctness: for every timestamp `t` and positive width
/// `w`, the bucket start is at most `t`, `t` lies before the next bucket,
/// and the bucket start is an exact multiple of `w` from the epoch.
pub proof fn lemma_floor_to_bucket_bounds(t: int, w: int)
    requires
        w > 0,
    ensures
        spec_floor_to_bucket(t, w) <= t,
        t < spec_floor_to_bucket(t, w) + w,
        spec_floor_to_bucket(t, w) % w == 0,
{
    lemma_mod_bound(t, w);
    lemma_fundamental_div_mod(t, w);
    assert(spec_floor_to_bucket(t, w) == (t / w) * w);
    lemma_mod_multiples_basic(t / w, w);
}

/// Bucketing is deterministic and stateless: two timestamps in the same
/// bucket share one bucket start, and every timestamp of a bucket start's
/// own bucket floors back to it.
pub proof fn lemma_floor_to_bucket_fixed_point(t: int, w: int)
    requires
        w > 0,
        t % w == 0,
    ensures
        spec_floor_to_bucket(t, w) == t,
{
}

} // verus!
