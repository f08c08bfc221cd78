//! Running summary statistics.
//!
//! A [`RunningStats`] tracks count, minimum, maximum, sum and sum of squares
//! of every sample it has seen, exactly, in integer tick arithmetic. Mean and
//! standard deviation are derived on demand: the mean is the floor of the
//! exact rational mean, and the standard deviation is the integer square root
//! of the exact sample variance (the `count - 1` divisor, as is usual for
//! incremental variance trackers), both in ticks.
//!
//! Two trackers over disjoint sample sets merge into the tracker of the
//! union: counts, sums and sums of squares add, minima and maxima combine,
//! so mean and standard deviation of the merge are those of the pooled data.

use vstd::prelude::*;
use vstd::arithmetic::div_mod::{lemma_div_is_ordered, lemma_hoist_over_denominator};
use crate::fixed::{Fixed, RAW_LIMIT};

verus! {

/// Largest number of samples an accumulator accepts.
///
/// With samples bounded by `RAW_LIMIT` ticks, this cap keeps every
/// intermediate product of the variance computation within `i128`.
pub const MAX_COUNT: u64 = 0xFFFF_FFFF;

/// Mathematical summary of a multiset of samples, in ticks.
///
/// `min` and `max` are meaningful only when `count > 0`; an empty summary
/// holds zeroes everywhere.
#[verifier::ext_equal]
pub ghost struct StatsModel {
    pub count: nat,
    pub min: int,
    pub max: int,
    pub sum: int,
    pub sum_sq: int,
}

/// The summary of no samples at all.
pub open spec fn stats_empty() -> StatsModel {
    StatsModel { count: 0, min: 0, max: 0, sum: 0, sum_sq: 0 }
}

/// The summary after one more sample `v`.
pub open spec fn stats_add(s: StatsModel, v: int) -> StatsModel {
    StatsModel {
        count: s.count + 1,
        min: if s.count == 0 || v < s.min { v } else { s.min },
        max: if s.count == 0 || v > s.max { v } else { s.max },
        sum: s.sum + v,
        sum_sq: s.sum_sq + v * v,
    }
}

/// The summary of the union of two disjoint sample multisets.
pub open spec fn stats_merge(a: StatsModel, b: StatsModel) -> StatsModel {
    if a.count == 0 {
        b
    } else if b.count == 0 {
        a
    } else {
        StatsModel {
            count: a.count + b.count,
            min: if a.min <= b.min { a.min } else { b.min },
            max: if a.max >= b.max { a.max } else { b.max },
            sum: a.sum + b.sum,
            sum_sq: a.sum_sq + b.sum_sq,
        }
    }
}

/// Every summary a tracker can reach satisfies this: bounded count, bounded
/// extrema, the sum pinched between `count * min` and `count * max`, a
/// bounded non-negative sum of squares, and the Cauchy-Schwarz inequality
/// `count * sum_sq >= sum^2`, which makes the variance non-negative.
pub open spec fn stats_wf(s: StatsModel) -> bool {
    &&& s.count <= MAX_COUNT as nat
    &&& (s.count == 0 ==> s == stats_empty())
    &&& (s.count > 0 ==> {
        &&& -RAW_LIMIT <= s.min <= s.max <= RAW_LIMIT
        &&& s.count * s.min <= s.sum <= s.count * s.max
        &&& 0 <= s.sum_sq <= s.count * ((RAW_LIMIT * RAW_LIMIT) as int)
        &&& s.count * s.sum_sq >= s.sum * s.sum
    })
}

/// Floor of the exact mean, in ticks; zero for an empty summary.
pub open spec fn spec_mean(s: StatsModel) -> int {
    if s.count == 0 {
        0
    } else {
        s.sum / (s.count as int)
    }
}

/// Floor of the exact sample variance, in squared ticks; zero below two
/// samples.
pub open spec fn spec_variance(s: StatsModel) -> int {
    if s.count < 2 {
        0
    } else {
        (s.count * s.sum_sq - s.sum * s.sum) / ((s.count * (s.count - 1)) as int)
    }
}

/// The integer square root: the largest `r` with `r * r <= n`.
pub open spec fn spec_isqrt(n: nat) -> nat
    decreases n,
{
    if n == 0 {
        0
    } else {
        let r = spec_isqrt((n - 1) as nat);
        if (r + 1) * (r + 1) <= n {
            r + 1
        } else {
            r
        }
    }
}

/// Standard deviation in ticks: the integer square root of the sample
/// variance, saturated at `RAW_LIMIT` so it is always a representable value.
pub open spec fn spec_std_dev(s: StatsModel) -> int {
    if spec_isqrt(spec_variance(s) as nat) > RAW_LIMIT as nat {
        RAW_LIMIT as int
    } else {
        spec_isqrt(spec_variance(s) as nat) as int
    }
}

/// `spec_isqrt` really is the integer square root.
pub proof fn lemma_isqrt_bounds(n: nat)
    ensures
        spec_isqrt(n) * spec_isqrt(n) <= n,
        n < (spec_isqrt(n) + 1) * (spec_isqrt(n) + 1),
    decreases n,
{
    if n > 0 {
        lemma_isqrt_bounds((n - 1) as nat);
        let r = spec_isqrt((n - 1) as nat);
        if (r + 1) * (r + 1) <= n {
            assert(spec_isqrt(n) == r + 1);
            assert(spec_isqrt(n) * spec_isqrt(n) <= n);
            assert(n < (r + 1 + 1) * (r + 1 + 1)) by (nonlinear_arith)
                requires (n - 1) < (r + 1) * (r + 1), r >= 0,
            {}
            assert(n < (spec_isqrt(n) + 1) * (spec_isqrt(n) + 1));
        } else {
            assert(spec_isqrt(n) == r);
            assert(spec_isqrt(n) * spec_isqrt(n) <= n);
            assert(n < (spec_isqrt(n) + 1) * (spec_isqrt(n) + 1));
        }
    } else {
        assert(spec_isqrt(n) == 0);
        assert(n < (spec_isqrt(n) + 1) * (spec_isqrt(n) + 1)) by (nonlinear_arith)
            requires n == 0, spec_isqrt(n) == 0,
        {}
    }
}

/// Any `r` within the square-root bounds is `spec_isqrt(n)`.
pub proof fn lemma_isqrt_unique(n: nat, r: nat)
    requires
        r * r <= n,
        n < (r + 1) * (r + 1),
    ensures
        r == spec_isqrt(n),
{
    let s = spec_isqrt(n);
    lemma_isqrt_bounds(n);
    if r < s {
        assert((r + 1) * (r + 1) <= s * s) by (nonlinear_arith)
            requires r + 1 <= s,
        {}
    }
    if s < r {
        assert((s + 1) * (s + 1) <= r * r) by (nonlinear_arith)
            requires s + 1 <= r,
        {}
    }
}

/// Adding a sample preserves the Cauchy-Schwarz inequality.
proof fn lemma_cauchy_add(c: int, s1: int, s2: int, v: int)
    requires
        c >= 0,
        c * s2 >= s1 * s1,
        c == 0 ==> s1 == 0 && s2 == 0,
    ensures
        (c + 1) * (s2 + v * v) >= (s1 + v) * (s1 + v),
{
    if c == 0 {
        assert((0 + 1) * (s2 + v * v) >= (s1 + v) * (s1 + v)) by (nonlinear_arith)
            requires s1 == 0, s2 == 0,
        {}
    } else {
        let x = s2 + c * (v * v) - 2 * (s1 * v);
        let p = c * v;
        assert(s1 * s1 + p * p >= 2 * (s1 * p)) by (nonlinear_arith) {}
        assert(c * x == c * s2 + p * p - 2 * (s1 * p)) by (nonlinear_arith)
            requires x == s2 + c * (v * v) - 2 * (s1 * v), p == c * v,
        {}
        assert(c * x >= 0);
        assert(x >= 0) by (nonlinear_arith)
            requires c > 0, c * x >= 0,
        {}
        assert((c + 1) * (s2 + v * v) == c * s2 + s2 + c * (v * v) + v * v) by (nonlinear_arith)
        {}
        assert((s1 + v) * (s1 + v) == s1 * s1 + 2 * (s1 * v) + v * v) by (nonlinear_arith) {}
        assert((c + 1) * (s2 + v * v) >= (s1 + v) * (s1 + v));
    }
}

/// Merging two summaries preserves the Cauchy-Schwarz inequality.
proof fn lemma_cauchy_merge(m: int, n: int, a1: int, a2: int, b1: int, b2: int)
    requires
        m > 0,
        n > 0,
        m * a2 >= a1 * a1,
        n * b2 >= b1 * b1,
    ensures
        (m + n) * (a2 + b2) >= (a1 + b1) * (a1 + b1),
{
    let x = m * b2 + n * a2 - 2 * (a1 * b1);
    let p = m * b1;
    let q = n * a1;
    assert(p * p + q * q >= 2 * (p * q)) by (nonlinear_arith) {}
    assert(m * (m * (n * b2)) >= p * p) by (nonlinear_arith)
        requires n * b2 >= b1 * b1, p == m * b1,
    {}
    assert(n * (n * (m * a2)) >= q * q) by (nonlinear_arith)
        requires m * a2 >= a1 * a1, q == n * a1,
    {}
    assert((m * n) * (m * b2) == m * (m * (n * b2))) by (nonlinear_arith) {}
    assert((m * n) * (n * a2) == n * (n * (m * a2))) by (nonlinear_arith) {}
    assert((m * n) * (2 * (a1 * b1)) == 2 * (p * q)) by (nonlinear_arith)
        requires p == m * b1, q == n * a1,
    {}
    assert((m * n) * x == (m * n) * (m * b2) + (m * n) * (n * a2) - (m * n) * (2 * (a1 * b1)))
        by (nonlinear_arith)
        requires x == m * b2 + n * a2 - 2 * (a1 * b1),
    {}
    assert((m * n) * x >= 0);
    assert(x >= 0) by (nonlinear_arith)
        requires m > 0, n > 0, (m * n) * x >= 0,
    {}
    assert((m + n) * (a2 + b2) == m * a2 + n * b2 + x + 2 * (a1 * b1)) by (nonlinear_arith)
        requires x == m * b2 + n * a2 - 2 * (a1 * b1),
    {}
    assert((a1 + b1) * (a1 + b1) == a1 * a1 + b1 * b1 + 2 * (a1 * b1)) by (nonlinear_arith) {}
    assert((m + n) * (a2 + b2) >= (a1 + b1) * (a1 + b1));
}

/// Adding a bounded sample to a well-formed summary keeps it well-formed.
pub proof fn lemma_stats_add_wf(s: StatsModel, v: int)
    requires
        stats_wf(s),
        s.count < MAX_COUNT as nat,
        -RAW_LIMIT <= v <= RAW_LIMIT,
    ensures
        stats_wf(stats_add(s, v)),
{
    let t = stats_add(s, v);
    lemma_cauchy_add(s.count as int, s.sum, s.sum_sq, v);
    assert(0 <= v * v <= (RAW_LIMIT * RAW_LIMIT) as int) by (nonlinear_arith)
        requires -RAW_LIMIT <= v <= RAW_LIMIT,
    {}
    assert(t.count * t.min <= t.sum) by (nonlinear_arith)
        requires
            s.count >= 0,
            s.count == 0 ==> s.sum == 0,
            s.count > 0 ==> s.count * s.min <= s.sum,
            t.count == s.count + 1,
            t.sum == s.sum + v,
            t.min <= v,
            s.count > 0 ==> t.min <= s.min,
    {
        if s.count > 0 {
            assert(s.count * t.min <= s.count * s.min);
        }
    }
    assert(t.sum <= t.count * t.max) by (nonlinear_arith)
        requires
            s.count >= 0,
            s.count == 0 ==> s.sum == 0,
            s.count > 0 ==> s.sum <= s.count * s.max,
            t.count == s.count + 1,
            t.sum == s.sum + v,
            t.max >= v,
            s.count > 0 ==> t.max >= s.max,
    {
        if s.count > 0 {
            assert(s.count * s.max <= s.count * t.max);
        }
    }
    assert(t.sum_sq <= t.count * ((RAW_LIMIT * RAW_LIMIT) as int)) by (nonlinear_arith)
        requires
            s.sum_sq <= s.count * ((RAW_LIMIT * RAW_LIMIT) as int),
            t.sum_sq == s.sum_sq + v * v,
            t.count == s.count + 1,
            v * v <= (RAW_LIMIT * RAW_LIMIT) as int,
    {}
}

/// Merging two well-formed summaries of total count within the cap yields a
/// well-formed summary.
pub proof fn lemma_stats_merge_wf(a: StatsModel, b: StatsModel)
    requires
        stats_wf(a),
        stats_wf(b),
        a.count + b.count <= MAX_COUNT as nat,
    ensures
        stats_wf(stats_merge(a, b)),
{
    if a.count > 0 && b.count > 0 {
        let t = stats_merge(a, b);
        lemma_cauchy_merge(a.count as int, b.count as int, a.sum, a.sum_sq, b.sum, b.sum_sq);
        assert(t.count * t.min <= t.sum) by (nonlinear_arith)
            requires
                a.count > 0,
                b.count > 0,
                a.count * a.min <= a.sum,
                b.count * b.min <= b.sum,
                t.min <= a.min,
                t.min <= b.min,
                t.count == a.count + b.count,
                t.sum == a.sum + b.sum,
        {
            assert(a.count * t.min <= a.count * a.min);
            assert(b.count * t.min <= b.count * b.min);
        }
        assert(t.sum <= t.count * t.max) by (nonlinear_arith)
            requires
                a.count > 0,
                b.count > 0,
                a.sum <= a.count * a.max,
                b.sum <= b.count * b.max,
                t.max >= a.max,
                t.max >= b.max,
                t.count == a.count + b.count,
                t.sum == a.sum + b.sum,
        {
            assert(a.count * a.max <= a.count * t.max);
            assert(b.count * b.max <= b.count * t.max);
        }
        assert(t.sum_sq <= t.count * ((RAW_LIMIT * RAW_LIMIT) as int)) by (nonlinear_arith)
            requires
                a.sum_sq <= a.count * ((RAW_LIMIT * RAW_LIMIT) as int),
                b.sum_sq <= b.count * ((RAW_LIMIT * RAW_LIMIT) as int),
                t.sum_sq == a.sum_sq + b.sum_sq,
                t.count == a.count + b.count,
        {}
    }
}

/// Incremental tracker of count, minimum, maximum, sum and sum of squares.
#[derive(Clone, Copy, Debug, PartialEq, Eq, Structural)]
pub struct RunningStats {
    count: u64,
    min: i64,
    max: i64,
    sum: i128,
    sum_sq: i128,
}

impl View for RunningStats {
    type V = StatsModel;

    closed spec fn view(&self) -> StatsModel {
        StatsModel {
            count: self.count as nat,
            min: self.min as int,
            max: self.max as int,
            sum: self.sum as int,
            sum_sq: self.sum_sq as int,
        }
    }
}

impl RunningStats {
    /// A tracker that has seen no samples.
    pub fn new() -> (r: RunningStats)
        ensures
            r@ == stats_empty(),
            stats_wf(r@),
    {
        RunningStats { count: 0, min: 0, max: 0, sum: 0, sum_sq: 0 }
    }

    /// Feeds one sample to the tracker.
    pub fn update(&mut self, value: Fixed)
        requires
            stats_wf(old(self)@),
            old(self)@.count < MAX_COUNT as nat,
            value.valid(),
        ensures
            final(self)@ == stats_add(old(self)@, value@),
            stats_wf(final(self)@),
    {
        proof {
            lemma_stats_add_wf(old(self)@, value@);
        }
        let v = value.raw();
        if self.count == 0 {
            self.min = v;
            self.max = v;
        } else {
            if v < self.min {
                self.min = v;
            }
            if v > self.max {
                self.max = v;
            }
        }
        self.count = self.count + 1;
        let w = v as i128;
        proof {
            let s = old(self)@;
            assert(0 <= w * w <= (RAW_LIMIT * RAW_LIMIT) as int) by (nonlinear_arith)
                requires -RAW_LIMIT <= w <= RAW_LIMIT,
            {}
            assert(-((MAX_COUNT as int) * (RAW_LIMIT as int)) <= s.sum <= (MAX_COUNT as int)
                * (RAW_LIMIT as int)) by (nonlinear_arith)
                requires
                    s.count <= MAX_COUNT as nat,
                    s.count == 0 ==> s.sum == 0,
                    s.count > 0 ==> s.count * s.min <= s.sum <= s.count * s.max,
                    s.count > 0 ==> -RAW_LIMIT <= s.min <= s.max <= RAW_LIMIT,
            {
                if s.count > 0 {
                    assert(s.count * s.max <= s.count * RAW_LIMIT <= (MAX_COUNT as int) * (
                    RAW_LIMIT as int));
                    assert(s.count * s.min >= s.count * (-RAW_LIMIT) >= -((MAX_COUNT as int) * (
                    RAW_LIMIT as int)));
                }
            }
            assert(s.sum_sq <= (MAX_COUNT as int) * ((RAW_LIMIT * RAW_LIMIT) as int))
                by (nonlinear_arith)
                requires
                    s.count <= MAX_COUNT as nat,
                    s.count == 0 ==> s.sum_sq == 0,
                    s.count > 0 ==> 0 <= s.sum_sq <= s.count * ((RAW_LIMIT * RAW_LIMIT) as int),
            {}
        }
        self.sum = self.sum + w;
        self.sum_sq = self.sum_sq + w * w;
    }

    /// Combines this tracker with one fed a disjoint set of samples.
    pub fn merge(&self, other: &RunningStats) -> (r: RunningStats)
        requires
            stats_wf(self@),
            stats_wf(other@),
            self@.count + other@.count <= MAX_COUNT as nat,
        ensures
            r@ == stats_merge(self@, other@),
            stats_wf(r@),
    {
        proof {
            lemma_stats_merge_wf(self@, other@);
        }
        if self.count == 0 {
            *other
        } else if other.count == 0 {
            *self
        } else {
            proof {
                assert(self@.sum + other@.sum <= (self@.count + other@.count) * (RAW_LIMIT as int)
                    && -((self@.count + other@.count) * (RAW_LIMIT as int)) <= self@.sum
                    + other@.sum && self@.sum_sq + other@.sum_sq <= (self@.count + other@.count)
                    * ((RAW_LIMIT * RAW_LIMIT) as int)) by (nonlinear_arith)
                    requires
                        stats_wf(self@),
                        stats_wf(other@),
                        self@.count > 0,
                        other@.count > 0,
                {
                    assert(self@.count * self@.min >= self@.count * (-RAW_LIMIT));
                    assert(other@.count * other@.min >= other@.count * (-RAW_LIMIT));
                    assert(self@.count * self@.max <= self@.count * RAW_LIMIT);
                    assert(other@.count * other@.max <= other@.count * RAW_LIMIT);
                }
                assert((self@.count + other@.count) * (RAW_LIMIT as int) <= (MAX_COUNT as int) * (
                RAW_LIMIT as int) && (self@.count + other@.count) * ((RAW_LIMIT * RAW_LIMIT) as int)
                    <= (MAX_COUNT as int) * ((RAW_LIMIT * RAW_LIMIT) as int)) by (nonlinear_arith)
                    requires self@.count + other@.count <= MAX_COUNT as nat,
                {}
            }
            RunningStats {
                count: self.count + other.count,
                min: if self.min <= other.min { self.min } else { other.min },
                max: if self.max >= other.max { self.max } else { other.max },
                sum: self.sum + other.sum,
                sum_sq: self.sum_sq + other.sum_sq,
            }
        }
    }

    /// Number of samples seen.
    pub fn count(&self) -> (r: u64)
        ensures
            r == self@.count,
    {
        self.count
    }

    /// Smallest sample seen; zero when no sample was seen.
    pub fn min(&self) -> (r: Fixed)
        requires
            stats_wf(self@),
        ensures
            self@.count > 0 ==> r@ == self@.min,
            self@.count == 0 ==> r@ == 0,
            r.valid(),
    {
        Fixed::new(self.min)
    }

    /// Largest sample seen; zero when no sample was seen.
    pub fn max(&self) -> (r: Fixed)
        requires
            stats_wf(self@),
        ensures
            self@.count > 0 ==> r@ == self@.max,
            self@.count == 0 ==> r@ == 0,
            r.valid(),
    {
        Fixed::new(self.max)
    }

    /// Floor of the exact mean; zero when no sample was seen.
    pub fn mean(&self) -> (r: Fixed)
        requires
            stats_wf(self@),
        ensures
            r@ == spec_mean(self@),
            r.valid(),
    {
        if self.count == 0 {
            return Fixed::zero();
        }
        let ghost s = self@;
        let ghost cc = s.count as int;
        proof {
            assert(cc * s.min >= cc * (-RAW_LIMIT) && cc * s.max <= cc * RAW_LIMIT && cc * (
            -RAW_LIMIT) >= -((MAX_COUNT as int) * (RAW_LIMIT as int)) && cc * RAW_LIMIT <= (
            MAX_COUNT as int) * (RAW_LIMIT as int) && cc * (s.max - s.min) <= (MAX_COUNT as int)
                * (2 * RAW_LIMIT)) by (nonlinear_arith)
                requires
                    0 < cc <= MAX_COUNT as int,
                    -RAW_LIMIT <= s.min <= s.max <= RAW_LIMIT,
            {}
            assert(s.sum - cc * s.min <= cc * (s.max - s.min)) by (nonlinear_arith)
                requires s.sum <= cc * s.max,
            {}
        }
        let c = self.count as i128;
        let shifted = self.sum - c * (self.min as i128);
        proof {
            let sh = s.sum - cc * s.min;
            lemma_div_is_ordered(sh, cc * (s.max - s.min), cc);
            assert(cc * (s.max - s.min) / cc == s.max - s.min) by (nonlinear_arith)
                requires cc > 0,
            {
                vstd::arithmetic::div_mod::lemma_div_multiples_vanish(s.max - s.min, cc);
            }
            lemma_div_is_ordered(0, sh, cc);
            assert(sh / cc <= s.max - s.min && 0 <= sh / cc);
        }
        let q = ((shifted as u128) / (c as u128)) as i128;
        proof {
            let sh = s.sum - cc * s.min;
            lemma_hoist_over_denominator(sh, s.min, s.count);
            assert(sh + s.min * cc == s.sum) by (nonlinear_arith)
                requires sh == s.sum - cc * s.min,
            {}
            assert(q == sh / cc);
            assert(s.min + q == spec_mean(s));
        }
        let r = self.min + (q as i64);
        Fixed::new(r)
    }

    /// Integer square root of the exact sample variance, saturated at
    /// `RAW_LIMIT`; zero below two samples.
    pub fn std_dev(&self) -> (r: Fixed)
        requires
            stats_wf(self@),
        ensures
            r@ == spec_std_dev(self@),
            r.valid(),
    {
        if self.count < 2 {
            proof {
                assert(spec_isqrt(0) == 0);
            }
            return Fixed::zero();
        }
        let ghost s = self@;
        let ghost cc = s.count as int;
        let ghost big = ((MAX_COUNT as int) * (MAX_COUNT as int)) * ((RAW_LIMIT
            * RAW_LIMIT) as int);
        proof {
            assert(big < i128::MAX as int) by (nonlinear_arith)
                requires
                    big == ((MAX_COUNT as int) * (MAX_COUNT as int)) * ((RAW_LIMIT
                        * RAW_LIMIT) as int),
                    MAX_COUNT == 0xFFFF_FFFFu64,
                    RAW_LIMIT == 0x8000_0000i64,
            {}
            assert(0 <= cc * s.sum_sq <= big) by (nonlinear_arith)
                requires
                    0 < cc <= MAX_COUNT as int,
                    0 <= s.sum_sq <= cc * ((RAW_LIMIT * RAW_LIMIT) as int),
                    big == ((MAX_COUNT as int) * (MAX_COUNT as int)) * ((RAW_LIMIT
                        * RAW_LIMIT) as int),
            {}
            assert(0 <= s.sum * s.sum <= big) by (nonlinear_arith)
                requires
                    0 < cc <= MAX_COUNT as int,
                    cc * s.min <= s.sum <= cc * s.max,
                    -RAW_LIMIT <= s.min <= s.max <= RAW_LIMIT,
                    big == ((MAX_COUNT as int) * (MAX_COUNT as int)) * ((RAW_LIMIT
                        * RAW_LIMIT) as int),
            {
                assert(s.sum <= cc * s.max <= cc * RAW_LIMIT <= (MAX_COUNT as int) * (
                RAW_LIMIT as int));
                assert(s.sum >= cc * s.min >= cc * (-RAW_LIMIT) >= -((MAX_COUNT as int) * (
                RAW_LIMIT as int)));
                assert(s.sum * s.sum <= ((MAX_COUNT as int) * (RAW_LIMIT as int)) * ((
                MAX_COUNT as int) * (RAW_LIMIT as int)));
            }
            assert(0 < cc * (cc - 1) <= (MAX_COUNT as int) * (MAX_COUNT as int))
                by (nonlinear_arith)
                requires 1 < cc <= MAX_COUNT as int,
            {}
        }
        let c = self.count as i128;
        let num = c * self.sum_sq - self.sum * self.sum;
        let den = c * (c - 1);
        let var = (num as u128) / (den as u128);
        let root = isqrt(var);
        if root > RAW_LIMIT as u128 {
            Fixed::new(RAW_LIMIT)
        } else {
            Fixed::new(root as i64)
        }
    }
}

/// Binary-search integer square root.
fn isqrt(v: u128) -> (r: u128)
    ensures
        r == spec_isqrt(v as nat),
        r * r <= v,
        v < (r + 1) * (r + 1),
{
    let mut lo: u128 = 0;
    let mut hi: u128 = 0x1_0000_0000_0000_0000;
    proof {
        assert((0x1_0000_0000_0000_0000 as int) * (0x1_0000_0000_0000_0000 as int) > u128::MAX
            as int) by (nonlinear_arith);
    }
    while hi - lo > 1
        invariant
            lo < hi <= 0x1_0000_0000_0000_0000,
            lo * lo <= v,
            (v as int) < hi * hi,
        decreases hi - lo,
    {
        let mid = lo + (hi - lo) / 2;
        proof {
            assert(mid * mid <= (0xFFFF_FFFF_FFFF_FFFF as int) * (0xFFFF_FFFF_FFFF_FFFF as int))
                by (nonlinear_arith)
                requires 0 <= mid <= 0xFFFF_FFFF_FFFF_FFFF,
            {}
            assert((0xFFFF_FFFF_FFFF_FFFF as int) * (0xFFFF_FFFF_FFFF_FFFF as int) <= u128::MAX
                as int) by (nonlinear_arith);
        }
        if mid * mid <= v {
            lo = mid;
        } else {
            hi = mid;
        }
    }
    proof {
        lemma_isqrt_unique(v as nat, lo as nat);
    }
    lo
}

} // verus!
