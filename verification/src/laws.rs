//! Global laws of the accumulator.
//!
//! [`hist_accum`] folds a whole sample sequence through [`hist_add`], which
//! is exactly what a caller of `Hstats::add` builds up: `new` establishes
//! `hist_empty` and each `add` moves the model by one `hist_add` step. The
//! laws here therefore speak about every accumulator a caller can reach:
//! conservation of counts, and that splitting the samples into partitions,
//! accumulating each and merging gives the accumulator of the whole — in
//! any merge order.

use vstd::prelude::*;
use crate::fixed::RAW_LIMIT;
use crate::hstats::{
    cfg_valid, compatible, hist_add, hist_empty, hist_merge, hist_wf, lemma_bin_index_in_range,
    lemma_hist_add_wf, lemma_sum_bins_zero, spec_bin_index, sum_bins, HistModel,
};
use crate::stats::{stats_add, stats_empty, stats_merge, stats_wf, StatsModel, MAX_COUNT};

verus! {

/// Every sample within the representable tick range.
pub open spec fn samples_valid(s: Seq<int>) -> bool {
    forall|i: int| 0 <= i < s.len() ==> -RAW_LIMIT <= #[trigger] s[i] <= RAW_LIMIT
}

/// The accumulator state after taking a whole sequence of samples, oldest
/// first, starting from the empty accumulator.
pub open spec fn hist_accum(start: int, end: int, bin_count: nat, samples: Seq<int>) -> HistModel
    decreases samples.len(),
{
    if samples.len() == 0 {
        hist_empty(start, end, bin_count)
    } else {
        hist_add(hist_accum(start, end, bin_count, samples.drop_last()), samples.last())
    }
}

/// A freshly built accumulator is well-formed.
pub proof fn lemma_hist_empty_wf(start: int, end: int, bin_count: nat)
    requires
        cfg_valid(start, end, bin_count),
    ensures
        hist_wf(hist_empty(start, end, bin_count)),
{
    lemma_sum_bins_zero(hist_empty(start, end, bin_count).bins);
}

/// Accumulating any admissible sample sequence yields a well-formed
/// accumulator whose configuration is the given one and whose statistics
/// counted every sample.
pub proof fn lemma_accum_wf(start: int, end: int, bin_count: nat, samples: Seq<int>)
    requires
        cfg_valid(start, end, bin_count),
        samples_valid(samples),
        samples.len() <= MAX_COUNT as nat,
    ensures
        hist_wf(hist_accum(start, end, bin_count, samples)),
        hist_accum(start, end, bin_count, samples).stats.count == samples.len(),
        hist_accum(start, end, bin_count, samples).start == start,
        hist_accum(start, end, bin_count, samples).end == end,
        hist_accum(start, end, bin_count, samples).bin_count == bin_count,
    decreases samples.len(),
{
    if samples.len() == 0 {
        lemma_hist_empty_wf(start, end, bin_count);
    } else {
        assert(samples_valid(samples.drop_last()));
        lemma_accum_wf(start, end, bin_count, samples.drop_last());
        lemma_hist_add_wf(hist_accum(start, end, bin_count, samples.drop_last()), samples.last());
    }
}

/// Conservation: after taking any admissible sample sequence, the bin
/// counters, the underflow counter and the overflow counter add up to
/// exactly the number of samples taken.
pub proof fn lemma_conservation(start: int, end: int, bin_count: nat, samples: Seq<int>)
    requires
        cfg_valid(start, end, bin_count),
        samples_valid(samples),
        samples.len() <= MAX_COUNT as nat,
    ensures
        sum_bins(hist_accum(start, end, bin_count, samples).bins) + hist_accum(start, end,
        bin_count, samples).underflow + hist_accum(start, end, bin_count, samples).overflow
            == samples.len(),
{
    lemma_accum_wf(start, end, bin_count, samples);
}

/// Taking a sample into one side of a merge is taking it into the merge.
proof fn lemma_stats_merge_add(a: StatsModel, b: StatsModel, v: int)
    requires
        stats_wf(a),
        stats_wf(b),
    ensures
        stats_merge(a, stats_add(b, v)) == stats_add(stats_merge(a, b), v),
{
}

/// Taking a sample into one side of a merge is taking it into the merge.
proof fn lemma_hist_merge_add(a: HistModel, b: HistModel, v: int)
    requires
        hist_wf(a),
        hist_wf(b),
        compatible(a, b),
    ensures
        hist_merge(a, hist_add(b, v)) == hist_add(hist_merge(a, b), v),
{
    lemma_stats_merge_add(a.stats, b.stats, v);
    let l = hist_merge(a, hist_add(b, v));
    let r = hist_add(hist_merge(a, b), v);
    if v < a.start || v >= a.end {
        assert(l =~= r);
    } else {
        lemma_bin_index_in_range(a.start, a.end, a.bin_count, v);
        let k = spec_bin_index(a.start, a.end, a.bin_count, v);
        assert(l.bins =~= r.bins);
        assert(l =~= r);
    }
}

/// Partition correctness: accumulating two sample sequences separately and
/// merging gives exactly the accumulator of the concatenated sequence —
/// identical bins, underflow, overflow and statistics.
pub proof fn lemma_partition_merge(start: int, end: int, bin_count: nat, s1: Seq<int>, s2: Seq<
    int,
>)
    requires
        cfg_valid(start, end, bin_count),
        samples_valid(s1),
        samples_valid(s2),
        s1.len() + s2.len() <= MAX_COUNT as nat,
    ensures
        hist_merge(hist_accum(start, end, bin_count, s1), hist_accum(start, end, bin_count, s2))
            == hist_accum(start, end, bin_count, s1 + s2),
    decreases s2.len(),
{
    let a1 = hist_accum(start, end, bin_count, s1);
    lemma_accum_wf(start, end, bin_count, s1);
    if s2.len() == 0 {
        assert(s1 + s2 =~= s1);
        let e = hist_accum(start, end, bin_count, s2);
        assert(e == hist_empty(start, end, bin_count));
        assert(hist_merge(a1, e).bins =~= a1.bins);
        assert(hist_merge(a1, e).stats == a1.stats);
        assert(hist_merge(a1, e) =~= a1);
    } else {
        let t = s2.drop_last();
        let x = s2.last();
        assert(samples_valid(t));
        lemma_partition_merge(start, end, bin_count, s1, t);
        lemma_accum_wf(start, end, bin_count, t);
        let a2 = hist_accum(start, end, bin_count, t);
        assert((s1 + s2).drop_last() =~= s1 + t);
        assert((s1 + s2).last() == x);
        assert(hist_accum(start, end, bin_count, s1 + s2) == hist_add(hist_accum(start, end,
        bin_count, s1 + t), x));
        lemma_hist_merge_add(a1, a2, x);
    }
}

/// Merging is commutative: the two orders give identical accumulators.
pub proof fn lemma_merge_commutative(a: HistModel, b: HistModel)
    requires
        hist_wf(a),
        hist_wf(b),
        compatible(a, b),
    ensures
        hist_merge(a, b) == hist_merge(b, a),
{
    assert(hist_merge(a, b).bins =~= hist_merge(b, a).bins);
    assert(hist_merge(a, b) =~= hist_merge(b, a));
}

/// Merging is associative: reducing partitions in any grouping gives
/// identical accumulators.
pub proof fn lemma_merge_associative(a: HistModel, b: HistModel, c: HistModel)
    requires
        hist_wf(a),
        hist_wf(b),
        hist_wf(c),
        compatible(a, b),
        compatible(b, c),
    ensures
        hist_merge(hist_merge(a, b), c) == hist_merge(a, hist_merge(b, c)),
{
    let l = hist_merge(hist_merge(a, b), c);
    let r = hist_merge(a, hist_merge(b, c));
    assert(l.stats == r.stats);
    assert(l.bins =~= r.bins);
    assert(l =~= r);
}

} // verus!
