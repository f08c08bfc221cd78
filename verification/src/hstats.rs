//! The histogram accumulator.
//!
//! An [`Hstats`] covers the half-open domain `[start, end)` with `bin_count`
//! equal-width bins. Each added sample bumps exactly one counter: the bin it
//! falls in, the underflow counter (samples below `start`) or the overflow
//! counter (samples at or above `end`); the running statistics take every
//! sample. Accumulators built over disjoint partitions of the data merge
//! into the accumulator of the whole.
//!
//! The bin of an in-range sample is `(v - start) * bin_count / (end - start)`
//! rounded down, computed exactly over ticks, so the index provably lies in
//! `[0, bin_count)` and no clamping is needed — a floating-point
//! implementation of the same formula would have to clamp against rounding.

use vstd::prelude::*;
use vstd::arithmetic::div_mod::{
    lemma_div_pos_is_pos, lemma_fundamental_div_mod, lemma_multiply_divide_lt,
};
use crate::fixed::{Fixed, RAW_LIMIT};
use crate::render::{
    bar_len, dec_string, format_fixed, pad_left, percent_string, repeat_str, spec_bar_len,
    spec_format_fixed, spec_pad_left, spec_percent, spec_repeat,
};
use vstd::string::{StrSliceExecFns, StringExecFns};
use crate::stats::{
    lemma_stats_add_wf, lemma_stats_merge_wf, spec_mean, spec_std_dev, stats_add, stats_empty,
    stats_merge, stats_wf, RunningStats, StatsModel, MAX_COUNT,
};

verus! {

/// Why a construction or a merge was refused; each variant carries the
/// offending values.
#[derive(Clone, Copy, Debug, PartialEq, Eq, Structural)]
pub enum HstatsError {
    /// `new` needs `start < end`.
    InvalidRange { start: Fixed, end: Fixed },
    /// `new` needs at least one bin.
    ZeroBinCount,
    /// The merged accumulators' `start` values differ.
    StartMismatch { start_left: Fixed, start_right: Fixed },
    /// The merged accumulators' `end` values differ.
    EndMismatch { end_left: Fixed, end_right: Fixed },
    /// The merged accumulators' bin counts differ.
    BinCountMismatch { count_left: usize, count_right: usize },
}

/// The text of an error: which constraint was violated, with the offending
/// values.
pub open spec fn spec_error_message(e: HstatsError) -> Seq<char> {
    match e {
        HstatsError::InvalidRange { start, end } => "start ("@ + spec_format_fixed(start@, 6)
            + ") must be less than end ("@ + spec_format_fixed(end@, 6) + ")"@,
        HstatsError::ZeroBinCount => "bin_count (0) must be greater than 0"@,
        HstatsError::StartMismatch { start_left, start_right } => "Starts must be equal: "@
            + spec_format_fixed(start_left@, 6) + " != "@ + spec_format_fixed(start_right@, 6),
        HstatsError::EndMismatch { end_left, end_right } => "Ends must be equal: "@
            + spec_format_fixed(end_left@, 6) + " != "@ + spec_format_fixed(end_right@, 6),
        HstatsError::BinCountMismatch { count_left, count_right } => "Bin counts must be equal: "@
            + crate::render::spec_dec(count_left as nat) + " != "@ + crate::render::spec_dec(
        count_right as nat),
    }
}

impl HstatsError {
    /// Describes the error: the violated constraint and the offending
    /// values, with full tick precision.
    pub fn message(&self) -> (s: String)
        ensures
            s@ == spec_error_message(*self),
    {
        match self {
            HstatsError::InvalidRange { start, end } => {
                let mut s = "start (".to_owned();
                let a = format_fixed(*start, 6);
                s.append(a.as_str());
                s.append(") must be less than end (");
                let b = format_fixed(*end, 6);
                s.append(b.as_str());
                s.append(")");
                s
            },
            HstatsError::ZeroBinCount => "bin_count (0) must be greater than 0".to_owned(),
            HstatsError::StartMismatch { start_left, start_right } => {
                let mut s = "Starts must be equal: ".to_owned();
                let a = format_fixed(*start_left, 6);
                s.append(a.as_str());
                s.append(" != ");
                let b = format_fixed(*start_right, 6);
                s.append(b.as_str());
                s
            },
            HstatsError::EndMismatch { end_left, end_right } => {
                let mut s = "Ends must be equal: ".to_owned();
                let a = format_fixed(*end_left, 6);
                s.append(a.as_str());
                s.append(" != ");
                let b = format_fixed(*end_right, 6);
                s.append(b.as_str());
                s
            },
            HstatsError::BinCountMismatch { count_left, count_right } => {
                let mut s = "Bin counts must be equal: ".to_owned();
                let a = dec_string((*count_left) as u64);
                s.append(a.as_str());
                s.append(" != ");
                let b = dec_string((*count_right) as u64);
                s.append(b.as_str());
                s
            },
        }
    }
}

/// One endpoint of a reported bin range.
#[derive(Clone, Copy, Debug, PartialEq, Eq, Structural)]
pub enum Bound {
    /// Below every sample: the lower edge of the underflow range.
    NegInf,
    /// A finite edge, in ticks.
    Finite(Fixed),
    /// Above every sample: the upper edge of the overflow range.
    PosInf,
}

/// The tick value of a finite endpoint.
pub open spec fn bound_val(b: Bound) -> int {
    match b {
        Bound::Finite(f) => f@,
        Bound::NegInf => 0,
        Bound::PosInf => 0,
    }
}

/// Mathematical state of an accumulator: its configuration, its counters
/// and the summary of every sample it took.
#[verifier::ext_equal]
pub ghost struct HistModel {
    pub start: int,
    pub end: int,
    pub bin_count: nat,
    pub bins: Seq<nat>,
    pub underflow: nat,
    pub overflow: nat,
    pub stats: StatsModel,
}

/// A configuration an accumulator can be built with: a non-empty domain
/// within the representable sample range, and at least one bin.
pub open spec fn cfg_valid(start: int, end: int, bin_count: nat) -> bool {
    &&& -RAW_LIMIT <= start < end <= RAW_LIMIT
    &&& bin_count >= 1
}

/// Width of one bin in ticks, rounded down.
pub open spec fn spec_bin_width(start: int, end: int, bin_count: nat) -> int {
    (end - start) / (bin_count as int)
}

/// The bin an in-range sample falls in: the floor of its exact relative
/// position scaled by the bin count.
pub open spec fn spec_bin_index(start: int, end: int, bin_count: nat, v: int) -> int {
    (v - start) * (bin_count as int) / (end - start)
}

/// Total of all bin counters.
pub open spec fn sum_bins(s: Seq<nat>) -> nat
    decreases s.len(),
{
    if s.len() == 0 {
        0
    } else {
        sum_bins(s.drop_last()) + s.last()
    }
}

/// The state of a freshly built accumulator: all counters zero.
pub open spec fn hist_empty(start: int, end: int, bin_count: nat) -> HistModel {
    HistModel {
        start,
        end,
        bin_count,
        bins: Seq::new(bin_count, |i: int| 0nat),
        underflow: 0,
        overflow: 0,
        stats: stats_empty(),
    }
}

/// The state after taking one sample: the statistics always take it, and
/// exactly one counter is bumped according to the boundary policy — below
/// `start` is underflow, at or above `end` is overflow, otherwise the bin
/// given by `spec_bin_index`.
pub open spec fn hist_add(m: HistModel, v: int) -> HistModel {
    let st = stats_add(m.stats, v);
    if v < m.start {
        HistModel { underflow: m.underflow + 1, stats: st, ..m }
    } else if v >= m.end {
        HistModel { overflow: m.overflow + 1, stats: st, ..m }
    } else {
        let i = spec_bin_index(m.start, m.end, m.bin_count, v);
        HistModel { bins: m.bins.update(i, m.bins[i] + 1), stats: st, ..m }
    }
}

/// Whether two accumulators may merge: identical `start`, `end` and bin
/// count.
pub open spec fn compatible(a: HistModel, b: HistModel) -> bool {
    a.start == b.start && a.end == b.end && a.bin_count == b.bin_count
}

/// The merge of two compatible accumulators: counters add pairwise and the
/// statistics pool.
pub open spec fn hist_merge(a: HistModel, b: HistModel) -> HistModel {
    HistModel {
        start: a.start,
        end: a.end,
        bin_count: a.bin_count,
        bins: Seq::new(a.bins.len(), |i: int| a.bins[i] + b.bins[i]),
        underflow: a.underflow + b.underflow,
        overflow: a.overflow + b.overflow,
        stats: stats_merge(a.stats, b.stats),
    }
}

/// Every reachable accumulator state satisfies this: a valid configuration,
/// one counter per bin, well-formed statistics, and conservation — the bin
/// counters, underflow and overflow add up to exactly the number of samples
/// taken.
pub open spec fn hist_wf(m: HistModel) -> bool {
    &&& cfg_valid(m.start, m.end, m.bin_count)
    &&& m.bins.len() == m.bin_count
    &&& stats_wf(m.stats)
    &&& sum_bins(m.bins) + m.underflow + m.overflow == m.stats.count
}

/// The bin index of an in-range sample lies in `[0, bin_count)`.
pub proof fn lemma_bin_index_in_range(start: int, end: int, bin_count: nat, v: int)
    requires
        cfg_valid(start, end, bin_count),
        start <= v < end,
    ensures
        0 <= spec_bin_index(start, end, bin_count, v) < bin_count,
{
    let d = end - start;
    let num = (v - start) * (bin_count as int);
    assert(num >= 0) by (nonlinear_arith)
        requires v - start >= 0, bin_count >= 1, num == (v - start) * (bin_count as int),
    {}
    lemma_div_pos_is_pos(num, d);
    assert(num < d * (bin_count as int)) by (nonlinear_arith)
        requires v - start < d, bin_count >= 1, num == (v - start) * (bin_count as int),
    {}
    lemma_multiply_divide_lt(num, d, bin_count as int);
}

/// Two finite endpoints with the same tick value are the same endpoint.
proof fn lemma_bound_finite_eq(a: Bound, b: Bound)
    requires
        a is Finite,
        b is Finite,
        bound_val(a) == bound_val(b),
    ensures
        a == b,
{
    match a {
        Bound::Finite(x) => match b {
            Bound::Finite(y) => {
                Fixed::lemma_view_injective(x, y);
            },
            _ => {},
        },
        _ => {},
    }
}

/// Bumping one counter raises the total by one.
pub proof fn lemma_sum_bins_update(s: Seq<nat>, i: int)
    requires
        0 <= i < s.len(),
    ensures
        sum_bins(s.update(i, s[i] + 1)) == sum_bins(s) + 1,
    decreases s.len(),
{
    let t = s.update(i, s[i] + 1);
    if i == s.len() - 1 {
        assert(t.drop_last() =~= s.drop_last());
        assert(t.last() == s.last() + 1);
    } else {
        assert(t.drop_last() =~= s.drop_last().update(i, s.drop_last()[i] + 1));
        lemma_sum_bins_update(s.drop_last(), i);
        assert(t.last() == s.last());
    }
}

/// No counter exceeds the total.
pub proof fn lemma_sum_bins_elem(s: Seq<nat>, i: int)
    requires
        0 <= i < s.len(),
    ensures
        s[i] <= sum_bins(s),
    decreases s.len(),
{
    if i < s.len() - 1 {
        lemma_sum_bins_elem(s.drop_last(), i);
    }
}

/// The total of pairwise sums is the sum of the totals.
pub proof fn lemma_sum_bins_pairwise(a: Seq<nat>, b: Seq<nat>)
    requires
        a.len() == b.len(),
    ensures
        sum_bins(Seq::new(a.len(), |i: int| a[i] + b[i])) == sum_bins(a) + sum_bins(b),
    decreases a.len(),
{
    let t = Seq::new(a.len(), |i: int| a[i] + b[i]);
    if a.len() > 0 {
        lemma_sum_bins_pairwise(a.drop_last(), b.drop_last());
        assert(t.drop_last() =~= Seq::new(a.drop_last().len(), |i: int| a.drop_last()[i]
            + b.drop_last()[i]));
        assert(t.last() == a.last() + b.last());
    }
}

/// A sequence of zero counters has total zero.
pub proof fn lemma_sum_bins_zero(s: Seq<nat>)
    requires
        forall|i: int| 0 <= i < s.len() ==> s[i] == 0,
    ensures
        sum_bins(s) == 0,
    decreases s.len(),
{
    if s.len() > 0 {
        lemma_sum_bins_zero(s.drop_last());
    }
}

/// Taking a bounded sample preserves well-formedness.
pub proof fn lemma_hist_add_wf(m: HistModel, v: int)
    requires
        hist_wf(m),
        m.stats.count < MAX_COUNT as nat,
        -RAW_LIMIT <= v <= RAW_LIMIT,
    ensures
        hist_wf(hist_add(m, v)),
{
    lemma_stats_add_wf(m.stats, v);
    if m.start <= v < m.end {
        lemma_bin_index_in_range(m.start, m.end, m.bin_count, v);
        lemma_sum_bins_update(m.bins, spec_bin_index(m.start, m.end, m.bin_count, v));
    }
}

/// Merging compatible well-formed accumulators within the count cap yields
/// a well-formed accumulator.
pub proof fn lemma_hist_merge_wf(a: HistModel, b: HistModel)
    requires
        hist_wf(a),
        hist_wf(b),
        compatible(a, b),
        a.stats.count + b.stats.count <= MAX_COUNT as nat,
    ensures
        hist_wf(hist_merge(a, b)),
{
    lemma_stats_merge_wf(a.stats, b.stats);
    lemma_sum_bins_pairwise(a.bins, b.bins);
}

/// The bar glyph a fresh accumulator renders with.
pub open spec fn default_glyph() -> Seq<char> {
    "#"@
}

/// The report's trailing summary line: total count, minimum, maximum, mean
/// and standard deviation at precision `p` (extrema read as zero while no
/// sample was taken).
pub open spec fn spec_summary_line(m: HistModel, p: nat) -> Seq<char> {
    let mn = if m.stats.count > 0 {
        m.stats.min
    } else {
        0
    };
    let mx = if m.stats.count > 0 {
        m.stats.max
    } else {
        0
    };
    "Total Count: "@ + crate::render::spec_dec(m.stats.count) + " Min: "@ + spec_format_fixed(
    mn, p) + " Max: "@ + spec_format_fixed(mx, p) + " Mean: "@ + spec_format_fixed(spec_mean(
    m.stats), p) + " Std Dev: "@ + spec_format_fixed(spec_std_dev(m.stats), p) + "\n"@
}

/// The text of row `i`'s lower bound at precision `p`: the underflow row
/// opens at negative infinity, bin rows at their left edge, the overflow
/// row at `end`.
pub open spec fn spec_lo_text(m: HistModel, p: nat, i: int) -> Seq<char> {
    if i == 0 {
        "-inf"@
    } else if i <= m.bin_count {
        spec_format_fixed(m.start + (i - 1) * spec_bin_width(m.start, m.end, m.bin_count), p)
    } else {
        spec_format_fixed(m.end, p)
    }
}

/// The text of row `i`'s upper bound at precision `p`: bin rows close at
/// their right edge, the overflow row at positive infinity.
pub open spec fn spec_hi_text(m: HistModel, p: nat, i: int) -> Seq<char> {
    if i == 0 {
        spec_format_fixed(m.start, p)
    } else if i <= m.bin_count {
        spec_format_fixed(m.start + i * spec_bin_width(m.start, m.end, m.bin_count), p)
    } else {
        "inf"@
    }
}

/// What `Hstats::bins` reports for the model `m`: the underflow range, the
/// bins in order, the overflow range, each with its counter.
pub open spec fn rows_match(m: HistModel, rows: Seq<(Bound, Bound, u64)>) -> bool {
    &&& rows.len() == m.bin_count + 2
    &&& rows[0].0 is NegInf
    &&& rows[0].1 is Finite && bound_val(rows[0].1) == m.start
    &&& rows[0].2 as nat == m.underflow
    &&& rows[m.bin_count as int + 1].0 is Finite && bound_val(rows[m.bin_count as int + 1].0)
        == m.end
    &&& rows[m.bin_count as int + 1].1 is PosInf
    &&& rows[m.bin_count as int + 1].2 as nat == m.overflow
    &&& forall|i: int| 1 <= i <= m.bin_count ==> (#[trigger] rows[i]).0 is Finite && bound_val(
    rows[i].0) == m.start + (i - 1) * spec_bin_width(m.start, m.end, m.bin_count)
    &&& forall|i: int| 1 <= i <= m.bin_count ==> (#[trigger] rows[i]).1 is Finite && bound_val(
    rows[i].1) == m.start + i * spec_bin_width(m.start, m.end, m.bin_count)
    &&& forall|i: int| 1 <= i <= m.bin_count ==> (#[trigger] rows[i]).2 as nat == m.bins[i - 1]
}

/// The counter shown in row `i`: underflow, the bin, or overflow.
pub open spec fn spec_row_count(m: HistModel, i: int) -> nat {
    if i == 0 {
        m.underflow
    } else if i <= m.bin_count {
        m.bins[i - 1]
    } else {
        m.overflow
    }
}

/// The fullest bin's count.
pub open spec fn spec_max_bins(s: Seq<nat>) -> nat
    decreases s.len(),
{
    if s.len() == 0 {
        0
    } else {
        let r = spec_max_bins(s.drop_last());
        if s.last() > r {
            s.last()
        } else {
            r
        }
    }
}

/// Width of the lower-bound column over the first `k` rows: the widest of
/// the `Start` header and those rows' lower-bound texts.
pub open spec fn spec_lo_width(m: HistModel, p: nat, k: int) -> nat
    decreases k,
{
    if k <= 0 {
        "Start"@.len()
    } else {
        let prev = spec_lo_width(m, p, k - 1);
        let cur = spec_lo_text(m, p, k - 1).len();
        if cur > prev {
            cur
        } else {
            prev
        }
    }
}

/// Width of the upper-bound column over the first `k` rows: the widest of
/// the `End` header and those rows' upper-bound texts.
pub open spec fn spec_hi_width(m: HistModel, p: nat, k: int) -> nat
    decreases k,
{
    if k <= 0 {
        "End"@.len()
    } else {
        let prev = spec_hi_width(m, p, k - 1);
        let cur = spec_hi_text(m, p, k - 1).len();
        if cur > prev {
            cur
        } else {
            prev
        }
    }
}

/// The report's header line: the column titles, right-aligned to the
/// column widths.
pub open spec fn spec_header(c1: nat, c2: nat) -> Seq<char> {
    spec_pad_left("Start"@, c1) + " | "@ + spec_pad_left("End"@, c2) + "\n"@
}

/// The report's rule under the header.
pub open spec fn spec_separator(c1: nat, c2: nat) -> Seq<char> {
    spec_repeat("-"@, c1) + "-|-"@ + spec_repeat("-"@, c2) + "-\n"@
}

/// One data row: both bounds right-aligned to their columns, the bar of
/// `glyph` scaled against the fullest bin `maxc`, the raw count, and its
/// percentage of the total (zero while no sample was taken).
pub open spec fn spec_row(m: HistModel, p: nat, glyph: Seq<char>, maxc: nat, c1: nat, c2: nat,
    i: int) -> Seq<char> {
    spec_pad_left(spec_lo_text(m, p, i), c1) + " | "@ + spec_pad_left(spec_hi_text(m, p, i), c2)
        + " | "@ + spec_repeat(glyph, spec_bar_len(spec_row_count(m, i), maxc)) + " "@
        + crate::render::spec_dec(spec_row_count(m, i)) + " ("@ + (if m.stats.count > 0 {
        spec_percent(spec_row_count(m, i), m.stats.count)
    } else {
        "0.00"@
    }) + "%)\n"@
}

/// The first `k` data rows, in order.
pub open spec fn spec_rows(m: HistModel, p: nat, glyph: Seq<char>, maxc: nat, c1: nat, c2: nat,
    k: int) -> Seq<char>
    decreases k,
{
    if k <= 0 {
        Seq::empty()
    } else {
        spec_rows(m, p, glyph, maxc, c1, c2, k - 1) + spec_row(m, p, glyph, maxc, c1, c2, k - 1)
    }
}

/// The whole report: header, rule, one row per range of `bins()` in
/// order, a blank line, and the summary line.
pub open spec fn spec_report(m: HistModel, p: nat, glyph: Seq<char>) -> Seq<char> {
    let c1 = spec_lo_width(m, p, m.bin_count as int + 2);
    let c2 = spec_hi_width(m, p, m.bin_count as int + 2);
    let maxc = spec_max_bins(m.bins);
    spec_header(c1, c2) + spec_separator(c1, c2) + spec_rows(m, p, glyph, maxc, c1, c2,
    m.bin_count as int + 2) + "\n"@ + spec_summary_line(m, p)
}

/// A streaming histogram accumulator with fixed range `[start, end)` and
/// equal-width bins.
#[derive(Clone, Debug)]
pub struct Hstats {
    start: Fixed,
    end: Fixed,
    bin_count: usize,
    bin_width: Fixed,
    bins: Vec<u64>,
    underflow: u64,
    overflow: u64,
    stats: RunningStats,
    precision: usize,
    bar_char: String,
}

impl View for Hstats {
    type V = HistModel;

    closed spec fn view(&self) -> HistModel {
        HistModel {
            start: self.start@,
            end: self.end@,
            bin_count: self.bin_count as nat,
            bins: self.bins@.map_values(|c: u64| c as nat),
            underflow: self.underflow as nat,
            overflow: self.overflow as nat,
            stats: self.stats@,
        }
    }
}

impl Hstats {
    /// Well-formedness: the model invariant, plus the cached bin width being
    /// exactly the derived one.
    pub closed spec fn wf(self) -> bool {
        &&& hist_wf(self@)
        &&& self.bin_width@ == spec_bin_width(self@.start, self@.end, self@.bin_count)
    }

    /// Report precision, in decimal digits.
    pub closed spec fn spec_precision(self) -> nat {
        self.precision as nat
    }

    /// Glyph the report's bars are drawn with.
    pub closed spec fn spec_bar_glyph(self) -> Seq<char> {
        self.bar_char@
    }

    /// A well-formed accumulator's model satisfies the model invariant.
    pub proof fn lemma_wf(self)
        requires
            self.wf(),
        ensures
            hist_wf(self@),
    {
    }

    /// Builds an accumulator over `[start, end)` with `bin_count` bins, all
    /// counters zero; refuses an empty range or a zero bin count, naming the
    /// offending values.
    pub fn new(start: Fixed, end: Fixed, bin_count: usize) -> (r: Result<Hstats, HstatsError>)
        requires
            start.valid(),
            end.valid(),
        ensures
            r is Ok <==> (start@ < end@ && bin_count >= 1),
            r matches Ok(h) ==> h.wf() && h@ == hist_empty(start@, end@, bin_count as nat)
                && h.spec_precision() == 2 && h.spec_bar_glyph() == default_glyph(),
            start@ >= end@ ==> r == Err::<Hstats, HstatsError>(HstatsError::InvalidRange {
                start,
                end,
            }),
            start@ < end@ && bin_count == 0 ==> r == Err::<Hstats, HstatsError>(
                HstatsError::ZeroBinCount,
            ),
    {
        if start.raw() >= end.raw() {
            return Err(HstatsError::InvalidRange { start, end });
        }
        if bin_count == 0 {
            return Err(HstatsError::ZeroBinCount);
        }
        let range = (end.raw() - start.raw()) as u64;
        let width = range / (bin_count as u64);
        let mut bins: Vec<u64> = Vec::new();
        let mut i: usize = 0;
        while i < bin_count
            invariant
                i <= bin_count,
                bins@.len() == i,
                forall|j: int| 0 <= j < i ==> bins@[j] == 0u64,
            decreases bin_count - i,
        {
            bins.push(0);
            i = i + 1;
        }
        let h = Hstats {
            start,
            end,
            bin_count,
            bin_width: Fixed::from_ticks(width as i64),
            bins,
            underflow: 0,
            overflow: 0,
            stats: RunningStats::new(),
            precision: 2,
            bar_char: "#".to_owned(),
        };
        proof {
            assert(h@.bins =~= hist_empty(start@, end@, bin_count as nat).bins);
            assert(h@ =~= hist_empty(start@, end@, bin_count as nat));
            lemma_sum_bins_zero(h@.bins);
        }
        Ok(h)
    }

    /// Takes one sample: the statistics always take it, and exactly one
    /// counter is bumped — underflow below `start`, overflow at or above
    /// `end`, otherwise the bin the sample falls in.
    pub fn add(&mut self, value: Fixed)
        requires
            old(self).wf(),
            value.valid(),
            old(self)@.stats.count < MAX_COUNT as nat,
        ensures
            final(self).wf(),
            final(self)@ == hist_add(old(self)@, value@),
            final(self).spec_precision() == old(self).spec_precision(),
            final(self).spec_bar_glyph() == old(self).spec_bar_glyph(),
    {
        proof {
            lemma_hist_add_wf(old(self)@, value@);
        }
        self.stats.update(value);
        let v = value.raw();
        if v < self.start.raw() {
            self.underflow = self.underflow + 1;
        } else if v >= self.end.raw() {
            self.overflow = self.overflow + 1;
        } else {
            let ghost m = old(self)@;
            proof {
                lemma_bin_index_in_range(m.start, m.end, m.bin_count, value@);
                assert((value@ - m.start) * (m.bin_count as int) <= (RAW_LIMIT as int
                    + RAW_LIMIT as int) * (usize::MAX as int)) by (nonlinear_arith)
                    requires
                        0 <= value@ - m.start <= RAW_LIMIT as int + RAW_LIMIT as int,
                        0 <= m.bin_count <= usize::MAX as nat,
                {}
                assert((RAW_LIMIT as int + RAW_LIMIT as int) * (usize::MAX as int) < u128::MAX
                    as int) by (nonlinear_arith)
                    requires RAW_LIMIT == 0x8000_0000i64, usize::MAX <= u64::MAX,
                {}
            }
            let num = ((v - self.start.raw()) as u64 as u128) * (self.bin_count as u128);
            let den = (self.end.raw() - self.start.raw()) as u64 as u128;
            let idx = (num / den) as usize;
            proof {
                lemma_sum_bins_elem(m.bins, idx as int);
            }
            let c = self.bins[idx];
            self.bins.set(idx, c + 1);
        }
        proof {
            assert(self@.bins =~= hist_add(old(self)@, value@).bins);
            assert(self@ =~= hist_add(old(self)@, value@));
        }
    }

    /// Merges two compatible accumulators into the accumulator of all their
    /// samples: counters add pairwise, statistics pool. Refuses, naming the
    /// differing field and its two values, when `start`, `end` or the bin
    /// count differ. The result carries default display configuration.
    pub fn merge(&self, other: &Hstats) -> (r: Result<Hstats, HstatsError>)
        requires
            self.wf(),
            other.wf(),
            self@.stats.count + other@.stats.count <= MAX_COUNT as nat,
        ensures
            r is Ok <==> compatible(self@, other@),
            r matches Ok(h) ==> h.wf() && h@ == hist_merge(self@, other@),
            self@.start != other@.start ==> (r matches Err(e)
                && e matches HstatsError::StartMismatch { start_left, start_right }
                && start_left@ == self@.start && start_right@ == other@.start),
            self@.start == other@.start && self@.end != other@.end ==> (r matches Err(e)
                && e matches HstatsError::EndMismatch { end_left, end_right }
                && end_left@ == self@.end && end_right@ == other@.end),
            self@.start == other@.start && self@.end == other@.end && self@.bin_count
                != other@.bin_count ==> (r matches Err(e)
                && e matches HstatsError::BinCountMismatch { count_left, count_right }
                && count_left as nat == self@.bin_count && count_right as nat
                == other@.bin_count),
    {
        if self.start.raw() != other.start.raw() {
            return Err(HstatsError::StartMismatch {
                start_left: self.start,
                start_right: other.start,
            });
        }
        if self.end.raw() != other.end.raw() {
            return Err(HstatsError::EndMismatch { end_left: self.end, end_right: other.end });
        }
        if self.bin_count != other.bin_count {
            return Err(HstatsError::BinCountMismatch {
                count_left: self.bin_count,
                count_right: other.bin_count,
            });
        }
        proof {
            lemma_hist_merge_wf(self@, other@);
        }
        let stats = self.stats.merge(&other.stats);
        let mut bins: Vec<u64> = Vec::new();
        let mut i: usize = 0;
        while i < self.bin_count
            invariant
                i <= self.bin_count,
                bins@.len() == i,
                self.wf(),
                other.wf(),
                self.bin_count == other.bin_count,
                forall|j: int| 0 <= j < i ==> bins@[j] == self.bins@[j] + other.bins@[j],
            decreases self.bin_count - i,
        {
            proof {
                lemma_sum_bins_elem(self@.bins, i as int);
                lemma_sum_bins_elem(other@.bins, i as int);
            }
            let c = self.bins[i] + other.bins[i];
            bins.push(c);
            i = i + 1;
        }
        let h = Hstats {
            start: self.start,
            end: self.end,
            bin_count: self.bin_count,
            bin_width: self.bin_width,
            bins,
            underflow: self.underflow + other.underflow,
            overflow: self.overflow + other.overflow,
            stats,
            precision: 2,
            bar_char: "#".to_owned(),
        };
        proof {
            assert(h@.bins =~= hist_merge(self@, other@).bins);
            assert(h@ =~= hist_merge(self@, other@));
        }
        Ok(h)
    }

    /// Number of bins, as configured at construction.
    pub fn bin_count(&self) -> (r: usize)
        ensures
            r as nat == self@.bin_count,
    {
        self.bin_count
    }

    /// Width of one bin in ticks: `(end - start) / bin_count`, rounded down.
    pub fn bin_width(&self) -> (r: Fixed)
        requires
            self.wf(),
        ensures
            r@ == spec_bin_width(self@.start, self@.end, self@.bin_count),
    {
        self.bin_width
    }

    /// Lower bound of the binned domain; samples below it count as
    /// underflow.
    pub fn start(&self) -> (r: Fixed)
        requires
            self.wf(),
        ensures
            r@ == self@.start,
            r.valid(),
    {
        self.start
    }

    /// Upper bound of the binned domain; samples at or above it count as
    /// overflow.
    pub fn end(&self) -> (r: Fixed)
        requires
            self.wf(),
        ensures
            r@ == self@.end,
            r.valid(),
    {
        self.end
    }

    /// Largest sample seen; zero when no sample was taken.
    pub fn max(&self) -> (r: Fixed)
        requires
            self.wf(),
        ensures
            self@.stats.count > 0 ==> r@ == self@.stats.max,
            self@.stats.count == 0 ==> r@ == 0,
            r.valid(),
    {
        self.stats.max()
    }

    /// Smallest sample seen; zero when no sample was taken.
    pub fn min(&self) -> (r: Fixed)
        requires
            self.wf(),
        ensures
            self@.stats.count > 0 ==> r@ == self@.stats.min,
            self@.stats.count == 0 ==> r@ == 0,
            r.valid(),
    {
        self.stats.min()
    }

    /// Floor of the exact mean of all samples; zero when no sample was
    /// taken.
    pub fn mean(&self) -> (r: Fixed)
        requires
            self.wf(),
        ensures
            r@ == spec_mean(self@.stats),
            r.valid(),
    {
        self.stats.mean()
    }

    /// Integer square root of the exact sample variance; zero below two
    /// samples.
    pub fn std_dev(&self) -> (r: Fixed)
        requires
            self.wf(),
        ensures
            r@ == spec_std_dev(self@.stats),
            r.valid(),
    {
        self.stats.std_dev()
    }

    /// Number of samples taken, out-of-range ones included.
    pub fn count(&self) -> (r: u64)
        ensures
            r as nat == self@.stats.count,
    {
        self.stats.count()
    }

    /// Sets the report precision; computed values are untouched.
    pub fn with_precision(self, precision: usize) -> (r: Hstats)
        requires
            self.wf(),
        ensures
            r.wf(),
            r@ == self@,
            r.spec_precision() == precision as nat,
            r.spec_bar_glyph() == self.spec_bar_glyph(),
    {
        let mut h = self;
        h.precision = precision;
        h
    }

    /// Sets the glyph the report's bars are drawn with; computed values are
    /// untouched.
    pub fn with_bar_char(self, bar_char: &str) -> (r: Hstats)
        requires
            self.wf(),
        ensures
            r.wf(),
            r@ == self@,
            r.spec_precision() == self.spec_precision(),
            r.spec_bar_glyph() == bar_char@,
    {
        let mut h = self;
        h.bar_char = bar_char.to_owned();
        h
    }

    /// Reports every range with its count, in order: the underflow range
    /// below `start`, each bin `[start + i*width, start + (i+1)*width)`, and
    /// the overflow range from `end` up. Interior ranges are contiguous.
    pub fn bins(&self) -> (r: Vec<(Bound, Bound, u64)>)
        requires
            self.wf(),
        ensures
            r@.len() == self@.bin_count + 2,
            r@[0].0 is NegInf,
            r@[0].1 is Finite && bound_val(r@[0].1) == self@.start,
            r@[0].2 as nat == self@.underflow,
            r@[self@.bin_count as int + 1].0 is Finite && bound_val(r@[self@.bin_count as int + 1].0)
                == self@.end,
            r@[self@.bin_count as int + 1].1 is PosInf,
            r@[self@.bin_count as int + 1].2 as nat == self@.overflow,
            forall|i: int| 1 <= i <= self@.bin_count ==> (#[trigger] r@[i]).0 is Finite
                && bound_val(r@[i].0) == self@.start + (i - 1) * spec_bin_width(self@.start,
                self@.end, self@.bin_count),
            forall|i: int| 1 <= i <= self@.bin_count ==> (#[trigger] r@[i]).1 is Finite
                && bound_val(r@[i].1) == self@.start + i * spec_bin_width(self@.start, self@.end,
                self@.bin_count),
            forall|i: int| 1 <= i <= self@.bin_count ==> (#[trigger] r@[i]).2 as nat
                == self@.bins[i - 1],
            forall|i: int| 1 <= i <= self@.bin_count ==> (#[trigger] r@[i]).0 == r@[i - 1].1,
            rows_match(self@, r@),
    {
        let ghost w = spec_bin_width(self@.start, self@.end, self@.bin_count);
        proof {
            lemma_fundamental_div_mod(self@.end - self@.start, self@.bin_count as int);
            assert((self@.bin_count as int) * w <= self@.end - self@.start);
            lemma_div_pos_is_pos(self@.end - self@.start, self@.bin_count as int);
        }
        let mut r: Vec<(Bound, Bound, u64)> = Vec::new();
        r.push((Bound::NegInf, Bound::Finite(self.start), self.underflow));
        let width = self.bin_width.raw();
        let mut lower = self.start.raw();
        let mut i: usize = 0;
        while i < self.bin_count
            invariant
                i <= self.bin_count,
                r@.len() == i + 1,
                self.wf(),
                w == spec_bin_width(self@.start, self@.end, self@.bin_count),
                width == w,
                (self@.bin_count as int) * w <= self@.end - self@.start,
                w >= 0,
                lower == self@.start + i * w,
                self@.start <= lower <= self@.end,
                r@[0].0 is NegInf,
                r@[0].1 is Finite && bound_val(r@[0].1) == self@.start,
                r@[0].2 as nat == self@.underflow,
                forall|j: int| 1 <= j <= i ==> (#[trigger] r@[j]).0 is Finite && bound_val(
                r@[j].0) == self@.start + (j - 1) * w,
                forall|j: int| 1 <= j <= i ==> (#[trigger] r@[j]).1 is Finite && bound_val(
                r@[j].1) == self@.start + j * w,
                forall|j: int| 1 <= j <= i ==> (#[trigger] r@[j]).2 as nat == self@.bins[j - 1],
            decreases self.bin_count - i,
        {
            proof {
                assert((i + 1) * w <= (self@.bin_count as int) * w) by (nonlinear_arith)
                    requires w >= 0, i + 1 <= self@.bin_count as int,
                {}
                assert((i + 1) * w == i * w + w) by (nonlinear_arith) {}
            }
            let upper = lower + width;
            r.push((Bound::Finite(Fixed::from_ticks(lower)), Bound::Finite(Fixed::from_ticks(
                upper,
            )), self.bins[i]));
            lower = upper;
            i = i + 1;
        }
        r.push((Bound::Finite(self.end), Bound::PosInf, self.overflow));
        proof {
            assert forall|i: int| 1 <= i <= self@.bin_count implies (#[trigger] r@[i]).0 == r@[i
                - 1].1 by {
                assert((1 - 1) * w == 0);
                assert(bound_val(r@[i].0) == bound_val(r@[i - 1].1));
                lemma_bound_finite_eq(r@[i].0, r@[i - 1].1);
            }
        }
        r
    }

    /// The text of one range endpoint at the given precision; the infinite
    /// edges of the underflow and overflow ranges print as `-inf` and
    /// `inf`.
    pub fn format_bound(b: &Bound, precision: usize) -> (s: String)
        ensures
            b is NegInf ==> s@ == "-inf"@,
            b is PosInf ==> s@ == "inf"@,
            b is Finite ==> s@ == spec_format_fixed(bound_val(*b), precision as nat),
    {
        match b {
            Bound::NegInf => "-inf".to_owned(),
            Bound::PosInf => "inf".to_owned(),
            Bound::Finite(f) => format_fixed(*f, precision),
        }
    }

    /// Renders the histogram as the text table `spec_report` describes:
    /// a header and a rule, one row per range from `bins()` in order —
    /// both bounds at the configured precision, right-aligned to the
    /// widest entry of their column, a bar of the configured glyph scaled
    /// against the fullest bin and capped at sixty glyphs, the raw count,
    /// and its truncated percentage of the total (zero while no sample
    /// was taken) — then a blank line and the summary line with total
    /// count, minimum, maximum, mean and standard deviation.
    #[verifier::rlimit(100)]
    pub fn render(&self) -> (s: String)
        requires
            self.wf(),
        ensures
            s@ == spec_report(self@, self.spec_precision(), self.spec_bar_glyph()),
            s@.len() > 0,
    {
        let ghost p = self.spec_precision();
        let ghost g = self.spec_bar_glyph();
        let rows = self.bins();
        proof {
            assert forall|j: int| 0 <= j < rows@.len() implies (#[trigger] rows@[j]).2 as nat
                <= self@.stats.count by {
                if 1 <= j <= self@.bin_count {
                    lemma_sum_bins_elem(self@.bins, j - 1);
                }
            }
        }
        let mut max_count: u64 = 0;
        let mut i: usize = 0;
        while i < self.bins.len()
            invariant
                self.wf(),
                i <= self@.bins.len(),
                max_count as nat == spec_max_bins(self@.bins.take(i as int)),
                max_count as nat <= self@.stats.count,
            decreases self@.bins.len() - i,
        {
            proof {
                assert(self@.bins.take(i as int + 1).drop_last() =~= self@.bins.take(i as int));
                assert(self@.bins.take(i as int + 1).last() == self@.bins[i as int]);
                lemma_sum_bins_elem(self@.bins, i as int);
            }
            let c = self.bins[i];
            if c > max_count {
                max_count = c;
            }
            i = i + 1;
        }
        proof {
            assert(self@.bins.take(self@.bins.len() as int) =~= self@.bins);
        }
        let mut col1: usize = "Start".unicode_len();
        let mut col2: usize = "End".unicode_len();
        i = 0;
        while i < rows.len()
            invariant
                self.wf(),
                i <= rows@.len(),
                p == self.spec_precision(),
                rows_match(self@, rows@),
                col1 as nat == spec_lo_width(self@, p, i as int),
                col2 as nat == spec_hi_width(self@, p, i as int),
            decreases rows@.len() - i,
        {
            let row = rows[i];
            let lo = Self::format_bound(&row.0, self.precision);
            let hi = Self::format_bound(&row.1, self.precision);
            proof {
                let j = i as int;
                assert(lo@ == spec_lo_text(self@, p, j));
                assert(hi@ == spec_hi_text(self@, p, j));
            }
            let lw = lo.as_str().unicode_len();
            let hw = hi.as_str().unicode_len();
            if lw > col1 {
                col1 = lw;
            }
            if hw > col2 {
                col2 = hw;
            }
            i = i + 1;
        }
        let ghost c1 = col1 as nat;
        let ghost c2 = col2 as nat;
        let ghost maxc = max_count as nat;
        let total = self.stats.count();
        let mut out = String::new();
        let h1 = pad_left("Start", col1);
        out.append(h1.as_str());
        out.append(" | ");
        let h2 = pad_left("End", col2);
        out.append(h2.as_str());
        out.append("\n");
        proof {
            assert(out@ =~= spec_header(c1, c2));
        }
        let d1 = repeat_str("-", col1);
        out.append(d1.as_str());
        out.append("-|-");
        let d2 = repeat_str("-", col2);
        out.append(d2.as_str());
        out.append("-\n");
        proof {
            assert(out@ =~= spec_header(c1, c2) + spec_separator(c1, c2));
        }
        i = 0;
        while i < rows.len()
            invariant
                self.wf(),
                i <= rows@.len(),
                p == self.spec_precision(),
                g == self.spec_bar_glyph(),
                rows_match(self@, rows@),
                c1 == col1 as nat,
                c2 == col2 as nat,
                maxc == max_count as nat,
                max_count as nat <= self@.stats.count,
                self@.stats.count <= MAX_COUNT as nat,
                total as nat == self@.stats.count,
                forall|j: int| 0 <= j < rows@.len() ==> (#[trigger] rows@[j]).2 as nat
                    <= self@.stats.count,
                out@ == spec_header(c1, c2) + spec_separator(c1, c2) + spec_rows(self@, p, g,
                maxc, c1, c2, i as int),
            decreases rows@.len() - i,
        {
            let ghost out0 = out@;
            let row = rows[i];
            let lo = Self::format_bound(&row.0, self.precision);
            let hi = Self::format_bound(&row.1, self.precision);
            proof {
                let j = i as int;
                assert(lo@ == spec_lo_text(self@, p, j));
                assert(hi@ == spec_hi_text(self@, p, j));
                assert(row.2 as nat == spec_row_count(self@, j));
            }
            let lp = pad_left(lo.as_str(), col1);
            out.append(lp.as_str());
            out.append(" | ");
            let hp = pad_left(hi.as_str(), col2);
            out.append(hp.as_str());
            out.append(" | ");
            let bl = bar_len(row.2, max_count);
            let bar = repeat_str(self.bar_char.as_str(), bl);
            out.append(bar.as_str());
            out.append(" ");
            let cs = dec_string(row.2);
            out.append(cs.as_str());
            out.append(" (");
            if total > 0 {
                let ps = percent_string(row.2, total);
                out.append(ps.as_str());
            } else {
                out.append("0.00");
            }
            out.append("%)\n");
            proof {
                let j = i as int;
                assert(out@ =~= out0 + spec_row(self@, p, g, maxc, c1, c2, j));
                assert(spec_rows(self@, p, g, maxc, c1, c2, j + 1) == spec_rows(self@, p, g,
                maxc, c1, c2, j) + spec_row(self@, p, g, maxc, c1, c2, j));
                assert(out@ =~= spec_header(c1, c2) + spec_separator(c1, c2) + spec_rows(self@,
                p, g, maxc, c1, c2, j + 1));
            }
            i = i + 1;
        }
        out.append("\n");
        let ghost table = out@;
        out.append("Total Count: ");
        let ts = dec_string(total);
        out.append(ts.as_str());
        out.append(" Min: ");
        let mins = format_fixed(self.min(), self.precision);
        out.append(mins.as_str());
        out.append(" Max: ");
        let maxs = format_fixed(self.max(), self.precision);
        out.append(maxs.as_str());
        out.append(" Mean: ");
        let means = format_fixed(self.mean(), self.precision);
        out.append(means.as_str());
        out.append(" Std Dev: ");
        let sds = format_fixed(self.std_dev(), self.precision);
        out.append(sds.as_str());
        out.append("\n");
        proof {
            reveal_strlit("\n");
            assert(out@ =~= table + spec_summary_line(self@, p));
            assert(c1 == spec_lo_width(self@, p, self@.bin_count as int + 2));
            assert(c2 == spec_hi_width(self@, p, self@.bin_count as int + 2));
            assert(maxc == spec_max_bins(self@.bins));
            assert(out@ =~= spec_report(self@, p, g));
        }
        out
    }
}

} // verus!
