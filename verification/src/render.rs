//! Decimal formatting for the textual report.
//!
//! Every helper here has an exact contract: the produced characters are
//! pinned by spec-level formatting functions over the tick values. The
//! table assembly itself lives on [`crate::hstats::Hstats`].

use vstd::prelude::*;
use vstd::arithmetic::div_mod::{lemma_div_decreases, lemma_multiply_divide_le};
use vstd::string::{StrSliceExecFns, StringExecFns};
use crate::fixed::{Fixed, SCALE};

verus! {

/// The decimal digits, as one-character strings.
pub open spec fn spec_digit_str(d: nat) -> Seq<char> {
    if d == 0 {
        "0"@
    } else if d == 1 {
        "1"@
    } else if d == 2 {
        "2"@
    } else if d == 3 {
        "3"@
    } else if d == 4 {
        "4"@
    } else if d == 5 {
        "5"@
    } else if d == 6 {
        "6"@
    } else if d == 7 {
        "7"@
    } else if d == 8 {
        "8"@
    } else {
        "9"@
    }
}

/// Decimal notation of `n`, most significant digit first, no leading
/// zeroes (a single zero for `n == 0`).
pub open spec fn spec_dec(n: nat) -> Seq<char>
    decreases n,
{
    if n < 10 {
        spec_digit_str(n)
    } else {
        spec_dec(n / 10) + spec_digit_str(n % 10)
    }
}

/// Powers of ten.
pub open spec fn spec_pow10(e: nat) -> nat
    decreases e,
{
    if e == 0 {
        1
    } else {
        10 * spec_pow10((e - 1) as nat)
    }
}

/// The first `i` fractional digits of the six-digit zero-padded fraction
/// `f` (in millionth ticks), followed by plain zeroes beyond the sixth.
pub open spec fn spec_frac_prefix(f: nat, i: nat) -> Seq<char>
    decreases i,
{
    if i == 0 {
        Seq::empty()
    } else {
        spec_frac_prefix(f, (i - 1) as nat) + (if i - 1 < 6 {
            spec_digit_str((f / spec_pow10((5 - (i - 1)) as nat)) % 10)
        } else {
            "0"@
        })
    }
}

/// Fixed-point decimal notation of the tick value `x`: optional sign, the
/// whole part, and — for a positive precision — a point and that many
/// fractional digits, truncated (not rounded) at the sixth.
pub open spec fn spec_format_fixed(x: int, p: nat) -> Seq<char> {
    let mag = (if x < 0 {
        -x
    } else {
        x
    }) as nat;
    let sign: Seq<char> = if x < 0 {
        "-"@
    } else {
        Seq::empty()
    };
    sign + spec_dec(mag / (SCALE as nat)) + (if p == 0 {
        Seq::<char>::empty()
    } else {
        "."@ + spec_frac_prefix(mag % (SCALE as nat), p)
    })
}

/// `s` repeated `k` times.
pub open spec fn spec_repeat(s: Seq<char>, k: nat) -> Seq<char>
    decreases k,
{
    if k == 0 {
        Seq::empty()
    } else {
        spec_repeat(s, (k - 1) as nat) + s
    }
}

/// `s` padded on the left with spaces up to width `w`.
pub open spec fn spec_pad_left(s: Seq<char>, w: nat) -> Seq<char> {
    if s.len() >= w {
        s
    } else {
        spec_repeat(" "@, (w - s.len()) as nat) + s
    }
}

/// Length of the drawn bar: `count` scaled linearly against the fullest
/// bin, rounded to the nearest glyph (halves up) and capped at sixty.
pub open spec fn spec_bar_len(count: nat, max_count: nat) -> nat {
    if max_count == 0 {
        0
    } else {
        let scaled = (count * 60 + max_count / 2) / max_count;
        if scaled > 60 {
            60
        } else {
            scaled
        }
    }
}

/// Percentage of the total with two fractional digits, truncated:
/// `count / total`, in hundredths of a percent.
pub open spec fn spec_percent(count: nat, total: nat) -> Seq<char> {
    let h = count * 10000 / total;
    spec_dec(h / 100) + "."@ + spec_digit_str((h % 100) / 10) + spec_digit_str(h % 10)
}

/// One decimal digit as a string slice.
fn digit_str(d: u64) -> (r: &'static str)
    requires
        d < 10,
    ensures
        r@ == spec_digit_str(d as nat),
{
    if d == 0 {
        "0"
    } else if d == 1 {
        "1"
    } else if d == 2 {
        "2"
    } else if d == 3 {
        "3"
    } else if d == 4 {
        "4"
    } else if d == 5 {
        "5"
    } else if d == 6 {
        "6"
    } else if d == 7 {
        "7"
    } else if d == 8 {
        "8"
    } else {
        "9"
    }
}

/// Decimal notation of `n`.
pub fn dec_string(n: u64) -> (s: String)
    ensures
        s@ == spec_dec(n as nat),
    decreases n,
{
    if n < 10 {
        digit_str(n).to_owned()
    } else {
        proof {
            lemma_div_decreases(n as int, 10);
        }
        let mut s = dec_string(n / 10);
        s.append(digit_str(n % 10));
        s
    }
}

/// Ten to the `e`, for small `e`.
fn pow10(e: u64) -> (r: u64)
    requires
        e <= 5,
    ensures
        r as nat == spec_pow10(e as nat),
        r >= 1,
{
    proof {
        reveal_with_fuel(spec_pow10, 7);
    }
    if e == 0 {
        1
    } else if e == 1 {
        10
    } else if e == 2 {
        100
    } else if e == 3 {
        1_000
    } else if e == 4 {
        10_000
    } else {
        100_000
    }
}

/// Fixed-point decimal notation of `v` at the given precision.
pub fn format_fixed(v: Fixed, precision: usize) -> (s: String)
    ensures
        s@ == spec_format_fixed(v@, precision as nat),
{
    let raw = v.raw();
    let neg = raw < 0;
    let mag: u64 = if neg {
        (-(raw as i128)) as u64
    } else {
        raw as u64
    };
    let whole = mag / 1_000_000;
    let frac = mag % 1_000_000;
    let mut s = String::new();
    if neg {
        s.append("-");
    }
    let ws = dec_string(whole);
    s.append(ws.as_str());
    if precision > 0 {
        s.append(".");
        let mut i: usize = 0;
        while i < precision
            invariant
                i <= precision,
                frac == (mag % 1_000_000) as u64,
                s@ == (if neg {
                    "-"@
                } else {
                    Seq::<char>::empty()
                }) + spec_dec((mag / 1_000_000) as nat) + "."@ + spec_frac_prefix(frac as nat,
                i as nat),
            decreases precision - i,
        {
            if i < 6 {
                let p = pow10(5 - (i as u64));
                let d = (frac / p) % 10;
                s.append(digit_str(d));
            } else {
                s.append(digit_str(0));
            }
            i = i + 1;
        }
    }
    s
}

/// The glyph sequence repeated `k` times.
pub fn repeat_str(glyph: &str, k: usize) -> (s: String)
    ensures
        s@ == spec_repeat(glyph@, k as nat),
{
    let mut s = String::new();
    let mut i: usize = 0;
    while i < k
        invariant
            i <= k,
            s@ == spec_repeat(glyph@, i as nat),
        decreases k - i,
    {
        s.append(glyph);
        i = i + 1;
    }
    s
}

/// `s` padded on the left with spaces up to width `w`.
pub fn pad_left(s: &str, w: usize) -> (r: String)
    ensures
        r@ == spec_pad_left(s@, w as nat),
{
    let n = s.unicode_len();
    if n >= w {
        s.to_owned()
    } else {
        let mut r = repeat_str(" ", w - n);
        r.append(s);
        r
    }
}

/// Length of the drawn bar for a range holding `count` of a fullest bin
/// `max_count`; an out-of-range counter above every bin saturates at the
/// cap.
pub fn bar_len(count: u64, max_count: u64) -> (r: usize)
    requires
        count <= 0xFFFF_FFFF,
        max_count <= 0xFFFF_FFFF,
    ensures
        r as nat == spec_bar_len(count as nat, max_count as nat),
        r <= 60,
{
    if max_count == 0 {
        0
    } else {
        let scaled = (count * 60 + max_count / 2) / max_count;
        if scaled > 60 {
            60
        } else {
            scaled as usize
        }
    }
}

/// Percentage of the total, with two truncated fractional digits.
pub fn percent_string(count: u64, total: u64) -> (s: String)
    requires
        count <= total,
        0 < total <= 0xFFFF_FFFF,
    ensures
        s@ == spec_percent(count as nat, total as nat),
{
    proof {
        assert((count as int) * 10000 <= (total as int) * 10000) by (nonlinear_arith)
            requires count <= total,
        {}
        lemma_multiply_divide_le((count as int) * 10000, total as int, 10000);
    }
    let h = (count * 10000) / total;
    let mut s = dec_string(h / 100);
    s.append(".");
    s.append(digit_str((h % 100) / 10));
    s.append(digit_str(h % 10));
    s
}

} // verus!
