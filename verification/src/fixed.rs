//! Fixed-point sample values.
//!
//! A [`Fixed`] stands for the real number `raw / SCALE`: six decimal places
//! of resolution. All histogram and statistics arithmetic happens on the raw
//! tick counts, so every computed quantity is exact over the ticks; callers
//! that hold wider floating-point values convert at this boundary.

use vstd::prelude::*;

verus! {

/// Raw ticks per whole unit: a `Fixed` carries six decimal places.
pub const SCALE: i64 = 1_000_000;

/// Largest magnitude, in raw ticks, that a valid `Fixed` may hold.
///
/// Bounding samples to `[-RAW_LIMIT, RAW_LIMIT]` is what lets the running
/// statistics keep exact sums of squares in 128-bit integers for any count
/// the accumulator accepts.
pub const RAW_LIMIT: i64 = 0x8000_0000;

/// A real-number sample in fixed-point form: the value `raw / SCALE`.
#[derive(Clone, Copy, Debug, PartialEq, Eq, Structural)]
pub struct Fixed {
    raw: i64,
}

impl View for Fixed {
    type V = int;

    closed spec fn view(&self) -> int {
        self.raw as int
    }
}

impl Fixed {
    /// A value is representable when its tick count lies within the
    /// sample range the accumulator supports.
    pub open spec fn valid(self) -> bool {
        -RAW_LIMIT <= self@ <= RAW_LIMIT
    }

    /// Builds the value `raw / SCALE`; the tick count must be in range.
    pub fn new(raw: i64) -> (r: Fixed)
        requires
            -RAW_LIMIT <= raw <= RAW_LIMIT,
        ensures
            r@ == raw,
            r.valid(),
    {
        Fixed { raw }
    }

    /// Builds the value `raw / SCALE`, or `None` when the tick count is out
    /// of range.
    pub fn from_raw(raw: i64) -> (r: Option<Fixed>)
        ensures
            r is Some <==> -RAW_LIMIT <= raw <= RAW_LIMIT,
            r is Some ==> r->0@ == raw && r->0.valid(),
    {
        if -RAW_LIMIT <= raw && raw <= RAW_LIMIT {
            Some(Fixed { raw })
        } else {
            None
        }
    }

    /// The zero value.
    pub fn zero() -> (r: Fixed)
        ensures
            r@ == 0,
            r.valid(),
    {
        Fixed { raw: 0 }
    }

    /// Two values with the same tick count are the same value.
    pub proof fn lemma_view_injective(a: Fixed, b: Fixed)
        requires
            a@ == b@,
        ensures
            a == b,
    {
    }

    /// Crate-internal: builds a tick value without the range check. Derived
    /// quantities such as bin widths may exceed the sample range.
    pub(crate) fn from_ticks(raw: i64) -> (r: Fixed)
        ensures
            r@ == raw,
    {
        Fixed { raw }
    }

    /// The underlying tick count.
    pub fn raw(&self) -> (r: i64)
        ensures
            r == self@,
    {
        self.raw
    }
}

} // verus!
