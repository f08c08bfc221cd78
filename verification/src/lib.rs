//! A streaming histogram accumulator over a bounded domain.
//!
//! Samples are fixed-point numbers ([`fixed::Fixed`], six decimal places).
//! An accumulator bins each added sample into one of `bin_count` equal-width
//! bins between `start` and `end`, counts out-of-range samples separately,
//! and keeps exact running summary statistics (count, min, max, sum and sum
//! of squares, from which mean and standard deviation are derived).

pub mod fixed;
pub mod hstats;
pub mod laws;
pub mod render;
pub mod stats;

pub use fixed::Fixed;
pub use hstats::{Bound, Hstats, HstatsError};
pub use stats::RunningStats;
