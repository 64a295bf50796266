//! A fixed-size histogram for fast percentile estimation over `u64` values.
//!
//! `base2histogram` uses base-2 logarithmic bucketing to provide:
//!
//! - `O(1)` recording,
//! - bounded memory usage,
//! - percentile queries without sorting samples,
//! - optional multi-slot aggregation for sliding windows.
//!
//! The default histogram covers the full `u64` range with a fixed number of
//! buckets. Small values are represented more precisely, while larger values
//! trade precision for compactness.
use vstd::prelude::*;

pub mod bits;
pub mod geometry;
pub mod config;
pub mod scale;
pub mod bucket;
pub mod sums;
pub mod slot;
pub mod histogram;
pub mod interpolator;
pub mod text;
pub mod display;
pub mod chart;
pub mod rng;

pub use bucket::{BucketRef, BucketSpan};
pub use chart::{AsciiChart, CompactDisplay, DetailedDisplay, Series, compact_range_width};
pub use config::LogScaleConfig;
pub use display::{DisplayBuckets, PercentileStats};
pub use histogram::{Density, Histogram};
pub use interpolator::{CumulativeCount, Interpolator, counts_from_cumulative};
pub use rng::Rng;
pub use scale::LogScale;
pub use slot::{Slot, SlotQueue};
pub use text::digit_count;

verus! {

} // verus!
