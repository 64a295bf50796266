//! Configuration of the logarithmic bucket boundaries.
use vstd::prelude::*;

verus! {

use vstd::arithmetic::power2::lemma2_to64;
use crate::geometry::{
    valid_width,
    group_size_of,
    bucket_count_of,
    lemma_width_sizes,
};

/// Number of small values whose bucket index is looked up in a table.
pub const SMALL_VALUE_CACHE_SIZE: usize = 4096;

/// Configuration for logarithmic bucket boundaries.
///
/// The `width` parameter determines bucket granularity:
/// - width=3: 4 buckets per group, 252 total buckets, ~12.5% max error
/// - width=4: 8 buckets per group, 496 total buckets, ~6.25% max error
#[derive(Debug, Clone, Copy, PartialEq, Eq)]
pub struct LogScaleConfig {
    /// The width of the bit pattern used for bucketing: 1 MSB + (width-1) offset bits.
    width: usize,
    /// Number of buckets per group: `1 << (width - 1)`.
    group_size: usize,
    /// Mask for extracting the offset within a bucket group: `group_size - 1`.
    mask: u64,
    /// Number of buckets needed to cover all `u64` values: `group_size * (66 - width)`.
    buckets: usize,
    /// Number of values eligible for the small-value lookup table.
    small_value_cache_size: usize,
}

impl LogScaleConfig {
    pub const MIN_WIDTH: usize = 1;

    pub const MAX_WIDTH: usize = 16;

    #[verifier::type_invariant]
    pub(crate) closed spec fn inv(self) -> bool {
        &&& valid_width(self.width as nat)
        &&& self.group_size == group_size_of(self.width as nat)
        &&& self.mask == self.group_size - 1
        &&& self.buckets == bucket_count_of(self.width as nat)
        &&& self.small_value_cache_size == SMALL_VALUE_CACHE_SIZE
    }

    /// The configuration of width `w`: every field follows from the width.
    pub closed spec fn config_for(w: nat) -> LogScaleConfig {
        LogScaleConfig {
            width: w as usize,
            group_size: group_size_of(w) as usize,
            mask: (group_size_of(w) - 1) as u64,
            buckets: bucket_count_of(w) as usize,
            small_value_cache_size: SMALL_VALUE_CACHE_SIZE,
        }
    }

    /// A configuration is the one of its own width.
    pub(crate) proof fn lemma_config_for_width(self)
        requires
            self.inv(),
        ensures
            self == Self::config_for(self.width_spec()),
    {
    }

    /// The bit width this configuration was made with.
    pub closed spec fn width_spec(self) -> nat {
        self.width as nat
    }

    /// Whether `width` is one of the supported widths `1..=16`.
    pub fn validate_width(width: usize) -> (ok: bool)
        ensures
            ok == valid_width(width as nat),
    {
        Self::MIN_WIDTH <= width && width <= Self::MAX_WIDTH
    }

    /// Creates a config for the given bit-width; `width` must be in `1..=16`.
    pub fn new(width: usize) -> (c: Self)
        requires
            valid_width(width as nat),
        ensures
            c.width_spec() == width,
            c == Self::config_for(width as nat),
    {
        proof {
            lemma_width_sizes(width as nat);
            lemma2_to64();
            vstd::bits::lemma_usize_shl_is_mul(1, (width - 1) as usize);
        }
        let group_size: usize = 1usize << (width - 1);
        let mask = (group_size - 1) as u64;
        let buckets = group_size * (66 - width);
        LogScaleConfig { width, group_size, mask, buckets, small_value_cache_size: SMALL_VALUE_CACHE_SIZE }
    }

    /// Bit-width parameter.
    pub fn width(&self) -> (w: usize)
        ensures
            w == self.width_spec(),
            valid_width(w as nat),
    {
        proof {
            use_type_invariant(self);
        }
        self.width
    }

    /// Number of buckets per group: `2^(width-1)`.
    pub fn group_size(&self) -> (g: usize)
        ensures
            g == group_size_of(self.width_spec()),
            valid_width(self.width_spec()),
    {
        proof {
            use_type_invariant(self);
        }
        self.group_size
    }

    /// Bitmask for extracting the offset within a bucket group.
    pub fn mask(&self) -> (m: u64)
        ensures
            m == group_size_of(self.width_spec()) - 1,
            valid_width(self.width_spec()),
    {
        proof {
            use_type_invariant(self);
        }
        self.mask
    }

    /// Total number of buckets covering the full u64 range.
    pub fn buckets(&self) -> (n: usize)
        ensures
            n == bucket_count_of(self.width_spec()),
            valid_width(self.width_spec()),
    {
        proof {
            use_type_invariant(self);
        }
        self.buckets
    }

    /// Number of values eligible for the small-value lookup cache.
    pub fn small_value_cache_size(&self) -> (n: usize)
        ensures
            n == SMALL_VALUE_CACHE_SIZE,
    {
        proof {
            use_type_invariant(self);
        }
        self.small_value_cache_size
    }
}

} // verus!
