//! Logarithmic scale with precomputed lookup tables.
use vstd::prelude::*;

verus! {

use vstd::arithmetic::div_mod::lemma_fundamental_div_mod_converse;
use vstd::bits::{low_bits_mask, lemma_u64_shr_is_div, lemma_u64_shl_is_mul, lemma_u64_low_bits_mask_is_mod};
use crate::bits::bits_upto_msb;
use crate::config::{LogScaleConfig, SMALL_VALUE_CACHE_SIZE};
use crate::geometry::{
    valid_width,
    bucket_count_of,
    bucket_of,
    bucket_left,
    bucket_right,
    lemma_width_sizes,
    lemma_bucket_of_shape,
    lemma_bucket_left_shape,
    lemma_bucket_contains,
};
use crate::bucket::BucketSpan;

/// The small-value table of width `w`: entry `v` is the bucket of `v`, and
/// the table stops at 4096 entries or at the first value whose bucket index
/// does not fit in a `u8`.
pub open spec fn small_table_wf(w: nat, table: Seq<u8>) -> bool {
    &&& table.len() <= SMALL_VALUE_CACHE_SIZE
    &&& forall|v: int| 0 <= v < table.len() ==> table[v] as nat == bucket_of(w, v as nat)
    &&& (table.len() == SMALL_VALUE_CACHE_SIZE || bucket_of(w, table.len()) > 255)
}

/// A width has exactly one small-value table.
pub proof fn lemma_small_table_unique(w: nat, t1: Seq<u8>, t2: Seq<u8>)
    requires
        small_table_wf(w, t1),
        small_table_wf(w, t2),
    ensures
        t1 == t2,
{
    if t1.len() < t2.len() {
        assert(t2[t1.len() as int] as nat == bucket_of(w, t1.len()));
    } else if t2.len() < t1.len() {
        assert(t1[t2.len() as int] as nat == bucket_of(w, t2.len()));
    }
    assert(t1 =~= t2);
}

/// The left boundaries of the buckets of width `w`, in index order.
pub open spec fn left_table(w: nat) -> Seq<u64> {
    Seq::new(bucket_count_of(w), |i: int| bucket_left(w, i as nat) as u64)
}

/// Law: a width determines its scale: any two scales of one width have the
/// same configuration, boundary table and small-value table.
pub proof fn law_one_scale_per_width(w: nat, a: LogScale, b: LogScale)
    requires
        a.is_scale_of(w),
        b.is_scale_of(w),
    ensures
        a.config_spec() == b.config_spec(),
        a.min_values() == b.min_values(),
        a.small_table() == b.small_table(),
{
    lemma_small_table_unique(w, a.small_table(), b.small_table());
}

/// Logarithmic scale with precomputed lookup tables.
///
/// Handles value-to-bucket mapping:
/// - Value → bucket index (with small-value cache)
/// - Bucket index → left boundary value
#[derive(Debug, PartialEq, Eq)]
pub struct LogScale {
    config: LogScaleConfig,
    /// Left boundary value for each bucket index.
    bucket_min_values: Vec<u64>,
    /// Cached bucket indices for small values (at most 0-4095).
    small_value_buckets: Vec<u8>,
}

impl LogScale {
    pub const DEFAULT_WIDTH: usize = 3;

    #[verifier::type_invariant]
    pub(crate) closed spec fn inv(self) -> bool {
        let w = self.config.width_spec();
        &&& valid_width(w)
        &&& self.bucket_min_values@.len() == bucket_count_of(w)
        &&& forall|i: int|
            0 <= i < self.bucket_min_values@.len() ==> self.bucket_min_values@[i] == bucket_left(
                w,
                i as nat,
            )
        &&& small_table_wf(w, self.small_value_buckets@)
    }

    /// What the invariant gives to the rest of the crate.
    pub(crate) proof fn lemma_inv(&self)
        requires
            self.inv(),
        ensures
            valid_width(self.width_spec()),
            small_table_wf(self.width_spec(), self.small_table()),
    {
    }

    /// The bit width of this scale.
    pub closed spec fn width_spec(self) -> nat {
        self.config.width_spec()
    }

    /// The configuration of this scale.
    pub closed spec fn config_spec(self) -> LogScaleConfig {
        self.config
    }

    /// The left boundary of every bucket, in index order.
    pub closed spec fn min_values(self) -> Seq<u64> {
        self.bucket_min_values@
    }

    /// This is the scale of width `w`: its configuration, boundary table and
    /// small-value table are the ones that width determines.
    pub open spec fn is_scale_of(self, w: nat) -> bool {
        &&& self.width_spec() == w
        &&& self.config_spec() == LogScaleConfig::config_for(w)
        &&& self.min_values() == left_table(w)
        &&& small_table_wf(w, self.small_table())
    }

    /// What the invariant says in public terms.
    proof fn lemma_is_scale_of_width(&self)
        requires
            self.inv(),
            self.config.inv(),
        ensures
            self.is_scale_of(self.width_spec()),
    {
        self.config.lemma_config_for_width();
        assert(self.min_values() =~= left_table(self.width_spec()));
    }

    /// Number of entries in the small-value lookup table.
    pub closed spec fn cache_len(self) -> nat {
        self.small_value_buckets@.len()
    }

    /// The small-value lookup table.
    pub closed spec fn small_table(self) -> Seq<u8> {
        self.small_value_buckets@
    }

    /// Returns a `LogScale` for the given width (1..=16).
    pub fn get(width: usize) -> (s: LogScale)
        requires
            valid_width(width as nat),
        ensures
            s.is_scale_of(width as nat),
    {
        Self::new(width)
    }

    /// Creates a new `LogScale` for the given width; `width` must be in `1..=16`.
    pub fn new(width: usize) -> (s: LogScale)
        requires
            valid_width(width as nat),
        ensures
            s.is_scale_of(width as nat),
    {
        let config = LogScaleConfig::new(width);
        let n = config.buckets();
        let ghost w = width as nat;
        let mut bucket_min_values: Vec<u64> = Vec::with_capacity(n);
        let mut i: usize = 0;
        while i < n
            invariant
                config.width_spec() == w,
                valid_width(w),
                n == bucket_count_of(w),
                i <= n,
                bucket_min_values@.len() == i,
                forall|j: int| 0 <= j < i ==> bucket_min_values@[j] == bucket_left(w, j as nat),
            decreases n - i,
        {
            let left = Self::compute_bucket_min_value(&config, i);
            bucket_min_values.push(left);
            i = i + 1;
        }

        let cache_size = config.small_value_cache_size();
        let mut small_value_buckets: Vec<u8> = Vec::with_capacity(cache_size);
        let mut v: usize = 0;
        let mut full = true;
        while v < cache_size
            invariant_except_break
                full,
            invariant
                config.width_spec() == w,
                valid_width(w),
                cache_size == SMALL_VALUE_CACHE_SIZE,
                v <= cache_size,
                small_value_buckets@.len() == v,
                forall|u: int| 0 <= u < v ==> small_value_buckets@[u] as nat == bucket_of(w, u as nat),
            ensures
                small_value_buckets@.len() == v,
                forall|u: int| 0 <= u < v ==> small_value_buckets@[u] as nat == bucket_of(w, u as nat),
                v <= cache_size,
                full ==> v == cache_size,
                !full ==> bucket_of(w, v as nat) > 255,
            decreases cache_size - v,
        {
            let bucket = Self::bucket_index(&config, v as u64);
            if bucket > 255 {
                full = false;
                break;
            }
            small_value_buckets.push(bucket as u8);
            v = v + 1;
        }

        let s = LogScale { config, bucket_min_values, small_value_buckets };
        proof {
            assert(s.min_values() =~= left_table(w));
        }
        s
    }

    /// Returns the configuration for this log scale.
    pub fn config(&self) -> (c: &LogScaleConfig)
        ensures
            *c == self.config_spec(),
            c.width_spec() == self.width_spec(),
    {
        &self.config
    }

    /// The bit width of this scale.
    pub fn width(&self) -> (w: usize)
        ensures
            w == self.width_spec(),
            valid_width(w as nat),
    {
        self.config.width()
    }

    /// Number of buckets of the scale of the given width.
    pub fn total_buckets(width: usize) -> (n: usize)
        requires
            valid_width(width as nat),
        ensures
            n == bucket_count_of(width as nat),
    {
        LogScaleConfig::new(width).buckets()
    }

    /// Returns the number of buckets.
    pub fn num_buckets(&self) -> (n: usize)
        ensures
            n == bucket_count_of(self.width_spec()),
            valid_width(self.width_spec()),
    {
        self.config.buckets()
    }

    /// Number of entries in the small-value lookup table.
    pub fn small_value_cache_len(&self) -> (n: usize)
        ensures
            n == self.cache_len(),
            small_table_wf(self.width_spec(), self.small_table()),
    {
        proof {
            use_type_invariant(self);
        }
        self.small_value_buckets.len()
    }

    /// Returns the geometry of the bucket at the given index.
    pub fn bucket_span(&self, index: usize) -> (b: BucketSpan<'_>)
        requires
            index < bucket_count_of(self.width_spec()),
        ensures
            b.wf(),
            b.index_spec() == index,
            b.width_spec() == self.width_spec(),
    {
        BucketSpan::new(self, index)
    }

    /// Returns the left (inclusive) boundary of the given bucket.
    pub fn bucket_left(&self, bucket: usize) -> (left: u64)
        requires
            bucket < bucket_count_of(self.width_spec()),
        ensures
            left == bucket_left(self.width_spec(), bucket as nat),
    {
        proof {
            use_type_invariant(self);
        }
        self.bucket_min_values[bucket]
    }

    /// Returns the right (exclusive) boundary of the given bucket; the last
    /// bucket reports `u64::MAX`.
    pub fn bucket_right(&self, bucket: usize) -> (right: u64)
        requires
            bucket < bucket_count_of(self.width_spec()),
        ensures
            right == bucket_right(self.width_spec(), bucket as nat),
    {
        proof {
            use_type_invariant(self);
            lemma_width_sizes(self.width_spec());
        }
        if bucket + 1 < self.bucket_min_values.len() {
            self.bucket_min_values[bucket + 1]
        } else {
            u64::MAX
        }
    }

    /// Calculates the bucket index for a value, using the lookup table for
    /// small values.
    pub fn calculate_bucket(&self, value: u64) -> (b: usize)
        ensures
            b == bucket_of(self.width_spec(), value as nat),
            b < bucket_count_of(self.width_spec()),
    {
        proof {
            use_type_invariant(self);
            lemma_bucket_contains(self.width_spec(), value as nat);
        }
        if value < self.small_value_buckets.len() as u64 {
            return self.small_value_buckets[value as usize] as usize;
        }
        self.calculate_bucket_uncached(value)
    }

    /// Calculates the bucket index for a value from its bit pattern.
    ///
    /// 1. For value < GROUP_SIZE: bucket_index = value
    /// 2. Otherwise the most significant bit picks the group and the
    ///    `width - 1` bits after it pick the bucket inside the group.
    pub fn calculate_bucket_uncached(&self, value: u64) -> (b: usize)
        ensures
            b == bucket_of(self.width_spec(), value as nat),
            b < bucket_count_of(self.width_spec()),
    {
        proof {
            use_type_invariant(self);
        }
        Self::bucket_index(&self.config, value)
    }

    /// The bucket index of `value` under `config`.
    fn bucket_index(config: &LogScaleConfig, value: u64) -> (b: usize)
        ensures
            b == bucket_of(config.width_spec(), value as nat),
            b < bucket_count_of(config.width_spec()),
    {
        let g = config.group_size();
        let ghost w = config.width_spec();
        proof {
            lemma_width_sizes(w);
            lemma_bucket_contains(w, value as nat);
        }
        if value < g as u64 {
            return value as usize;
        }
        let bits = bits_upto_msb(value);
        proof {
            lemma_bucket_of_shape(w, value as nat);
        }
        let group_index = bits as usize - config.width();
        let ghost s = group_index as nat;
        let shifted = value >> (group_index as u64);
        let mask = config.mask();
        proof {
            lemma_u64_shr_is_div(value, group_index as u64);
            lemma_u64_low_bits_mask_is_mod(shifted, (w - 1) as nat);
            lemma_fundamental_div_mod_converse(shifted as int, g as int, 1, (shifted - g) as int);
            assert(mask == low_bits_mask((w - 1) as nat) as u64);
        }
        let offset = (shifted & mask) as usize;
        proof {
            assert(offset == shifted - g);
            assert(group_index * g <= 64 * 32768) by (nonlinear_arith)
                requires
                    group_index <= 64,
                    g <= 32768,
            ;
        }
        g + group_index * g + offset
    }

    /// Computes the left boundary value of bucket `bucket` under `config`.
    fn compute_bucket_min_value(config: &LogScaleConfig, bucket: usize) -> (left: u64)
        requires
            bucket < bucket_count_of(config.width_spec()),
        ensures
            left == bucket_left(config.width_spec(), bucket as nat),
    {
        let g = config.group_size();
        let ghost w = config.width_spec();
        proof {
            lemma_width_sizes(w);
        }
        if bucket < g {
            return bucket as u64;
        }
        let group_index = (bucket - g) / g;
        let offset_in_group = (bucket - g) % g;
        proof {
            lemma_bucket_left_shape(w, bucket as nat);
            lemma_u64_shl_is_mul(1, (w - 1) as u64);
            let k = (w - 1) as u64;
            let x = offset_in_group as u64;
            assert(x < (1u64 << k) ==> (x | (1u64 << k)) == x + (1u64 << k)) by (bit_vector)
                requires
                    k < 64,
            ;
        }
        let msb_pattern = (offset_in_group as u64) | (g as u64);
        proof {
            lemma_u64_shl_is_mul(msb_pattern, group_index as u64);
        }
        msb_pattern << (group_index as u64)
    }
}

impl Clone for LogScale {
    fn clone(&self) -> (s: Self)
        ensures
            s.is_scale_of(self.width_spec()),
            s.config_spec() == self.config_spec(),
            s.min_values() == self.min_values(),
            s.small_table() == self.small_table(),
    {
        proof {
            use_type_invariant(self);
            use_type_invariant(&self.config);
            self.lemma_is_scale_of_width();
        }
        let s = LogScale::new(self.config.width());
        proof {
            law_one_scale_per_width(self.width_spec(), s, *self);
        }
        s
    }
}

impl Default for LogScale {
    /// The scale of the default width.
    fn default() -> (s: Self)
        ensures
            s.is_scale_of(LogScale::DEFAULT_WIDTH as nat),
    {
        Self::new(Self::DEFAULT_WIDTH)
    }
}

} // verus!
