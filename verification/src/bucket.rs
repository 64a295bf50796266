//! Lazy views of one bucket: its geometry, and its geometry with a count.
use vstd::prelude::*;

verus! {

use crate::geometry::{
    valid_width,
    group_size_of,
    bucket_count_of,
    bucket_of,
    bucket_left,
    bucket_right,
    lemma_left_strictly_increasing,
    lemma_bucket_step,
};
use crate::bits::bit_len;
use vstd::arithmetic::power2::pow2;
use vstd::math::abs;
use crate::scale::LogScale;

/// Width of bucket `i`: `right - left`, counting `u64::MAX` itself in the
/// last bucket, which is closed on the right.
pub open spec fn bucket_width(w: nat, i: nat) -> nat {
    if i + 1 < bucket_count_of(w) {
        (bucket_right(w, i) - bucket_left(w, i)) as nat
    } else {
        (bucket_right(w, i) - bucket_left(w, i) + 1) as nat
    }
}

/// Distance between the boundaries of bucket `i`: `right - left`.
pub open spec fn boundary_width(w: nat, i: nat) -> nat {
    (bucket_right(w, i) - bucket_left(w, i)) as nat
}

/// Midpoint between the boundaries of bucket `i`: `left + (right - left) / 2`.
pub open spec fn boundary_midpoint(w: nat, i: nat) -> nat {
    bucket_left(w, i) + boundary_width(w, i) / 2
}

/// The last bucket starts below `u64::MAX`.
proof fn lemma_last_left_below_max(w: nat)
    requires
        valid_width(w),
    ensures
        bucket_left(w, (bucket_count_of(w) - 1) as nat) < u64::MAX,
{
    let v = u64::MAX as nat;
    crate::geometry::lemma_width_sizes(w);
    crate::geometry::lemma_max_in_last_bucket(w);
    lemma_bucket_step(w, v);
    vstd::arithmetic::power2::lemma2_to64_rest();
    crate::bits::lemma_bit_len_unique(v, 64);
    let s = (bit_len(v) - w) as nat;
    assert(s >= 48);
    vstd::arithmetic::power2::lemma2_to64();
    vstd::arithmetic::power2::lemma_pow2_strictly_increases(1, s);
    let p = pow2(s);
    let q = v / p;
    assert(q * p < v) by (nonlinear_arith)
        requires
            (q + 1) * p == v + 1,
            p >= 2,
    ;
}

/// Boundaries of a bucket are ordered and its widths and midpoints fit in `u64`.
pub proof fn lemma_bucket_extent(w: nat, i: nat)
    requires
        valid_width(w),
        i < bucket_count_of(w),
    ensures
        bucket_left(w, i) < bucket_right(w, i) <= u64::MAX,
        1 <= bucket_width(w, i) <= u64::MAX,
        1 <= boundary_width(w, i) < u64::MAX,
        bucket_left(w, i) <= boundary_midpoint(w, i) < bucket_right(w, i),
{
    crate::geometry::lemma_left_maps_to_self(w, i);
    crate::geometry::lemma_width_sizes(w);
    lemma_last_left_below_max(w);
    let last = (bucket_count_of(w) - 1) as nat;
    if i + 1 < bucket_count_of(w) {
        lemma_left_strictly_increasing(w, i, i + 1);
        crate::geometry::lemma_left_maps_to_self(w, i + 1);
        if i + 1 < last {
            lemma_left_strictly_increasing(w, i + 1, last);
        }
    } else {
        // the last bucket starts above zero
        lemma_left_strictly_increasing(w, 0, i);
    }
}

/// Law: the buckets tile `0..=u64::MAX` in order: the first starts at 0,
/// each ends where the next starts, each is non-empty, and the last ends at
/// `u64::MAX` inclusive.
pub proof fn law_buckets_tile_the_range(w: nat, i: nat)
    requires
        valid_width(w),
        i < bucket_count_of(w),
    ensures
        bucket_left(w, 0) == 0,
        bucket_left(w, i) < bucket_right(w, i),
        i + 1 < bucket_count_of(w) ==> bucket_right(w, i) == bucket_left(w, i + 1),
        i + 1 == bucket_count_of(w) ==> bucket_right(w, i) == u64::MAX,
{
    lemma_bucket_extent(w, i);
    crate::geometry::lemma_width_sizes(w);
}

/// Law: past the exact region, a bucket is at most `1/2^(w-1)` of its left
/// boundary wide.
pub proof fn law_bucket_relative_width(w: nat, i: nat)
    requires
        valid_width(w),
        group_size_of(w) <= i < bucket_count_of(w),
    ensures
        bucket_width(w, i) * group_size_of(w) <= bucket_left(w, i),
{
    let g = group_size_of(w);
    crate::geometry::lemma_width_sizes(w);
    crate::geometry::lemma_left_maps_to_self(w, i);
    crate::geometry::lemma_bucket_left_shape(w, i);
    let l = bucket_left(w, i);
    let s0 = ((i - g) as nat) / g;
    vstd::arithmetic::power2::lemma_pow2_pos(s0);
    assert(g <= l) by (nonlinear_arith)
        requires
            g * pow2(s0) <= l,
            pow2(s0) >= 1,
    ;
    lemma_bucket_step(w, l);
    let s = (bit_len(l) - w) as nat;
    let q = l / pow2(s);
    assert((q + 1) * pow2(s) - q * pow2(s) == pow2(s)) by (nonlinear_arith);
    assert(bucket_width(w, i) == pow2(s));
    assert(pow2(s) * g <= q * pow2(s)) by (nonlinear_arith)
        requires
            g <= q,
            pow2(s) >= 1,
    ;
}

/// Law: the first two groups map values one to one, so the left boundary of
/// the bucket of `v` is `v` itself below twice the group size; from the
/// group size on it errs by less than `1/2^(w-1)` of `v`, and the midpoint
/// between the bucket's boundaries by at most `1/2^w` of `v`.
pub proof fn law_value_relative_error(w: nat, v: nat)
    requires
        valid_width(w),
        v <= u64::MAX,
    ensures
        v < 2 * group_size_of(w) ==> bucket_left(w, bucket_of(w, v)) == v,
        group_size_of(w) <= v ==> (v - bucket_left(w, bucket_of(w, v))) * group_size_of(w) < v,
        group_size_of(w) <= v ==> abs(v - boundary_midpoint(w, bucket_of(w, v))) * 2
            * group_size_of(w) <= v,
{
    let g = group_size_of(w);
    crate::geometry::lemma_width_sizes(w);
    if g <= v {
        lemma_bucket_step(w, v);
        let s = (bit_len(v) - w) as nat;
        let p = pow2(s);
        let q = v / p;
        crate::geometry::lemma_bucket_of_shape(w, v);
        let b = bucket_of(w, v);
        let l = bucket_left(w, b);
        assert((q + 1) * p - q * p == p) by (nonlinear_arith);
        assert(bucket_width(w, b) == p);
        assert(v - l < p);
        if v < 2 * g {
            assert(p == 1) by (nonlinear_arith)
                requires
                    q * p <= v,
                    v < 2 * g,
                    g <= q,
                    p >= 1,
            ;
        }
        assert((v - l) * g < p * g) by (nonlinear_arith)
            requires
                v - l < p,
                g >= 1,
        ;
        assert(p * g <= q * p) by (nonlinear_arith)
            requires
                g <= q,
                p >= 1,
        ;
        if s > 0 {
            vstd::arithmetic::power2::lemma_pow2_unfold(s);
            let h = pow2((s - 1) as nat);
            assert(p % 2 == 0) by (nonlinear_arith)
                requires
                    p == 2 * h,
            ;
        } else {
            vstd::arithmetic::power2::lemma2_to64();
        }
        crate::geometry::lemma_bucket_contains(w, v);
        lemma_bucket_extent(w, b);
        let bw = boundary_width(w, b);
        let m = boundary_midpoint(w, b);
        assert(abs(v - m) * 2 * g <= v) by (nonlinear_arith)
            requires
                m == l + bw / 2,
                bw == p || bw + 1 == p,
                bw >= 1,
                l <= v,
                v - l < p,
                p * g <= l,
                p >= 1,
                p == 1 || p % 2 == 0,
        {
            if p == 1 {
                assert(m == l);
            } else {
                assert(p == 2 * (p / 2));
                if bw + 1 == p {
                    assert(bw / 2 == p / 2 - 1);
                }
            }
        }
    }
}

/// The geometry of a bucket in a log scale: left, right, width and midpoint.
#[derive(Debug, Clone, Copy)]
pub struct BucketSpan<'a> {
    log_scale: &'a LogScale,
    index: usize,
}

impl<'a> BucketSpan<'a> {
    /// The bucket index.
    pub closed spec fn index_spec(self) -> nat {
        self.index as nat
    }

    /// The bit width of the scale the bucket belongs to.
    pub closed spec fn width_spec(self) -> nat {
        self.log_scale.width_spec()
    }

    /// A span is only ever made for an index of its scale.
    pub closed spec fn wf(self) -> bool {
        &&& valid_width(self.log_scale.width_spec())
        &&& self.index < bucket_count_of(self.log_scale.width_spec())
    }

    pub(crate) fn new(log_scale: &'a LogScale, index: usize) -> (b: Self)
        requires
            index < bucket_count_of(log_scale.width_spec()),
        ensures
            b.index_spec() == index,
            b.width_spec() == log_scale.width_spec(),
            b.wf(),
    {
        proof {
            use_type_invariant(log_scale);
            log_scale.lemma_inv();
        }
        BucketSpan { log_scale, index }
    }

    /// Bucket index.
    pub fn index(&self) -> (i: usize)
        ensures
            i == self.index_spec(),
    {
        self.index
    }

    /// Left (inclusive) boundary.
    pub fn left(&self) -> (l: u64)
        requires
            self.wf(),
        ensures
            l == bucket_left(self.width_spec(), self.index_spec()),
    {
        self.log_scale.bucket_left(self.index)
    }

    /// Right (exclusive) boundary; `u64::MAX` for the last bucket.
    pub fn right(&self) -> (r: u64)
        requires
            self.wf(),
        ensures
            r == bucket_right(self.width_spec(), self.index_spec()),
    {
        self.log_scale.bucket_right(self.index)
    }

    /// Whether this is the last bucket, the one closed on the right at `u64::MAX`.
    pub fn is_last(&self) -> (last: bool)
        requires
            self.wf(),
        ensures
            last == (self.index_spec() + 1 == bucket_count_of(self.width_spec())),
    {
        proof {
            crate::geometry::lemma_width_sizes(self.width_spec());
        }
        self.index + 1 == self.log_scale.num_buckets()
    }

    /// Width of the bucket: `right - left`, plus one for the last bucket.
    pub fn width(&self) -> (d: u64)
        requires
            self.wf(),
        ensures
            d == bucket_width(self.width_spec(), self.index_spec()),
    {
        proof {
            lemma_bucket_extent(self.width_spec(), self.index_spec());
        }
        let left = self.left();
        let right = self.right();
        if self.is_last() {
            right - left + 1
        } else {
            right - left
        }
    }

    /// Midpoint between the bucket's boundaries: `left + (right - left) / 2`.
    pub fn midpoint(&self) -> (m: u64)
        requires
            self.wf(),
        ensures
            m == boundary_midpoint(self.width_spec(), self.index_spec()),
    {
        proof {
            lemma_bucket_extent(self.width_spec(), self.index_spec());
        }
        let left = self.left();
        left + (self.right() - left) / 2
    }
}

/// A bucket's geometry together with its sample count.
#[derive(Debug, Clone, Copy)]
pub struct BucketRef<'a> {
    log_scale: &'a LogScale,
    index: usize,
    count: u64,
}

impl<'a> BucketRef<'a> {
    /// The bucket index.
    pub closed spec fn index_spec(self) -> nat {
        self.index as nat
    }

    /// The bit width of the scale the bucket belongs to.
    pub closed spec fn width_spec(self) -> nat {
        self.log_scale.width_spec()
    }

    /// The number of samples in the bucket.
    pub closed spec fn count_spec(self) -> nat {
        self.count as nat
    }

    /// A reference is only ever made for an index of its scale.
    pub closed spec fn wf(self) -> bool {
        &&& valid_width(self.log_scale.width_spec())
        &&& self.index < bucket_count_of(self.log_scale.width_spec())
    }

    pub(crate) fn new(log_scale: &'a LogScale, index: usize, count: u64) -> (b: Self)
        requires
            index < bucket_count_of(log_scale.width_spec()),
        ensures
            b.index_spec() == index,
            b.width_spec() == log_scale.width_spec(),
            b.count_spec() == count,
            b.wf(),
    {
        proof {
            use_type_invariant(log_scale);
            log_scale.lemma_inv();
        }
        BucketRef { log_scale, index, count }
    }

    /// The left (inclusive) boundary of values that map to this bucket.
    pub fn left(&self) -> (l: u64)
        requires
            self.wf(),
        ensures
            l == bucket_left(self.width_spec(), self.index_spec()),
    {
        self.log_scale.bucket_left(self.index)
    }

    /// The right (exclusive) boundary of values that map to this bucket.
    pub fn right(&self) -> (r: u64)
        requires
            self.wf(),
        ensures
            r == bucket_right(self.width_spec(), self.index_spec()),
    {
        self.log_scale.bucket_right(self.index)
    }

    /// Whether this is the last bucket, the one closed on the right at `u64::MAX`.
    pub fn is_last(&self) -> (last: bool)
        requires
            self.wf(),
        ensures
            last == (self.index_spec() + 1 == bucket_count_of(self.width_spec())),
    {
        proof {
            crate::geometry::lemma_width_sizes(self.width_spec());
        }
        self.index + 1 == self.log_scale.num_buckets()
    }

    /// Bucket index.
    pub fn index(&self) -> (i: usize)
        ensures
            i == self.index_spec(),
    {
        self.index
    }

    /// Width of the bucket: `right - left`.
    pub fn width(&self) -> (d: u64)
        requires
            self.wf(),
        ensures
            d == boundary_width(self.width_spec(), self.index_spec()),
    {
        proof {
            lemma_bucket_extent(self.width_spec(), self.index_spec());
        }
        self.right() - self.left()
    }

    /// Midpoint of the bucket: `left + width / 2`.
    pub fn midpoint(&self) -> (m: u64)
        requires
            self.wf(),
        ensures
            m == boundary_midpoint(self.width_spec(), self.index_spec()),
    {
        proof {
            lemma_bucket_extent(self.width_spec(), self.index_spec());
        }
        self.left() + self.width() / 2
    }

    /// The number of samples recorded in this bucket.
    pub fn count(&self) -> (c: u64)
        ensures
            c == self.count_spec(),
    {
        self.count
    }
}

} // verus!
