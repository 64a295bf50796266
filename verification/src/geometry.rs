//! The mathematical model of the logarithmic bucket layout.
//!
//! A bucket boundary is a tiny floating-point number: the most significant
//! bit picks a group and the next `width - 1` bits pick the bucket inside the
//! group. Values below the group size map one to one onto buckets.
use vstd::prelude::*;

verus! {

use vstd::arithmetic::power2::{
    pow2,
    lemma_pow2_pos,
    lemma_pow2_adds,
    lemma_pow2_unfold,
    lemma_pow2_strictly_increases,
    lemma2_to64,
    lemma2_to64_rest,
};
use vstd::arithmetic::div_mod::{lemma_fundamental_div_mod, lemma_fundamental_div_mod_converse};
use crate::bits::{bit_len, lemma_bit_len_bounds, lemma_bit_len_unique};

/// Smallest supported bit width.
pub open spec fn min_width() -> nat {
    1
}

/// Largest supported bit width.
pub open spec fn max_width() -> nat {
    16
}

/// Widths accepted by the bucket layout.
pub open spec fn valid_width(w: nat) -> bool {
    min_width() <= w <= max_width()
}

/// Number of buckets per group: `2^(w-1)`.
pub open spec fn group_size_of(w: nat) -> nat {
    pow2((w - 1) as nat)
}

/// Total number of buckets covering every `u64`: `2^(w-1) * (66 - w)`.
pub open spec fn bucket_count_of(w: nat) -> nat {
    group_size_of(w) * ((66 - w) as nat)
}

/// Index of the bucket that holds `v`.
pub open spec fn bucket_of(w: nat, v: nat) -> nat {
    let g = group_size_of(w);
    if v < g {
        v
    } else {
        let s = (bit_len(v) - w) as nat;
        s * g + v / pow2(s)
    }
}

/// Left (inclusive) boundary of bucket `i`.
pub open spec fn bucket_left(w: nat, i: nat) -> nat {
    let g = group_size_of(w);
    if i < g {
        i
    } else {
        let s = ((i - g) as nat) / g;
        let off = ((i - g) as nat) % g;
        (g + off) * pow2(s)
    }
}

/// Right (exclusive) boundary of bucket `i`; the last bucket reports `u64::MAX`.
pub open spec fn bucket_right(w: nat, i: nat) -> nat {
    if i + 1 < bucket_count_of(w) {
        bucket_left(w, i + 1)
    } else {
        u64::MAX as nat
    }
}

/// Concrete sizes of every supported width.
pub proof fn lemma_width_sizes(w: nat)
    requires
        valid_width(w),
    ensures
        1 <= group_size_of(w) <= 32768,
        group_size_of(w) * 2 == pow2(w),
        bucket_count_of(w) >= 50 * group_size_of(w),
        bucket_count_of(w) <= 65 * 32768,
        bucket_count_of(w) > group_size_of(w),
{
    lemma2_to64();
    lemma_pow2_unfold(w);
    let g = group_size_of(w);
    if w < 16 {
        lemma_pow2_strictly_increases((w - 1) as nat, 15);
    }
    lemma_pow2_pos((w - 1) as nat);
    assert(g * ((66 - w) as nat) >= 50 * g) by (nonlinear_arith)
        requires
            66 - w >= 50,
            g >= 1,
    ;
    let m = (66 - w) as nat;
    assert(g * m <= 65 * 32768) by (nonlinear_arith)
        requires
            0 <= m <= 65,
            0 <= g <= 32768,
    ;
}

/// `a * d <= v < b * d` puts `v / d` in `[a, b)`.
proof fn lemma_div_between(v: int, d: int, a: int, b: int)
    requires
        d > 0,
        a * d <= v,
        v < b * d,
    ensures
        a <= v / d < b,
{
    lemma_fundamental_div_mod(v, d);
    let q = v / d;
    let r = v % d;
    assert(0 <= r < d);
    assert(a <= q) by (nonlinear_arith)
        requires
            v == d * q + r,
            0 <= r < d,
            a * d <= v,
            d > 0,
    ;
    assert(q < b) by (nonlinear_arith)
        requires
            v == d * q + r,
            0 <= r < d,
            v < b * d,
            d > 0,
    ;
}

/// The shape of the bucket of a value at or above the group size:
/// its exponent `s` and its leading `w` bits `q`.
pub proof fn lemma_bucket_of_shape(w: nat, v: nat)
    requires
        valid_width(w),
        group_size_of(w) <= v,
        v <= u64::MAX,
    ensures
        ({
            let g = group_size_of(w);
            let s = (bit_len(v) - w) as nat;
            let q = v / pow2(s);
            &&& bit_len(v) >= w
            &&& s + w <= 64
            &&& g <= q < 2 * g
            &&& q * pow2(s) <= v
            &&& v < (q + 1) * pow2(s)
            &&& bucket_of(w, v) == s * g + q
        }),
{
    let g = group_size_of(w);
    lemma_width_sizes(w);
    lemma_bit_len_bounds(v);
    let bl = bit_len(v);
    if bl < w {
        if bl < (w - 1) as nat {
            lemma_pow2_strictly_increases(bl, (w - 1) as nat);
        }
        assert(false);
    }
    lemma2_to64_rest();
    if bl > 64 {
        if 64 < (bl - 1) as nat {
            lemma_pow2_strictly_increases(64, (bl - 1) as nat);
        }
        assert(false);
    }
    let s = (bl - w) as nat;
    lemma_pow2_pos(s);
    lemma_pow2_adds((w - 1) as nat, s);
    lemma_pow2_adds(w, s);
    assert((bl - 1) as nat == (w - 1) as nat + s);
    assert(bl == w + s);
    let p = pow2(s) as int;
    assert(pow2(w) == 2 * g);
    assert(g * p <= v);
    assert(v < (2 * g) * p);
    lemma_div_between(v as int, p, g as int, 2 * g as int);
    let q = v / pow2(s);
    lemma_fundamental_div_mod(v as int, p);
    assert(q * p <= v) by (nonlinear_arith)
        requires
            v == p * q + (v as int) % p,
            0 <= (v as int) % p,
    ;
    assert(v < (q + 1) * p) by (nonlinear_arith)
        requires
            v == p * q + (v as int) % p,
            (v as int) % p < p,
    ;
}

/// The shape of bucket `i >= g`: exponent `s`, offset `off`, and a left
/// boundary that fits in `u64`.
pub proof fn lemma_bucket_left_shape(w: nat, i: nat)
    requires
        valid_width(w),
        group_size_of(w) <= i < bucket_count_of(w),
    ensures
        ({
            let g = group_size_of(w);
            let s = ((i - g) as nat) / g;
            let off = ((i - g) as nat) % g;
            &&& off < g
            &&& i == g + s * g + off
            &&& s + w <= 64
            &&& g * pow2(s) <= bucket_left(w, i)
            &&& bucket_left(w, i) < 2 * g * pow2(s)
            &&& bucket_left(w, i) <= u64::MAX
            &&& bucket_left(w, i) == (g + off) * pow2(s)
        }),
{
    let g = group_size_of(w);
    lemma_width_sizes(w);
    let j = (i - g) as nat;
    let s = j / g;
    let off = j % g;
    lemma_fundamental_div_mod(j as int, g as int);
    assert(j == g * s + off);
    assert(s < 65 - w) by (nonlinear_arith)
        requires
            j == g * s + off,
            off >= 0,
            j < g * ((66 - w) as nat) - g,
            g >= 1,
            w <= 16,
    ;
    lemma_pow2_pos(s);
    let p = pow2(s);
    let l = (g + off) * p;
    assert(g * p <= l) by (nonlinear_arith)
        requires
            l == (g + off) * p,
            off >= 0,
    ;
    assert(l < 2 * g * p) by (nonlinear_arith)
        requires
            l == (g + off) * p,
            off < g,
            p > 0,
    ;
    lemma_pow2_adds(w, s);
    assert(pow2(w) == 2 * g);
    lemma2_to64_rest();
    if w + s < 64 {
        lemma_pow2_strictly_increases(w + s, 64);
    }
    assert(2 * g * p == pow2(w + s));
}

/// Every value falls in a bucket whose boundaries enclose it.
pub proof fn lemma_bucket_contains(w: nat, v: nat)
    requires
        valid_width(w),
        v <= u64::MAX,
    ensures
        bucket_of(w, v) < bucket_count_of(w),
        bucket_left(w, bucket_of(w, v)) <= v,
        bucket_of(w, v) + 1 < bucket_count_of(w) ==> v < bucket_left(w, bucket_of(w, v) + 1),
{
    let g = group_size_of(w);
    let n = bucket_count_of(w);
    lemma_width_sizes(w);
    if v < g {
        if v + 1 == g {
            lemma2_to64();
            assert(((v + 1 - g) as nat) / g == 0);
            assert(((v + 1 - g) as nat) % g == 0);
        }
    } else {
        lemma_bucket_of_shape(w, v);
        let s = (bit_len(v) - w) as nat;
        let q = v / pow2(s);
        let b = s * g + q;
        assert(b < n) by (nonlinear_arith)
            requires
                b == s * g + q,
                q < 2 * g,
                s + w <= 64,
                n == g * ((66 - w) as nat),
                w <= 16,
        ;
        lemma_fundamental_div_mod_converse((b - g) as int, g as int, s as int, (q - g) as int);
        assert(bucket_left(w, b) == q * pow2(s));
        if b + 1 < n {
            if q + 1 < 2 * g {
                lemma_fundamental_div_mod_converse(
                    (b + 1 - g) as int,
                    g as int,
                    s as int,
                    (q + 1 - g) as int,
                );
                assert(bucket_left(w, b + 1) == (q + 1) * pow2(s));
            } else {
                assert((b + 1 - g) as int == (s + 1) * g + 0) by (nonlinear_arith)
                    requires
                        b == s * g + q,
                        q + 1 == 2 * g,
                ;
                lemma_fundamental_div_mod_converse((b + 1 - g) as int, g as int, (s + 1) as int, 0);
                lemma_pow2_unfold(s + 1);
                assert(bucket_left(w, b + 1) == g * pow2(s + 1));
                assert(g * pow2(s + 1) == (q + 1) * pow2(s)) by (nonlinear_arith)
                    requires
                        pow2(s + 1) == 2 * pow2(s),
                        q + 1 == 2 * g,
                ;
            }
        }
    }
}

/// Beyond the exact region, the bucket of `v` is `[q * 2^s, (q + 1) * 2^s)`
/// for the exponent `s` and leading bits `q` of `v`; for the last bucket the
/// right end `(q + 1) * 2^s` is `2^64`.
pub proof fn lemma_bucket_step(w: nat, v: nat)
    requires
        valid_width(w),
        group_size_of(w) <= v,
        v <= u64::MAX,
    ensures
        ({
            let g = group_size_of(w);
            let s = (bit_len(v) - w) as nat;
            let q = v / pow2(s);
            let b = bucket_of(w, v);
            &&& g <= q < 2 * g
            &&& pow2(s) >= 1
            &&& bucket_left(w, b) == q * pow2(s)
            &&& b + 1 < bucket_count_of(w) ==> bucket_left(w, b + 1) == (q + 1) * pow2(s)
            &&& b + 1 >= bucket_count_of(w) ==> (q + 1) * pow2(s) == u64::MAX + 1
        }),
{
    let g = group_size_of(w);
    let n = bucket_count_of(w);
    lemma_width_sizes(w);
    lemma_bucket_contains(w, v);
    lemma_bucket_of_shape(w, v);
    let s = (bit_len(v) - w) as nat;
    let q = v / pow2(s);
    let b = s * g + q;
    lemma_pow2_pos(s);
    lemma_fundamental_div_mod_converse((b - g) as int, g as int, s as int, (q - g) as int);
    if b + 1 < n {
        if q + 1 < 2 * g {
            lemma_fundamental_div_mod_converse(
                (b + 1 - g) as int,
                g as int,
                s as int,
                (q + 1 - g) as int,
            );
        } else {
            assert((b + 1 - g) as int == (s + 1) * g + 0) by (nonlinear_arith)
                requires
                    b == s * g + q,
                    q + 1 == 2 * g,
            ;
            lemma_fundamental_div_mod_converse((b + 1 - g) as int, g as int, (s + 1) as int, 0);
            lemma_pow2_unfold(s + 1);
            assert(g * pow2(s + 1) == (q + 1) * pow2(s)) by (nonlinear_arith)
                requires
                    pow2(s + 1) == 2 * pow2(s),
                    q + 1 == 2 * g,
            ;
        }
    } else {
        assert(s == 64 - w && q + 1 == 2 * g) by (nonlinear_arith)
            requires
                b == s * g + q,
                b < n,
                b + 1 >= n,
                n == g * ((66 - w) as nat),
                g <= q < 2 * g,
                s + w <= 64,
                w <= 16,
                g >= 1,
        ;
        lemma_pow2_adds(w, s);
        lemma2_to64_rest();
        assert(pow2(w) == 2 * g);
    }
}

/// The left boundary of bucket `i` maps back to bucket `i`.
pub proof fn lemma_left_maps_to_self(w: nat, i: nat)
    requires
        valid_width(w),
        i < bucket_count_of(w),
    ensures
        bucket_left(w, i) <= u64::MAX,
        bucket_of(w, bucket_left(w, i)) == i,
{
    let g = group_size_of(w);
    lemma_width_sizes(w);
    if i >= g {
        lemma_bucket_left_shape(w, i);
        let s = ((i - g) as nat) / g;
        let off = ((i - g) as nat) % g;
        let l = bucket_left(w, i);
        lemma_pow2_pos(s);
        lemma_pow2_adds((w - 1) as nat, s);
        lemma_pow2_adds(w, s);
        assert(pow2(w) == 2 * g);
        lemma_bit_len_unique(l, w + s);
        assert(l >= g) by (nonlinear_arith)
            requires
                g * pow2(s) <= l,
                pow2(s) >= 1,
                g >= 1,
        ;
        assert(l / pow2(s) == g + off) by {
            lemma_fundamental_div_mod_converse(l as int, pow2(s) as int, (g + off) as int, 0);
        }
    }
}

/// Left boundaries strictly increase with the bucket index.
pub proof fn lemma_left_strictly_increasing(w: nat, i: nat, j: nat)
    requires
        valid_width(w),
        i < j < bucket_count_of(w),
    ensures
        bucket_left(w, i) < bucket_left(w, j),
    decreases j - i,
{
    lemma_left_maps_to_self(w, i);
    lemma_bucket_contains(w, bucket_left(w, i));
    if i + 1 < j {
        lemma_left_strictly_increasing(w, i + 1, j);
    }
}

/// The bucket mapping preserves order.
pub proof fn lemma_bucket_of_monotone(w: nat, v1: nat, v2: nat)
    requires
        valid_width(w),
        v1 <= v2 <= u64::MAX,
    ensures
        bucket_of(w, v1) <= bucket_of(w, v2),
{
    let b1 = bucket_of(w, v1);
    let b2 = bucket_of(w, v2);
    lemma_bucket_contains(w, v1);
    lemma_bucket_contains(w, v2);
    if b2 < b1 {
        if b2 + 1 < b1 {
            lemma_left_strictly_increasing(w, b2 + 1, b1);
        }
        assert(false);
    }
}

/// `u64::MAX` lands in the last bucket.
pub proof fn lemma_max_in_last_bucket(w: nat)
    requires
        valid_width(w),
    ensures
        bucket_of(w, u64::MAX as nat) == bucket_count_of(w) - 1,
{
    let g = group_size_of(w);
    let v = u64::MAX as nat;
    lemma_width_sizes(w);
    lemma_bucket_of_shape(w, v);
    let s = (bit_len(v) - w) as nat;
    lemma2_to64_rest();
    lemma_bit_len_unique(v, 64);
    assert(s == 64 - w);
    lemma_pow2_adds(w, s);
    assert(pow2(w) == 2 * g);
    let p = pow2(s);
    lemma_pow2_pos(s);
    assert(v == (2 * g - 1) * p + (p - 1)) by (nonlinear_arith)
        requires
            2 * g * p == v + 1,
    ;
    lemma_fundamental_div_mod_converse(v as int, p as int, (2 * g - 1) as int, (p - 1) as int);
    assert(s * g + (2 * g - 1) == g * ((66 - w) as nat) - 1) by (nonlinear_arith)
        requires
            s == 64 - w,
            w <= 16,
    ;
}

} // verus!
