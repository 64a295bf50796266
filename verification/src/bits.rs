//! Bit-length arithmetic shared by the bucket mapping.
use vstd::prelude::*;

verus! {

use vstd::arithmetic::power2::{
    pow2,
    lemma_pow2_pos,
    lemma_pow2_unfold,
    lemma_pow2_strictly_increases,
    lemma2_to64,
    lemma2_to64_rest,
};
use vstd::std_specs::bits::u64_leading_zeros;

/// Number of significant bits of `v` (0 for `v == 0`).
pub open spec fn bit_len(v: nat) -> nat
    decreases v,
{
    if v == 0 {
        0
    } else {
        bit_len(v / 2) + 1
    }
}

/// `64 - v.leading_zeros()` is the bit length of `v`.
pub proof fn lemma_leading_zeros_bit_len(v: u64)
    ensures
        64 - u64_leading_zeros(v) == bit_len(v as nat),
    decreases v,
{
    reveal(u64_leading_zeros);
    if v != 0 {
        lemma_leading_zeros_bit_len((v / 2) as u64);
    }
}

/// A positive value lies between the two powers of two around its bit length.
pub proof fn lemma_bit_len_bounds(v: nat)
    requires
        v > 0,
    ensures
        bit_len(v) >= 1,
        pow2((bit_len(v) - 1) as nat) <= v,
        v < pow2(bit_len(v)),
    decreases v,
{
    if v == 1 {
        assert(bit_len(0) == 0);
        assert(bit_len(1) == 1);
        lemma2_to64();
    } else {
        lemma_bit_len_bounds(v / 2);
        let k = bit_len(v / 2);
        assert(bit_len(v) == k + 1);
        lemma_pow2_unfold(k);
        lemma_pow2_unfold(k + 1);
    }
}

/// The bit length is the unique `k` with `2^(k-1) <= v < 2^k`.
pub proof fn lemma_bit_len_unique(v: nat, k: nat)
    requires
        k >= 1,
        pow2((k - 1) as nat) <= v,
        v < pow2(k),
    ensures
        bit_len(v) == k,
{
    lemma_pow2_pos((k - 1) as nat);
    lemma_bit_len_bounds(v);
    let j = bit_len(v);
    if j < k {
        if j < (k - 1) as nat {
            lemma_pow2_strictly_increases(j, (k - 1) as nat);
        }
    } else if j > k {
        if k < (j - 1) as nat {
            lemma_pow2_strictly_increases(k, (j - 1) as nat);
        }
    }
}

/// Values of `u64` have at most 64 significant bits.
pub proof fn lemma_bit_len_u64(v: u64)
    ensures
        bit_len(v as nat) <= 64,
{
    if v > 0 {
        lemma_bit_len_bounds(v as nat);
        lemma2_to64_rest();
        if bit_len(v as nat) > 64 {
            if 64 < (bit_len(v as nat) - 1) as nat {
                lemma_pow2_strictly_increases(64, (bit_len(v as nat) - 1) as nat);
            }
        }
    }
}

/// Position of the highest set bit, plus one.
pub fn bits_upto_msb(value: u64) -> (r: u32)
    ensures
        r as nat == bit_len(value as nat),
        r <= 64,
{
    proof {
        lemma_leading_zeros_bit_len(value);
        lemma_bit_len_u64(value);
    }
    let lz = value.leading_zeros();
    64 - lz
}

} // verus!
