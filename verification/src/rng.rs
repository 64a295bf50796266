//! A xorshift64 pseudo-random generator and sample sequences for benchmarks.
use vstd::prelude::*;

verus! {

/// One xorshift64 step: `x ^= x << 13; x ^= x >> 7; x ^= x << 17`.
pub open spec fn xorshift(x: u64) -> u64 {
    let a = x ^ (x << 13u64);
    let b = a ^ (a >> 7u64);
    b ^ (b << 17u64)
}

/// The state after `k` steps from `seed`.
pub open spec fn xorshift_iter(seed: u64, k: nat) -> u64
    decreases k,
{
    if k == 0 {
        seed
    } else {
        xorshift(xorshift_iter(seed, (k - 1) as nat))
    }
}

/// Law: a non-zero state never becomes zero, so the generator never gets stuck.
pub proof fn law_xorshift_nonzero(x: u64)
    requires
        x != 0,
    ensures
        xorshift(x) != 0,
{
    assert(x != 0 ==> (x ^ (x << 13u64)) != 0) by (bit_vector);
    let a = x ^ (x << 13u64);
    assert(a != 0 ==> (a ^ (a >> 7u64)) != 0) by (bit_vector);
    let b = a ^ (a >> 7u64);
    assert(b != 0 ==> (b ^ (b << 17u64)) != 0) by (bit_vector);
}

/// Simple xorshift64 PRNG.
pub struct Rng(u64);

impl Rng {
    /// The generator state.
    pub closed spec fn state(self) -> u64 {
        self.0
    }

    /// Creates a generator from a non-zero seed.
    pub fn new(seed: u64) -> (r: Self)
        requires
            seed != 0,
        ensures
            r.state() == seed,
    {
        Rng(seed)
    }

    /// Advances the state by one xorshift step and returns it.
    pub fn next_u64(&mut self) -> (v: u64)
        ensures
            final(self).state() == xorshift(old(self).state()),
            v == final(self).state(),
    {
        let x = self.0;
        let a = x ^ (x << 13u64);
        let b = a ^ (a >> 7u64);
        let c = b ^ (b << 17u64);
        self.0 = c;
        c
    }
}

/// The values `1..=n`.
pub fn sequential(n: usize) -> (v: Vec<u64>)
    ensures
        v@.len() == n,
        forall|i: int| 0 <= i < n ==> v@[i] == i + 1,
{
    let mut v: Vec<u64> = Vec::with_capacity(n);
    let mut i: usize = 0;
    while i < n
        invariant
            i <= n,
            v@.len() == i,
            forall|k: int| 0 <= k < i ==> v@[k] == k + 1,
        decreases n - i,
    {
        v.push(i as u64 + 1);
        i = i + 1;
    }
    v
}

/// `n` values in `1..=1_000_000` drawn from the generator seeded with 42.
pub fn uniform(n: usize) -> (v: Vec<u64>)
    ensures
        v@.len() == n,
        forall|i: int| 0 <= i < n ==> v@[i] == xorshift_iter(42, (i + 1) as nat) % 1_000_000 + 1,
{
    let mut rng = Rng::new(42);
    let mut v: Vec<u64> = Vec::with_capacity(n);
    let mut i: usize = 0;
    while i < n
        invariant
            i <= n,
            v@.len() == i,
            rng.state() == xorshift_iter(42, i as nat),
            forall|k: int| 0 <= k < i ==> v@[k] == xorshift_iter(42, (k + 1) as nat) % 1_000_000 + 1,
        decreases n - i,
    {
        let x = rng.next_u64();
        v.push(x % 1_000_000 + 1);
        i = i + 1;
    }
    v
}

} // verus!
