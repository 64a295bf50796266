//! Time-window slots: bucket counts with user metadata, and the queue of
//! historical slots.
use vstd::prelude::*;

verus! {

use std::collections::VecDeque;
use crate::sums::{sum_of, prefix_sum, lemma_prefix_step, lemma_prefix_monotone, lemma_prefix_full, lemma_prefix_zero};

/// A single slot containing bucket counts and user-defined metadata.
#[derive(Debug, Clone, PartialEq, Eq)]
pub struct Slot<T> {
    /// Count of samples in each bucket.
    pub buckets: Vec<u64>,
    /// User-defined metadata for this slot; set when the slot is activated by `advance()`.
    pub data: Option<T>,
}

impl<T> Slot<T> {
    /// Creates a new slot with zeroed buckets and no metadata.
    pub fn new(num_buckets: usize) -> (s: Self)
        ensures
            s.buckets@.len() == num_buckets,
            forall|i: int| 0 <= i < num_buckets ==> s.buckets@[i] == 0,
            s.data is None,
    {
        Slot { buckets: vec![0; num_buckets], data: None }
    }

    /// Adds `count` samples to the bucket at `bucket_index`.
    pub fn record_n(&mut self, bucket_index: usize, count: u64)
        requires
            bucket_index < old(self).buckets@.len(),
            old(self).buckets@[bucket_index as int] + count <= u64::MAX,
        ensures
            final(self).buckets@ == old(self).buckets@.update(
                bucket_index as int,
                (old(self).buckets@[bucket_index as int] + count) as u64,
            ),
            final(self).data == old(self).data,
    {
        let c = self.buckets[bucket_index];
        self.buckets.set(bucket_index, c + count);
    }

    /// Returns the sample count in the bucket at `index`.
    pub fn count_at(&self, index: usize) -> (c: u64)
        requires
            index < self.buckets@.len(),
        ensures
            c == self.buckets@[index as int],
    {
        self.buckets[index]
    }

    /// Returns the total sample count across all buckets.
    pub fn total(&self) -> (t: u64)
        requires
            sum_of(self.buckets@) <= u64::MAX,
        ensures
            t == sum_of(self.buckets@),
    {
        sum_counts(&self.buckets)
    }

    /// Subtracts another slot's bucket counts from this slot, bucket by bucket.
    pub fn subtract(&mut self, other: &Slot<T>)
        requires
            old(self).buckets@.len() <= other.buckets@.len(),
            forall|i: int|
                0 <= i < old(self).buckets@.len() ==> other.buckets@[i] <= old(self).buckets@[i],
        ensures
            final(self).buckets@.len() == old(self).buckets@.len(),
            forall|i: int|
                0 <= i < old(self).buckets@.len() ==> final(self).buckets@[i] == old(
                    self,
                ).buckets@[i] - other.buckets@[i],
            final(self).data == old(self).data,
    {
        let n = self.buckets.len();
        let mut i: usize = 0;
        while i < n
            invariant
                n == self.buckets@.len() == old(self).buckets@.len(),
                n <= other.buckets@.len(),
                i <= n,
                self.data == old(self).data,
                forall|j: int|
                    0 <= j < n ==> other.buckets@[j] <= old(self).buckets@[j],
                forall|j: int|
                    0 <= j < i ==> self.buckets@[j] == old(self).buckets@[j] - other.buckets@[j],
                forall|j: int| i <= j < n ==> self.buckets@[j] == old(self).buckets@[j],
            decreases n - i,
        {
            let c = self.buckets[i] - other.buckets[i];
            self.buckets.set(i, c);
            i = i + 1;
        }
    }

    /// Resets all bucket counts to zero and removes user data.
    pub fn clear(&mut self)
        ensures
            final(self).buckets@.len() == old(self).buckets@.len(),
            forall|i: int| 0 <= i < final(self).buckets@.len() ==> final(self).buckets@[i] == 0,
            final(self).data is None,
    {
        fill_zero(&mut self.buckets);
        self.data = None;
    }
}

/// Sum of all counts; the sum must fit in a `u64`.
pub fn sum_counts(counts: &[u64]) -> (t: u64)
    requires
        sum_of(counts@) <= u64::MAX,
    ensures
        t == sum_of(counts@),
{
    let n = counts.len();
    let mut total: u64 = 0;
    let mut i: usize = 0;
    proof {
        lemma_prefix_zero(counts@);
    }
    while i < n
        invariant
            n == counts@.len(),
            i <= n,
            sum_of(counts@) <= u64::MAX,
            total == prefix_sum(counts@, i as int),
        decreases n - i,
    {
        proof {
            lemma_prefix_step(counts@, i as int);
            lemma_prefix_monotone(counts@, i as int + 1, n as int);
            lemma_prefix_full(counts@);
        }
        total = total + counts[i];
        i = i + 1;
    }
    proof {
        lemma_prefix_full(counts@);
    }
    total
}

/// Sets every count to zero.
pub fn fill_zero(counts: &mut Vec<u64>)
    ensures
        final(counts)@.len() == old(counts)@.len(),
        forall|i: int| 0 <= i < final(counts)@.len() ==> final(counts)@[i] == 0,
{
    let n = counts.len();
    let mut i: usize = 0;
    while i < n
        invariant
            n == counts@.len(),
            i <= n,
            forall|j: int| 0 <= j < i ==> counts@[j] == 0,
        decreases n - i,
    {
        counts.set(i, 0);
        i = i + 1;
    }
}

/// A container for historical slots.
///
/// Stores up to `slot_limit - 1` historical slots. The current period's
/// bucket counts are implicit in the histogram's aggregate; its metadata is
/// kept in `current_data`.
#[derive(Debug, Clone, PartialEq, Eq)]
pub struct SlotQueue<T> {
    /// Maximum number of active slots (stored historicals plus the current period).
    pub slot_limit: usize,
    /// Stored historical slots, oldest first.
    pub slots: VecDeque<Slot<T>>,
    /// Metadata of the current (implicit) period.
    pub current_data: Option<T>,
}

impl<T> SlotQueue<T> {
    /// Creates an empty queue with the given slot limit.
    pub fn new(slot_limit: usize) -> (q: Self)
        ensures
            q.slot_limit == slot_limit,
            q.slots@.len() == 0,
            q.current_data is None,
    {
        let cap = if slot_limit > 0 { slot_limit - 1 } else { 0 };
        SlotQueue { slot_limit, slots: VecDeque::with_capacity(cap), current_data: None }
    }

    /// Removes and returns the oldest stored slot.
    pub fn pop_front(&mut self) -> (s: Option<Slot<T>>)
        ensures
            final(self).slot_limit == old(self).slot_limit,
            final(self).current_data == old(self).current_data,
            match s {
                Some(x) => {
                    &&& old(self).slots@.len() > 0
                    &&& x == old(self).slots@[0]
                    &&& final(self).slots@ == old(self).slots@.drop_first()
                },
                None => {
                    &&& old(self).slots@.len() == 0
                    &&& final(self).slots@ == old(self).slots@
                },
            },
    {
        let r = self.slots.pop_front();
        proof {
            if r is Some {
                assert(old(self).slots@.subrange(1, old(self).slots@.len() as int) =~= old(
                    self,
                ).slots@.drop_first());
            }
        }
        r
    }

    /// Appends a slot as the newest stored slot.
    pub fn push_back(&mut self, slot: Slot<T>)
        ensures
            final(self).slot_limit == old(self).slot_limit,
            final(self).current_data == old(self).current_data,
            final(self).slots@ == old(self).slots@.push(slot),
    {
        self.slots.push_back(slot);
    }

    /// The stored slots, oldest first.
    pub fn iter_all(&self) -> (slots: &VecDeque<Slot<T>>)
        ensures
            slots@ == self.slots@,
    {
        &self.slots
    }
}

} // verus!
