//! Locating ranks and positions among bucket counts.
//!
//! An [`Interpolator`] pairs a scale with a slice of bucket counts. It finds
//! the bucket that holds a given rank or a given position, together with the
//! whole-bucket count below it; the estimate inside that bucket is the
//! caller's density model.
use vstd::prelude::*;

verus! {

use crate::geometry::{
    valid_width,
    bucket_count_of,
    bucket_of,
    bucket_left,
    bucket_right,
    lemma_bucket_contains,
    lemma_left_strictly_increasing,
    lemma_width_sizes,
};
use crate::scale::LogScale;
use crate::bucket::BucketRef;
use crate::histogram::Histogram;
use crate::sums::{sum_of, prefix_sum, lemma_prefix_step, lemma_prefix_zero, lemma_prefix_full, lemma_prefix_monotone};

/// Whether `position` lies at or beyond the right end of bucket `i`; the last
/// bucket is closed on the right, so only values above `u64::MAX` pass it.
pub open spec fn past_bucket(w: nat, i: nat, position: nat) -> bool {
    if i + 1 < bucket_count_of(w) {
        position >= bucket_right(w, i)
    } else {
        position > bucket_right(w, i)
    }
}

/// The first bucket whose cumulative count reaches `rank`, if any.
pub open spec fn is_rank_bucket(counts: Seq<u64>, rank: nat, i: int) -> bool {
    &&& 0 <= i < counts.len()
    &&& prefix_sum(counts, i + 1) >= rank
    &&& forall|j: int| 1 <= j <= i ==> #[trigger] prefix_sum(counts, j) < rank
}

/// A bucket is passed by `position` exactly when it lies before the bucket of `position`.
pub proof fn lemma_past_bucket_iff_before(w: nat, i: nat, position: nat)
    requires
        valid_width(w),
        i < bucket_count_of(w),
        position <= u64::MAX,
    ensures
        past_bucket(w, i, position) <==> i < bucket_of(w, position),
{
    let b = bucket_of(w, position);
    lemma_bucket_contains(w, position);
    if i < b {
        if i + 1 < b {
            lemma_left_strictly_increasing(w, i + 1, b);
        }
    } else if i + 1 < bucket_count_of(w) {
        if i > b {
            lemma_left_strictly_increasing(w, b + 1, i + 1);
        }
    }
}

/// Interpolation view over a scale and a slice of bucket counts.
#[derive(Clone, Copy)]
pub struct Interpolator<'a> {
    log_scale: &'a LogScale,
    buckets: &'a [u64],
}

impl<'a> Interpolator<'a> {
    /// The bit width of the scale.
    pub closed spec fn width_spec(self) -> nat {
        self.log_scale.width_spec()
    }

    /// The bucket counts.
    pub closed spec fn counts(self) -> Seq<u64> {
        self.buckets@
    }

    /// A valid scale and one count per bucket.
    pub open spec fn wf(self) -> bool {
        &&& valid_width(self.width_spec())
        &&& self.counts().len() == bucket_count_of(self.width_spec())
    }

    /// Creates an interpolator over the given bucket counts.
    pub fn new(log_scale: &'a LogScale, buckets: &'a [u64]) -> (s: Self)
        ensures
            s.width_spec() == log_scale.width_spec(),
            s.counts() == buckets@,
            valid_width(s.width_spec()),
    {
        proof {
            use_type_invariant(log_scale);
            log_scale.lemma_inv();
        }
        Interpolator { log_scale, buckets }
    }

    /// Returns the number of buckets.
    pub fn num_buckets(&self) -> (n: usize)
        ensures
            n == bucket_count_of(self.width_spec()),
    {
        self.log_scale.num_buckets()
    }

    /// Returns a reference to the bucket at the given index.
    pub fn bucket(&self, index: usize) -> (b: BucketRef<'_>)
        requires
            self.wf(),
            index < self.counts().len(),
        ensures
            b.wf(),
            b.index_spec() == index,
            b.width_spec() == self.width_spec(),
            b.count_spec() == self.counts()[index as int],
    {
        BucketRef::new(self.log_scale, index, self.buckets[index])
    }

    /// Finds the bucket holding the sample of 1-based `rank` in sorted order:
    /// the first bucket whose cumulative count reaches `rank`, and the rank
    /// within that bucket. `None` when `rank` exceeds the total count.
    pub fn bucket_at_rank(&self, rank: u64) -> (r: Option<(usize, u64)>)
        requires
            self.wf(),
        ensures
            match r {
                Some((i, rank_in_bucket)) => {
                    &&& is_rank_bucket(self.counts(), rank as nat, i as int)
                    &&& rank_in_bucket == rank - prefix_sum(self.counts(), i as int)
                },
                None => sum_of(self.counts()) < rank,
            },
    {
        let n = self.num_buckets();
        let ghost c = self.counts();
        let mut cumulative: u128 = 0;
        let mut i: usize = 0;
        proof {
            lemma_prefix_zero(c);
            lemma_width_sizes(self.width_spec());
        }
        while i < n
            invariant
                self.wf(),
                c == self.counts(),
                n == c.len(),
                n <= 65 * 32768,
                i <= n,
                cumulative == prefix_sum(c, i as int),
                cumulative <= i * 0x1_0000_0000_0000_0000,
                forall|j: int| 1 <= j <= i ==> #[trigger] prefix_sum(c, j) < rank,
            decreases n - i,
        {
            proof {
                lemma_prefix_step(c, i as int);
            }
            let count = self.buckets[i];
            let before = cumulative;
            cumulative = cumulative + count as u128;
            if cumulative >= rank as u128 {
                let rank_in_bucket = (rank as u128 - before) as u64;
                return Some((i, rank_in_bucket));
            }
            i = i + 1;
        }
        proof {
            lemma_prefix_full(c);
        }
        None
    }

    /// Finds the bucket containing `position` by scanning from the first
    /// bucket: returns the whole-bucket count before it, its index, and the
    /// offset of `position` from its left boundary.
    pub fn bucket_at_position(&self, position: u64) -> (r: (u128, usize, u64))
        requires
            self.wf(),
        ensures
            r.1 == bucket_of(self.width_spec(), position as nat),
            r.0 == prefix_sum(self.counts(), r.1 as int),
            r.2 == position - bucket_left(self.width_spec(), r.1 as nat),
    {
        let n = self.num_buckets();
        let ghost c = self.counts();
        let ghost w = self.width_spec();
        let mut whole: u128 = 0;
        let mut i: usize = 0;
        proof {
            lemma_prefix_zero(c);
            lemma_width_sizes(w);
            lemma_bucket_contains(w, position as nat);
        }
        loop
            invariant
                self.wf(),
                c == self.counts(),
                w == self.width_spec(),
                n == c.len() == bucket_count_of(w),
                n <= 65 * 32768,
                i <= bucket_of(w, position as nat),
                bucket_of(w, position as nat) < n,
                bucket_left(w, bucket_of(w, position as nat)) <= position,
                whole == prefix_sum(c, i as int),
                whole <= i * 0x1_0000_0000_0000_0000,
            decreases n - i,
        {
            let b = self.bucket(i);
            proof {
                lemma_past_bucket_iff_before(w, i as nat, position as nat);
            }
            let past = if b.is_last() {
                position > b.right()
            } else {
                position >= b.right()
            };
            if past {
                proof {
                    lemma_prefix_step(c, i as int);
                }
                whole = whole + b.count() as u128;
                i = i + 1;
            } else {
                let left = b.left();
                proof {
                    assert(i == bucket_of(w, position as nat));
                    assert(left <= position);
                }
                return (whole, i, position - left);
            }
        }
    }
}

/// An incremental cursor for computing cumulative counts at monotonically
/// increasing positions or ranks.
///
/// Each call resumes scanning from where the previous call left off, rather
/// than re-scanning from bucket 0.
pub struct CumulativeCount<'a> {
    interpolator: Interpolator<'a>,
    /// Index of the bucket containing or following the last queried position.
    bucket_index: usize,
    /// Sum of whole-bucket counts from all buckets before `bucket_index`.
    accumulated: u64,
}

impl<'a> CumulativeCount<'a> {
    /// The bit width of the scale.
    pub closed spec fn width_spec(self) -> nat {
        self.interpolator.width_spec()
    }

    /// The bucket counts.
    pub closed spec fn counts(self) -> Seq<u64> {
        self.interpolator.counts()
    }

    /// The index of the bucket the cursor stands at.
    pub closed spec fn index_spec(self) -> nat {
        self.bucket_index as nat
    }

    /// The whole-bucket count before the cursor.
    pub closed spec fn accumulated_spec(self) -> nat {
        self.accumulated as nat
    }

    /// The cursor stands at a bucket (or just past the last one) of a valid
    /// scale with one count per bucket, and its whole-bucket count is the sum
    /// of every bucket before it.
    pub open spec fn wf(self) -> bool {
        &&& valid_width(self.width_spec())
        &&& self.counts().len() == bucket_count_of(self.width_spec())
        &&& self.index_spec() <= self.counts().len()
        &&& self.accumulated_spec() == prefix_sum(self.counts(), self.index_spec() as int)
    }

    /// Creates a new cursor starting at position 0.
    pub fn new(log_scale: &'a LogScale, buckets: &'a [u64]) -> (c: Self)
        requires
            buckets@.len() == bucket_count_of(log_scale.width_spec()),
        ensures
            c.wf(),
            c.width_spec() == log_scale.width_spec(),
            c.counts() == buckets@,
            c.index_spec() == 0,
            c.accumulated_spec() == 0,
    {
        let interpolator = Interpolator::new(log_scale, buckets);
        proof {
            lemma_prefix_zero(buckets@);
        }
        CumulativeCount { interpolator, bucket_index: 0, accumulated: 0 }
    }

    /// Returns the bucket index at or after the last queried position.
    pub fn current_bucket(&self) -> (i: usize)
        ensures
            i == self.index_spec(),
    {
        self.bucket_index
    }

    /// Returns the sum of all whole-bucket counts before `current_bucket()`.
    pub fn whole_bucket_accumulated(&self) -> (a: u64)
        ensures
            a == self.accumulated_spec(),
    {
        self.accumulated
    }

    /// The interpolator the cursor scans.
    pub fn interpolator(&self) -> (i: &Interpolator<'a>)
        ensures
            i.width_spec() == self.width_spec(),
            i.counts() == self.counts(),
    {
        &self.interpolator
    }

    /// Moves the cursor forward to the bucket containing `position` (never
    /// backward) and returns that bucket with the offset of `position` from
    /// its left boundary; `None` once the cursor has passed every bucket.
    pub fn advance_to_position(&mut self, position: u64) -> (r: Option<(usize, u64)>)
        requires
            old(self).wf(),
            prefix_sum(
                old(self).counts(),
                vstd::math::max(
                    old(self).index_spec() as int,
                    bucket_of(old(self).width_spec(), position as nat) as int,
                ),
            ) <= u64::MAX,
        ensures
            final(self).wf(),
            final(self).width_spec() == old(self).width_spec(),
            final(self).counts() == old(self).counts(),
            old(self).index_spec() == old(self).counts().len() ==> {
                &&& r is None
                &&& final(self).index_spec() == old(self).index_spec()
            },
            old(self).index_spec() < old(self).counts().len() ==> {
                &&& final(self).index_spec() == vstd::math::max(
                    old(self).index_spec() as int,
                    bucket_of(old(self).width_spec(), position as nat) as int,
                )
                &&& r == Some(
                    (
                        final(self).index_spec() as usize,
                        vstd::math::clip(
                            position - bucket_left(
                                final(self).width_spec(),
                                final(self).index_spec(),
                            ),
                        ) as u64,
                    ),
                )
            },
    {
        let n = self.interpolator.num_buckets();
        let ghost c = self.counts();
        let ghost w = self.width_spec();
        let ghost start = self.bucket_index as int;
        let ghost target = vstd::math::max(start, bucket_of(w, position as nat) as int);
        proof {
            lemma_width_sizes(w);
            lemma_bucket_contains(w, position as nat);
        }
        while self.bucket_index < n
            invariant
                self.wf(),
                c == self.counts(),
                w == self.width_spec(),
                n == c.len() == bucket_count_of(w),
                start <= self.bucket_index <= target,
                target == vstd::math::max(start, bucket_of(w, position as nat) as int),
                start < n ==> target < n,
                prefix_sum(c, target) <= u64::MAX,
                self.interpolator == old(self).interpolator,
                start == old(self).bucket_index,
            decreases n - self.bucket_index,
        {
            let b = self.interpolator.bucket(self.bucket_index);
            proof {
                lemma_past_bucket_iff_before(w, self.bucket_index as nat, position as nat);
            }
            let past = if b.is_last() {
                position > b.right()
            } else {
                position >= b.right()
            };
            if past {
                proof {
                    lemma_prefix_step(c, self.bucket_index as int);
                    lemma_prefix_monotone(c, self.bucket_index + 1, target);
                }
                self.accumulated = self.accumulated + b.count();
                self.bucket_index = self.bucket_index + 1;
            } else {
                let left = b.left();
                let rel = if position >= left { position - left } else { 0 };
                return Some((self.bucket_index, rel));
            }
        }
        None
    }

    /// Moves the cursor forward to the first bucket whose cumulative count
    /// reaches `rank` and returns it with the rank within that bucket; `None`
    /// (with the cursor past the last bucket) when `rank` exceeds the total.
    pub fn seek_rank(&mut self, rank: u64) -> (r: Option<(usize, u64)>)
        requires
            old(self).wf(),
            old(self).accumulated_spec() <= rank,
        ensures
            final(self).wf(),
            final(self).width_spec() == old(self).width_spec(),
            final(self).counts() == old(self).counts(),
            old(self).index_spec() <= final(self).index_spec(),
            forall|j: int|
                old(self).index_spec() < j <= final(self).index_spec() ==> #[trigger] prefix_sum(
                    final(self).counts(),
                    j,
                ) < rank,
            match r {
                Some((i, rank_in_bucket)) => {
                    &&& i == final(self).index_spec()
                    &&& i < final(self).counts().len()
                    &&& prefix_sum(final(self).counts(), i + 1) >= rank
                    &&& rank_in_bucket == rank - final(self).accumulated_spec()
                },
                None => {
                    &&& final(self).index_spec() == final(self).counts().len()
                    &&& old(self).index_spec() < old(self).counts().len() ==> sum_of(
                        final(self).counts(),
                    ) < rank
                },
            },
    {
        let n = self.interpolator.num_buckets();
        let ghost c = self.counts();
        let ghost start = self.bucket_index as int;
        while self.bucket_index < n
            invariant
                self.wf(),
                c == self.counts(),
                n == c.len(),
                start <= self.bucket_index,
                self.accumulated <= rank,
                forall|j: int| start < j <= self.bucket_index ==> #[trigger] prefix_sum(c, j) < rank,
                self.interpolator == old(self).interpolator,
                start == old(self).bucket_index,
            decreases n - self.bucket_index,
        {
            proof {
                lemma_prefix_step(c, self.bucket_index as int);
            }
            let count = self.interpolator.buckets[self.bucket_index];
            let next = self.accumulated as u128 + count as u128;
            if next >= rank as u128 {
                return Some((self.bucket_index, rank - self.accumulated));
            }
            self.accumulated = next as u64;
            self.bucket_index = self.bucket_index + 1;
        }
        proof {
            lemma_prefix_full(c);
        }
        None
    }
}

impl<T> Histogram<T> {
    /// Returns an [`Interpolator`] over the aggregate bucket counts.
    pub fn interpolator(&self) -> (i: Interpolator<'_>)
        requires
            self.wf(),
        ensures
            i.wf(),
            i.width_spec() == self.width_spec(),
            i.counts() == self.counts(),
    {
        Interpolator::new(&self.log_scale, self.aggregate_buckets.as_slice())
    }

    /// Returns an incremental cursor for computing cumulative counts at
    /// monotonically increasing positions.
    pub fn cumulative_count(&self) -> (c: CumulativeCount<'_>)
        requires
            self.wf(),
        ensures
            c.wf(),
            c.width_spec() == self.width_spec(),
            c.counts() == self.counts(),
            c.index_spec() == 0,
            c.accumulated_spec() == 0,
    {
        CumulativeCount::new(&self.log_scale, self.aggregate_buckets.as_slice())
    }

    /// Finds the bucket holding the sample of 1-based `rank` in sorted order,
    /// with the rank within that bucket; `None` when `rank` exceeds the total.
    pub fn bucket_at_rank(&self, rank: u64) -> (r: Option<(usize, u64)>)
        requires
            self.wf(),
        ensures
            match r {
                Some((i, rank_in_bucket)) => {
                    &&& is_rank_bucket(self.counts(), rank as nat, i as int)
                    &&& rank_in_bucket == rank - prefix_sum(self.counts(), i as int)
                },
                None => sum_of(self.counts()) < rank,
            },
    {
        self.interpolator().bucket_at_rank(rank)
    }
}

/// Law: a cursor fed non-decreasing positions stops at the bucket of each
/// position, with the whole-bucket count before it, just as a fresh scan
/// from the first bucket does.
pub proof fn law_cursor_follows_positions(w: nat, counts: Seq<u64>, p1: nat, p2: nat)
    requires
        valid_width(w),
        p1 <= p2 <= u64::MAX,
    ensures
        vstd::math::max(bucket_of(w, p1) as int, bucket_of(w, p2) as int) == bucket_of(w, p2),
        prefix_sum(counts, vstd::math::max(bucket_of(w, p1) as int, bucket_of(w, p2) as int))
            == prefix_sum(counts, bucket_of(w, p2) as int),
{
    crate::geometry::lemma_bucket_of_monotone(w, p1, p2);
}

/// Law: resuming the rank scan from the bucket of an earlier, smaller rank
/// finds the bucket a fresh scan from the first bucket finds.
pub proof fn law_rank_scan_resumes(counts: Seq<u64>, r1: nat, r2: nat, i1: int, i2: int)
    requires
        is_rank_bucket(counts, r1, i1),
        r1 <= r2,
        i1 <= i2 < counts.len(),
        prefix_sum(counts, i2 + 1) >= r2,
        forall|j: int| i1 < j <= i2 ==> #[trigger] prefix_sum(counts, j) < r2,
    ensures
        is_rank_bucket(counts, r2, i2),
{
    assert forall|j: int| 1 <= j <= i2 implies #[trigger] prefix_sum(counts, j) < r2 by {
        if j <= i1 {
            assert(prefix_sum(counts, j) < r1);
        }
    }
}

/// Bucket counts whose running totals are `cumulative`: the first count is
/// `cumulative[0]` and each further count is the rise over the previous total.
pub open spec fn rises(cumulative: Seq<u64>) -> Seq<u64> {
    Seq::new(
        cumulative.len(),
        |i: int|
            if i == 0 {
                cumulative[0]
            } else {
                (cumulative[i] - cumulative[i - 1]) as u64
            },
    )
}

/// Running totals that never decrease.
pub open spec fn nondecreasing(cumulative: Seq<u64>) -> bool {
    forall|i: int, j: int| 0 <= i <= j < cumulative.len() ==> cumulative[i] <= cumulative[j]
}

/// Turns non-decreasing cumulative counts, one per destination bucket, into
/// per-bucket counts.
pub fn counts_from_cumulative(cumulative: &[u64]) -> (counts: Vec<u64>)
    requires
        nondecreasing(cumulative@),
    ensures
        counts@ == rises(cumulative@),
{
    let n = cumulative.len();
    let mut counts: Vec<u64> = Vec::with_capacity(n);
    let mut prev: u64 = 0;
    let mut i: usize = 0;
    while i < n
        invariant
            n == cumulative@.len(),
            nondecreasing(cumulative@),
            i <= n,
            counts@.len() == i,
            i == 0 ==> prev == 0,
            i > 0 ==> prev == cumulative@[i - 1],
            forall|k: int| 0 <= k < i ==> counts@[k] == rises(cumulative@)[k],
        decreases n - i,
    {
        let right = cumulative[i];
        counts.push(right - prev);
        prev = right;
        i = i + 1;
    }
    proof {
        assert(counts@ =~= rises(cumulative@));
    }
    counts
}

/// Law: the counts rebuilt from running totals add up to the final total, so
/// re-binning through rounded cumulative counts preserves the sample count.
pub proof fn law_rises_sum_to_last(cumulative: Seq<u64>)
    requires
        nondecreasing(cumulative),
        cumulative.len() > 0,
    ensures
        sum_of(rises(cumulative)) == cumulative.last(),
    decreases cumulative.len(),
{
    let r = rises(cumulative);
    assert(sum_of(r) == sum_of(r.drop_last()) + r.last());
    if cumulative.len() == 1 {
        assert(r.drop_last() =~= Seq::<u64>::empty());
        assert(sum_of(r.drop_last()) == 0);
    } else {
        let n = cumulative.len() as int;
        let shorter = cumulative.drop_last();
        assert(cumulative[n - 2] <= cumulative[n - 1]);
        law_rises_sum_to_last(shorter);
        assert(r.drop_last() =~= rises(shorter));
        assert(shorter.last() == cumulative[n - 2]);
        assert(r.last() == cumulative[n - 1] - cumulative[n - 2]);
    }
}

} // verus!
