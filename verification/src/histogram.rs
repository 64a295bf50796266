//! The histogram: logarithmic buckets with optional sliding-window slots.
use vstd::prelude::*;

verus! {

use crate::geometry::{valid_width, bucket_count_of, bucket_of};
use crate::scale::LogScale;
use crate::slot::{Slot, SlotQueue, fill_zero, sum_counts};
use crate::bucket::BucketRef;
use crate::sums::{
    sum_of,
    col_sum,
    lemma_sum_update,
    lemma_sum_zeros,
    lemma_sum_sub,
    lemma_col_sum_nonneg,
    lemma_col_sum_push,
    lemma_col_sum_first,
    lemma_col_sum_take_step,
    lemma_col_sum_take_le,
    lemma_col_sum_take_zero,
};

/// A histogram for tracking the distribution of u64 values using logarithmic bucketing.
///
/// # Multi-Slot Support
///
/// With `slot_limit = N`, only `N - 1` historical slots are physically
/// stored. The current (newest) period's counts are never materialized: they
/// are `aggregate - Σ stored`. `record()` only touches the aggregate;
/// `advance()` materializes the current period into a stored slot and, at
/// capacity, evicts the oldest one.
#[derive(Debug, Clone, PartialEq, Eq)]
pub struct Histogram<T = ()> {
    /// Log scale for value-to-bucket mapping.
    pub log_scale: LogScale,
    /// Historical slots (up to `slot_limit - 1`) and the current period's metadata.
    pub slots: SlotQueue<T>,
    /// Aggregate bucket counts across all periods.
    pub aggregate_buckets: Vec<u64>,
}

/// All entries of a sequence are zero.
pub open spec fn all_zero(s: Seq<u64>) -> bool {
    forall|i: int| 0 <= i < s.len() ==> s[i] == 0
}

impl<T> Histogram<T> {
    /// The bit width of the histogram's scale.
    pub open spec fn width_spec(&self) -> nat {
        self.log_scale.width_spec()
    }

    /// The number of buckets of the histogram's scale.
    pub open spec fn num_buckets_spec(&self) -> nat {
        bucket_count_of(self.width_spec())
    }

    /// Aggregate bucket counts across all periods.
    pub open spec fn counts(&self) -> Seq<u64> {
        self.aggregate_buckets@
    }

    /// Bucket counts of the stored historical periods, oldest first.
    pub open spec fn stored(&self) -> Seq<Seq<u64>> {
        self.slots.slots@.map_values(|s: Slot<T>| s.buckets@)
    }

    /// Metadata of the stored historical periods, oldest first.
    pub open spec fn stored_data(&self) -> Seq<Option<T>> {
        self.slots.slots@.map_values(|s: Slot<T>| s.data)
    }

    /// The maximum number of active slots.
    pub open spec fn limit(&self) -> nat {
        self.slots.slot_limit as nat
    }

    /// Bucket counts of the implicit current period: aggregate minus every stored period.
    pub open spec fn current(&self) -> Seq<u64> {
        Seq::new(
            self.counts().len(),
            |i: int| (self.counts()[i] - col_sum(self.stored(), i)) as u64,
        )
    }

    /// The number of active slots: stored historicals plus the current period.
    pub open spec fn active_spec(&self) -> nat {
        if self.limit() <= 1 {
            0
        } else {
            self.stored().len() + 1
        }
    }

    /// Well-formedness: one count per bucket everywhere, at most `slot_limit - 1`
    /// stored periods, and an aggregate that covers every stored period.
    pub open spec fn wf(&self) -> bool {
        &&& valid_width(self.width_spec())
        &&& self.counts().len() == self.num_buckets_spec()
        &&& forall|j: int|
            0 <= j < self.stored().len() ==> #[trigger] self.stored()[j].len()
                == self.num_buckets_spec()
        &&& if self.limit() <= 1 {
            self.stored().len() == 0
        } else {
            self.stored().len() <= self.limit() - 1
        }
        &&& forall|i: int|
            0 <= i < self.num_buckets_spec() ==> col_sum(self.stored(), i) <= self.counts()[i]
    }

    /// Creates a new histogram with 1 slot and 252 buckets.
    pub fn new() -> (h: Self)
        ensures
            h.wf(),
            h.width_spec() == LogScale::DEFAULT_WIDTH,
            h.log_scale.is_scale_of(LogScale::DEFAULT_WIDTH as nat),
            h.limit() == 1,
            all_zero(h.counts()),
            h.stored().len() == 0,
            h.slots.current_data is None,
    {
        Self::with_slots(1)
    }

    /// Creates a new histogram with the specified slot limit.
    ///
    /// When `slot_limit` is 0 or 1, no individual slots are maintained —
    /// the aggregate is the sole source of truth.
    pub fn with_slots(slot_limit: usize) -> (h: Self)
        ensures
            h.wf(),
            h.width_spec() == LogScale::DEFAULT_WIDTH,
            h.log_scale.is_scale_of(LogScale::DEFAULT_WIDTH as nat),
            h.limit() == slot_limit,
            all_zero(h.counts()),
            h.stored().len() == 0,
            h.slots.current_data is None,
    {
        Self::with_log_scale(LogScale::DEFAULT_WIDTH, slot_limit)
    }

    /// Creates a new histogram with the specified bucket width (1..=16) and slot limit.
    pub fn with_log_scale(width: usize, slot_limit: usize) -> (h: Self)
        requires
            valid_width(width as nat),
        ensures
            h.wf(),
            h.width_spec() == width,
            h.log_scale.is_scale_of(width as nat),
            h.limit() == slot_limit,
            all_zero(h.counts()),
            h.stored().len() == 0,
            h.slots.current_data is None,
    {
        let log_scale = LogScale::get(width);
        let num_buckets = log_scale.num_buckets();
        let h = Histogram {
            log_scale,
            slots: SlotQueue::new(slot_limit),
            aggregate_buckets: vec![0; num_buckets],
        };
        proof {
            assert(h.stored() =~= Seq::<Seq<u64>>::empty());
        }
        h
    }

    /// Records a value once.
    pub fn record(&mut self, value: u64)
        requires
            old(self).wf(),
            old(self).counts()[bucket_of(old(self).width_spec(), value as nat) as int] + 1
                <= u64::MAX,
        ensures
            final(self).wf(),
            final(self).counts() == old(self).counts().update(
                bucket_of(old(self).width_spec(), value as nat) as int,
                (old(self).counts()[bucket_of(old(self).width_spec(), value as nat) as int]
                    + 1) as u64,
            ),
            sum_of(final(self).counts()) == sum_of(old(self).counts()) + 1,
            final(self).stored() == old(self).stored(),
            final(self).stored_data() == old(self).stored_data(),
            final(self).slots.current_data == old(self).slots.current_data,
            final(self).limit() == old(self).limit(),
            final(self).width_spec() == old(self).width_spec(),
    {
        self.record_n(value, 1);
    }

    /// Records a value `count` times.
    pub fn record_n(&mut self, value: u64, count: u64)
        requires
            old(self).wf(),
            old(self).counts()[bucket_of(old(self).width_spec(), value as nat) as int] + count
                <= u64::MAX,
        ensures
            final(self).wf(),
            final(self).counts() == old(self).counts().update(
                bucket_of(old(self).width_spec(), value as nat) as int,
                (old(self).counts()[bucket_of(old(self).width_spec(), value as nat) as int]
                    + count) as u64,
            ),
            sum_of(final(self).counts()) == sum_of(old(self).counts()) + count,
            final(self).stored() == old(self).stored(),
            final(self).stored_data() == old(self).stored_data(),
            final(self).slots.current_data == old(self).slots.current_data,
            final(self).limit() == old(self).limit(),
            final(self).width_spec() == old(self).width_spec(),
    {
        let bucket_index = self.log_scale.calculate_bucket(value);
        let c = self.aggregate_buckets[bucket_index];
        self.aggregate_buckets.set(bucket_index, c + count);
        proof {
            lemma_sum_update(old(self).counts(), bucket_index as int, (c + count) as u64);
        }
    }

    /// Removes the oldest stored period from the aggregate and the queue and
    /// hands back its bucket vector.
    fn evict_oldest(&mut self) -> (evicted: Vec<u64>)
        requires
            old(self).wf(),
            old(self).stored().len() > 0,
        ensures
            final(self).wf(),
            evicted@ == old(self).stored()[0],
            final(self).stored() == old(self).stored().drop_first(),
            final(self).stored_data() == old(self).stored_data().drop_first(),
            final(self).counts().len() == old(self).counts().len(),
            forall|i: int|
                0 <= i < old(self).counts().len() ==> final(self).counts()[i] == old(
                    self,
                ).counts()[i] - old(self).stored()[0][i],
            final(self).current() == old(self).current(),
            final(self).slots.current_data == old(self).slots.current_data,
            final(self).limit() == old(self).limit(),
            final(self).width_spec() == old(self).width_spec(),
    {
        let ghost old_stored = self.stored();
        let evicted = self.slots.pop_front().unwrap();
        proof {
            assert(self.stored() =~= old_stored.drop_first());
            assert(self.stored_data() =~= old(self).stored_data().drop_first());
            assert(evicted.buckets@ == old_stored[0]);
        }
        let n = self.aggregate_buckets.len();
        let mut i: usize = 0;
        while i < n
            invariant
                n == self.aggregate_buckets@.len() == old(self).counts().len(),
                n == old(self).num_buckets_spec(),
                i <= n,
                old(self).wf(),
                evicted.buckets@ == old_stored[0],
                old_stored == old(self).stored(),
                old_stored.len() > 0,
                forall|j: int| 0 <= j < i ==> self.aggregate_buckets@[j] == old(self).counts()[j] - old_stored[0][j],
                forall|j: int| i <= j < n ==> self.aggregate_buckets@[j] == old(self).counts()[j],
                self.stored() == old_stored.drop_first(),
                self.stored_data() == old(self).stored_data().drop_first(),
                self.slots.current_data == old(self).slots.current_data,
                self.slots.slot_limit == old(self).slots.slot_limit,
                self.log_scale == old(self).log_scale,
            decreases n - i,
        {
            proof {
                lemma_col_sum_first(old_stored, i as int);
                lemma_col_sum_nonneg(old_stored.drop_first(), i as int);
                assert(old_stored[0].len() == n);
            }
            let c = self.aggregate_buckets[i] - evicted.buckets[i];
            self.aggregate_buckets.set(i, c);
            i = i + 1;
        }
        proof {
            assert forall|k: int| 0 <= k < n implies col_sum(self.stored(), k) <= self.counts()[k] by {
                lemma_col_sum_first(old_stored, k);
            }
            assert forall|j: int| 0 <= j < self.stored().len() implies #[trigger] self.stored()[j].len()
                == self.num_buckets_spec() by {
                assert(self.stored()[j] == old_stored[j + 1]);
                assert(old_stored[j + 1].len() == self.num_buckets_spec());
            }
            assert forall|k: int| 0 <= k < n implies self.current()[k] == old(self).current()[k] by {
                lemma_col_sum_first(old_stored, k);
            }
            assert(self.current() =~= old(self).current());
        }
        evicted.buckets
    }

    /// Writes the implicit current period's counts into `buckets`.
    fn materialize_current(&self, buckets: &mut Vec<u64>)
        requires
            self.wf(),
            old(buckets)@.len() == self.num_buckets_spec(),
        ensures
            final(buckets)@ == self.current(),
    {
        let n = self.aggregate_buckets.len();
        let ghost stored = self.stored();
        let mut i: usize = 0;
        while i < n
            invariant
                n == self.counts().len() == buckets@.len(),
                i <= n,
                forall|k: int| 0 <= k < i ==> buckets@[k] == self.counts()[k],
            decreases n - i,
        {
            buckets.set(i, self.aggregate_buckets[i]);
            i = i + 1;
        }
        let m = self.slots.slots.len();
        let mut j: usize = 0;
        while j < m
            invariant
                self.wf(),
                stored == self.stored(),
                m == stored.len(),
                n == self.counts().len() == buckets@.len() == self.num_buckets_spec(),
                j <= m,
                forall|k: int|
                    0 <= k < n ==> buckets@[k] == self.counts()[k] - col_sum(stored.take(j as int), k),
            decreases m - j,
        {
            let slot = &self.slots.slots[j];
            proof {
                assert(slot.buckets@ == stored[j as int]);
                assert(stored[j as int].len() == n);
            }
            let mut i: usize = 0;
            while i < n
                invariant
                    self.wf(),
                    stored == self.stored(),
                    m == stored.len(),
                    j < m,
                    slot.buckets@ == stored[j as int],
                    n == self.counts().len() == buckets@.len() == slot.buckets@.len()
                        == self.num_buckets_spec(),
                    i <= n,
                    forall|k: int|
                        0 <= k < i ==> buckets@[k] == self.counts()[k] - col_sum(
                            stored.take(j + 1),
                            k,
                        ),
                    forall|k: int|
                        i <= k < n ==> buckets@[k] == self.counts()[k] - col_sum(
                            stored.take(j as int),
                            k,
                        ),
                decreases n - i,
            {
                proof {
                    lemma_col_sum_take_step(stored, j as int, i as int);
                    lemma_col_sum_take_le(stored, j + 1, i as int);
                }
                let c = buckets[i] - slot.buckets[i];
                buckets.set(i, c);
                proof {
                    lemma_col_sum_take_step(stored, j as int, i as int);
                }
                i = i + 1;
            }
            j = j + 1;
        }
        proof {
            assert(stored.take(m as int) =~= stored);
            assert(buckets@ =~= self.current());
        }
    }

    /// Advances to a new slot, evicting the oldest if the slot limit is reached.
    ///
    /// Returns the number of active slots after advancing. With a slot limit
    /// of 0 or 1 the aggregate is cleared and 0 is returned.
    pub fn advance(&mut self, data: T) -> (active: usize)
        requires
            old(self).wf(),
        ensures
            final(self).wf(),
            final(self).width_spec() == old(self).width_spec(),
            final(self).limit() == old(self).limit(),
            active == final(self).active_spec(),
            active <= final(self).limit(),
            old(self).limit() <= 1 ==> {
                &&& active == 0
                &&& final(self).stored() == old(self).stored()
                &&& final(self).counts().len() == old(self).counts().len()
                &&& all_zero(final(self).counts())
                &&& sum_of(final(self).counts()) == 0
                &&& final(self).slots.current_data == old(self).slots.current_data
            },
            old(self).limit() >= 2 ==> {
                &&& final(self).slots.current_data == Some(data)
                &&& all_zero(final(self).current())
                &&& if old(self).stored().len() == old(self).limit() - 1 {
                    &&& final(self).stored() == old(self).stored().drop_first().push(
                        old(self).current(),
                    )
                    &&& final(self).stored_data() == old(self).stored_data().drop_first().push(
                        old(self).slots.current_data,
                    )
                    &&& final(self).counts().len() == old(self).counts().len()
                    &&& forall|i: int|
                        0 <= i < old(self).counts().len() ==> final(self).counts()[i] == old(
                            self,
                        ).counts()[i] - old(self).stored()[0][i]
                    &&& sum_of(final(self).counts()) == sum_of(old(self).counts()) - sum_of(
                        old(self).stored()[0],
                    )
                } else {
                    &&& final(self).stored() == old(self).stored().push(old(self).current())
                    &&& final(self).stored_data() == old(self).stored_data().push(
                        old(self).slots.current_data,
                    )
                    &&& final(self).counts() == old(self).counts()
                }
            },
    {
        if self.slots.slot_limit <= 1 {
            fill_zero(&mut self.aggregate_buckets);
            proof {
                lemma_sum_zeros(self.counts());
                assert forall|i: int|
                    0 <= i < self.num_buckets_spec() implies col_sum(self.stored(), i)
                    <= self.counts()[i] by {
                    assert(self.stored().len() == 0);
                }
            }
            return 0;
        }
        let num_buckets = self.log_scale.num_buckets();
        let ghost mid_current;
        let mut buckets = if self.slots.slots.len() == self.slots.slot_limit - 1 {
            let evicted = self.evict_oldest();
            proof {
                mid_current = self.current();
                let a = old(self).counts();
                let b = old(self).stored()[0];
                assert(b.len() == a.len());
                lemma_sum_sub(a, b, self.counts());
            }
            evicted
        } else {
            proof {
                mid_current = self.current();
            }
            vec![0; num_buckets]
        };
        proof {
            assert(mid_current == old(self).current());
        }
        self.materialize_current(&mut buckets);
        let ghost pre_stored = self.stored();
        let ghost pre_data = self.stored_data();
        let ghost pre_counts = self.counts();
        proof {
            assert forall|i: int| 0 <= i < self.num_buckets_spec() implies col_sum(pre_stored, i)
                + old(self).current()[i] == pre_counts[i] by {
                lemma_col_sum_nonneg(pre_stored, i);
            }
        }
        let current_data = self.slots.current_data.take();
        self.slots.push_back(Slot { buckets, data: current_data });
        self.slots.current_data = Some(data);
        proof {
            let n = self.num_buckets_spec();
            assert(self.stored() =~= pre_stored.push(old(self).current()));
            assert(self.stored_data() =~= pre_data.push(old(self).slots.current_data));
            assert(self.counts() == pre_counts);
            assert forall|i: int| 0 <= i < n implies col_sum(self.stored(), i) == self.counts()[i] by {
                lemma_col_sum_push(pre_stored, old(self).current(), i);
            }
            assert forall|j: int| 0 <= j < self.stored().len() implies #[trigger] self.stored()[j].len()
                == self.num_buckets_spec() by {
                if j < pre_stored.len() {
                    assert(self.stored()[j] == pre_stored[j]);
                }
            }
            assert(all_zero(self.current()));
        }
        self.slots.slots.len() + 1
    }

    /// Whether the histogram is well-formed. Its fields are public, so code
    /// that changes them directly can test this before calling on.
    pub fn check_wf(&self) -> (ok: bool)
        ensures
            ok == self.wf(),
    {
        proof {
            use_type_invariant(&self.log_scale);
            self.log_scale.lemma_inv();
        }
        let n = self.log_scale.num_buckets();
        if self.aggregate_buckets.len() != n {
            return false;
        }
        let m = self.slots.slots.len();
        let limit = self.slots.slot_limit;
        let count_ok = if limit <= 1 {
            m == 0
        } else {
            m <= limit - 1
        };
        if !count_ok {
            return false;
        }
        let ghost stored = self.stored();
        let ghost counts = self.counts();
        let mut j: usize = 0;
        while j < m
            invariant
                stored == self.stored(),
                m == stored.len(),
                n == self.num_buckets_spec(),
                j <= m,
                forall|k: int| 0 <= k < j ==> #[trigger] stored[k].len() == n,
            decreases m - j,
        {
            proof {
                assert(self.slots.slots@[j as int].buckets@ == stored[j as int]);
            }
            if self.slots.slots[j].buckets.len() != n {
                proof {
                    assert(self.stored()[j as int].len() != self.num_buckets_spec());
                }
                return false;
            }
            j = j + 1;
        }
        let mut i: usize = 0;
        while i < n
            invariant
                stored == self.stored(),
                counts == self.counts(),
                m == stored.len(),
                n == counts.len(),
                forall|k: int| 0 <= k < m ==> #[trigger] stored[k].len() == n,
                i <= n,
                forall|k: int| 0 <= k < i ==> #[trigger] col_sum(stored, k) <= counts[k],
            decreases n - i,
        {
            let cap = self.aggregate_buckets[i];
            let mut sum: u64 = 0;
            let mut j: usize = 0;
            proof {
                lemma_col_sum_take_zero(stored, i as int);
            }
            while j < m
                invariant
                    stored == self.stored(),
                    counts == self.counts(),
                    m == stored.len(),
                    n == counts.len(),
                    forall|k: int| 0 <= k < m ==> #[trigger] stored[k].len() == n,
                    i < n,
                    cap == counts[i as int],
                    j <= m,
                    sum <= cap,
                    sum == col_sum(stored.take(j as int), i as int),
                decreases m - j,
            {
                proof {
                    assert(self.slots.slots@[j as int].buckets@ == stored[j as int]);
                    assert(stored[j as int].len() == n);
                }
                let v = self.slots.slots[j].buckets[i];
                proof {
                    assert(v == stored[j as int][i as int]);
                    lemma_col_sum_take_step(stored, j as int, i as int);
                }
                if v > cap - sum {
                    proof {
                        lemma_col_sum_take_le(stored, j + 1, i as int);
                        assert(col_sum(stored, i as int) > counts[i as int]);
                    }
                    return false;
                }
                sum = sum + v;
                j = j + 1;
            }
            proof {
                assert(stored.take(m as int) =~= stored);
            }
            i = i + 1;
        }
        true
    }

    /// Returns the number of active slots (stored historicals + implicit current).
    pub fn active_slot_count(&self) -> (n: usize)
        requires
            self.wf(),
        ensures
            n == self.active_spec(),
    {
        if self.slots.slot_limit <= 1 {
            0
        } else {
            self.slots.slots.len() + 1
        }
    }

    /// Returns the maximum number of active slots.
    pub fn slot_limit(&self) -> (n: usize)
        ensures
            n == self.limit(),
    {
        self.slots.slot_limit
    }

    /// Returns the total number of values recorded across all slots.
    pub fn total(&self) -> (t: u64)
        requires
            sum_of(self.counts()) <= u64::MAX,
        ensures
            t == sum_of(self.counts()),
    {
        sum_counts(self.aggregate_buckets.as_slice())
    }

    /// Returns the number of buckets.
    pub fn num_buckets(&self) -> (n: usize)
        ensures
            n == self.num_buckets_spec(),
    {
        self.log_scale.num_buckets()
    }

    /// Returns a lazy reference to the bucket at the given index.
    pub fn bucket(&self, index: usize) -> (b: BucketRef<'_>)
        requires
            self.wf(),
            index < self.num_buckets_spec(),
        ensures
            b.wf(),
            b.index_spec() == index,
            b.width_spec() == self.width_spec(),
            b.count_spec() == self.counts()[index as int],
    {
        BucketRef::new(&self.log_scale, index, self.aggregate_buckets[index])
    }

    /// Returns every bucket, in index order, including empty ones.
    pub fn bucket_data(&self) -> (v: Vec<BucketRef<'_>>)
        requires
            self.wf(),
        ensures
            v@.len() == self.num_buckets_spec(),
            forall|i: int|
                0 <= i < v@.len() ==> {
                    &&& (#[trigger] v@[i]).wf()
                    &&& v@[i].index_spec() == i
                    &&& v@[i].width_spec() == self.width_spec()
                    &&& v@[i].count_spec() == self.counts()[i]
                },
    {
        let n = self.num_buckets();
        let mut v: Vec<BucketRef<'_>> = Vec::with_capacity(n);
        let mut i: usize = 0;
        while i < n
            invariant
                self.wf(),
                n == self.num_buckets_spec(),
                i <= n,
                v@.len() == i,
                forall|k: int|
                    0 <= k < i ==> {
                        &&& (#[trigger] v@[k]).wf()
                        &&& v@[k].index_spec() == k
                        &&& v@[k].width_spec() == self.width_spec()
                        &&& v@[k].count_spec() == self.counts()[k]
                    },
            decreases n - i,
        {
            v.push(self.bucket(i));
            i = i + 1;
        }
        v
    }
}

/// Recording one value `k` times adds `k` to its bucket.
pub open spec fn record_repeated(counts: Seq<u64>, b: int, k: nat) -> Seq<u64>
    decreases k,
{
    if k == 0 {
        counts
    } else {
        let prev = record_repeated(counts, b, (k - 1) as nat);
        prev.update(b, (prev[b] + 1) as u64)
    }
}

/// Law: `record_n(v, n)` has the same effect on the counts as calling
/// `record(v)` `n` times.
pub proof fn law_record_n_is_repeated_record(counts: Seq<u64>, b: int, n: nat)
    requires
        0 <= b < counts.len(),
        counts[b] + n <= u64::MAX,
    ensures
        record_repeated(counts, b, n) == counts.update(b, (counts[b] + n) as u64),
    decreases n,
{
    if n > 0 {
        law_record_n_is_repeated_record(counts, b, (n - 1) as nat);
        assert(record_repeated(counts, b, n) =~= counts.update(b, (counts[b] + n) as u64));
    } else {
        assert(counts.update(b, counts[b]) =~= counts);
    }
}

/// Law: the slot limit is fixed when a histogram is made. Along any run of
/// well-formed states in which each step keeps the limit, as `record`,
/// `record_n` and `advance` each ensure, every state has the first state's
/// limit and at most that many active slots.
pub proof fn law_slot_limit_is_fixed<T>(run: Seq<Histogram<T>>)
    requires
        run.len() > 0,
        forall|k: int| 0 < k < run.len() ==> #[trigger] run[k].limit() == run[k - 1].limit(),
        forall|k: int| 0 <= k < run.len() ==> #[trigger] run[k].wf(),
    ensures
        forall|k: int|
            0 <= k < run.len() ==> #[trigger] run[k].limit() == run[0].limit() && run[k].active_spec()
                <= run[0].limit(),
    decreases run.len(),
{
    if run.len() > 1 {
        let prefix = run.drop_last();
        assert forall|k: int| 0 < k < prefix.len() implies #[trigger] prefix[k].limit() == prefix[k
            - 1].limit() by {
            assert(prefix[k] == run[k] && prefix[k - 1] == run[k - 1]);
        }
        assert forall|k: int| 0 <= k < prefix.len() implies #[trigger] prefix[k].wf() by {
            assert(prefix[k] == run[k]);
        }
        law_slot_limit_is_fixed(prefix);
        assert forall|k: int| 0 <= k < run.len() implies #[trigger] run[k].limit() == run[0].limit()
            && run[k].active_spec() <= run[0].limit() by {
            if k < prefix.len() {
                assert(prefix[k] == run[k]);
            } else {
                assert(prefix[k - 1] == run[k - 1]);
                assert(run[k].wf());
            }
        }
    } else {
        assert(run[0].wf());
    }
}

impl<T> Default for Histogram<T> {
    /// A histogram with 1 slot and the default width.
    fn default() -> (h: Self)
        ensures
            h.wf(),
            h.width_spec() == LogScale::DEFAULT_WIDTH,
            h.log_scale.is_scale_of(LogScale::DEFAULT_WIDTH as nat),
            h.limit() == 1,
            all_zero(h.counts()),
            h.stored().len() == 0,
            h.slots.current_data is None,
    {
        Self::new()
    }
}

/// A read-only view of a histogram for density analysis.
pub struct Density<'a, T = ()> {
    hist: &'a Histogram<T>,
}

impl<'a, T> Density<'a, T> {
    /// The histogram being analysed.
    pub closed spec fn histogram_spec(self) -> &'a Histogram<T> {
        self.hist
    }

    /// Creates a density view of the histogram.
    pub fn new(hist: &'a Histogram<T>) -> (d: Self)
        ensures
            d.histogram_spec() == hist,
    {
        Density { hist }
    }

    /// The histogram being analysed.
    pub fn histogram(&self) -> (h: &'a Histogram<T>)
        ensures
            h == self.histogram_spec(),
    {
        self.hist
    }
}

} // verus!
