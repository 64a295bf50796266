//! Sums over bucket counts: totals, prefixes, and column sums over slots.
use vstd::prelude::*;

verus! {

/// Sum of a sequence of counts.
pub open spec fn sum_of(s: Seq<u64>) -> int
    decreases s.len(),
{
    if s.len() == 0 {
        0
    } else {
        sum_of(s.drop_last()) + s.last()
    }
}

/// Sum of the first `i` counts.
pub open spec fn prefix_sum(s: Seq<u64>, i: int) -> int {
    sum_of(s.take(i))
}

/// Sum of entry `i` over every row of `rows`.
pub open spec fn col_sum(rows: Seq<Seq<u64>>, i: int) -> int
    decreases rows.len(),
{
    if rows.len() == 0 {
        0
    } else {
        col_sum(rows.drop_last(), i) + rows.last()[i]
    }
}

/// Sums are never negative.
pub proof fn lemma_sum_nonneg(s: Seq<u64>)
    ensures
        sum_of(s) >= 0,
    decreases s.len(),
{
    if s.len() > 0 {
        lemma_sum_nonneg(s.drop_last());
    }
}

/// Extending a prefix by one entry adds that entry.
pub proof fn lemma_prefix_step(s: Seq<u64>, i: int)
    requires
        0 <= i < s.len(),
    ensures
        prefix_sum(s, i + 1) == prefix_sum(s, i) + s[i],
{
    assert(s.take(i + 1).drop_last() =~= s.take(i));
}

/// The full prefix is the whole sum.
pub proof fn lemma_prefix_full(s: Seq<u64>)
    ensures
        prefix_sum(s, s.len() as int) == sum_of(s),
{
    assert(s.take(s.len() as int) =~= s);
}

/// The empty prefix sums to zero.
pub proof fn lemma_prefix_zero(s: Seq<u64>)
    ensures
        prefix_sum(s, 0) == 0,
{
    assert(s.take(0) =~= Seq::<u64>::empty());
}

/// Prefix sums grow with the prefix length.
pub proof fn lemma_prefix_monotone(s: Seq<u64>, i: int, j: int)
    requires
        0 <= i <= j <= s.len(),
    ensures
        prefix_sum(s, i) <= prefix_sum(s, j),
    decreases j - i,
{
    if i < j {
        lemma_prefix_step(s, j - 1);
        lemma_prefix_monotone(s, i, j - 1);
    }
}

/// Replacing one entry changes the sum by the difference.
pub proof fn lemma_sum_update(s: Seq<u64>, i: int, v: u64)
    requires
        0 <= i < s.len(),
    ensures
        sum_of(s.update(i, v)) == sum_of(s) - s[i] + v,
    decreases s.len(),
{
    if i == s.len() - 1 {
        assert(s.update(i, v).drop_last() =~= s.drop_last());
    } else {
        lemma_sum_update(s.drop_last(), i, v);
        assert(s.update(i, v).drop_last() =~= s.drop_last().update(i, v));
    }
}

/// A sequence of zeros sums to zero.
pub proof fn lemma_sum_zeros(s: Seq<u64>)
    requires
        forall|i: int| 0 <= i < s.len() ==> s[i] == 0,
    ensures
        sum_of(s) == 0,
    decreases s.len(),
{
    if s.len() > 0 {
        lemma_sum_zeros(s.drop_last());
    }
}

/// The sum of an entrywise difference is the difference of the sums.
pub proof fn lemma_sum_sub(a: Seq<u64>, b: Seq<u64>, c: Seq<u64>)
    requires
        a.len() == b.len() == c.len(),
        forall|i: int| 0 <= i < a.len() ==> c[i] == a[i] - b[i],
    ensures
        sum_of(c) == sum_of(a) - sum_of(b),
    decreases a.len(),
{
    if a.len() > 0 {
        lemma_sum_sub(a.drop_last(), b.drop_last(), c.drop_last());
    }
}

/// Column sums are never negative.
pub proof fn lemma_col_sum_nonneg(rows: Seq<Seq<u64>>, i: int)
    ensures
        col_sum(rows, i) >= 0,
    decreases rows.len(),
{
    if rows.len() > 0 {
        lemma_col_sum_nonneg(rows.drop_last(), i);
    }
}

/// Appending a row adds its entry.
pub proof fn lemma_col_sum_push(rows: Seq<Seq<u64>>, row: Seq<u64>, i: int)
    ensures
        col_sum(rows.push(row), i) == col_sum(rows, i) + row[i],
{
    assert(rows.push(row).drop_last() =~= rows);
}

/// Extending a prefix of rows by one row adds that row's entry.
pub proof fn lemma_col_sum_take_step(rows: Seq<Seq<u64>>, j: int, i: int)
    requires
        0 <= j < rows.len(),
    ensures
        col_sum(rows.take(j + 1), i) == col_sum(rows.take(j), i) + rows[j][i],
{
    assert(rows.take(j + 1).drop_last() =~= rows.take(j));
}

/// The column sum of the empty prefix is zero.
pub proof fn lemma_col_sum_take_zero(rows: Seq<Seq<u64>>, i: int)
    ensures
        col_sum(rows.take(0), i) == 0,
{
    assert(rows.take(0) =~= Seq::<Seq<u64>>::empty());
}

/// The column sum of a prefix of rows is at most the full column sum.
pub proof fn lemma_col_sum_take_le(rows: Seq<Seq<u64>>, j: int, i: int)
    requires
        0 <= j <= rows.len(),
    ensures
        col_sum(rows.take(j), i) <= col_sum(rows, i),
    decreases rows.len() - j,
{
    if j == rows.len() {
        assert(rows.take(j) =~= rows);
    } else {
        lemma_col_sum_take_step(rows, j, i);
        lemma_col_sum_take_le(rows, j + 1, i);
    }
}

/// The column sum splits into the first row and the rest.
pub proof fn lemma_col_sum_first(rows: Seq<Seq<u64>>, i: int)
    requires
        rows.len() > 0,
    ensures
        col_sum(rows, i) == rows[0][i] + col_sum(rows.drop_first(), i),
    decreases rows.len(),
{
    if rows.len() == 1 {
        assert(rows.drop_first() =~= Seq::<Seq<u64>>::empty());
        assert(rows.drop_last() =~= Seq::<Seq<u64>>::empty());
    } else {
        lemma_col_sum_first(rows.drop_last(), i);
        assert(rows.drop_last().drop_first() =~= rows.drop_first().drop_last());
    }
}

} // verus!
