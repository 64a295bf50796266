//! ASCII histogram charts, single or stacked over several series.
use vstd::prelude::*;
use vstd::string::*;

verus! {

use crate::geometry::bucket_count_of;
use crate::histogram::Histogram;
use crate::sums::{col_sum, lemma_col_sum_take_step, lemma_col_sum_take_zero, lemma_col_sum_nonneg};
use crate::geometry::{bucket_left, bucket_right};
use crate::display::PercentileStats;
use crate::text::{
    repeat_char,
    push_repeat,
    decimal,
    spaces,
    pad_left,
    digit_count,
    push_decimal,
    push_spaces,
    push_str,
    push_padded_decimal,
    string_from_chars,
    concat_all,
    shows_value,
    lemma_shows_in_pieces,
};

/// The bar character of series `k`, cycling through eight patterns.
pub open spec fn bar_char_spec(k: nat) -> char {
    let m = k % 8;
    if m == 0 {
        '█'
    } else if m == 1 {
        '▒'
    } else if m == 2 {
        '░'
    } else if m == 3 {
        '▓'
    } else if m == 4 {
        '▞'
    } else if m == 5 {
        '▚'
    } else if m == 6 {
        '▖'
    } else {
        '▘'
    }
}

/// The bar character of series `k`.
pub fn bar_char(k: usize) -> (c: char)
    ensures
        c == bar_char_spec(k as nat),
{
    match k % 8 {
        0 => '█',
        1 => '▒',
        2 => '░',
        3 => '▓',
        4 => '▞',
        5 => '▚',
        6 => '▖',
        _ => '▘',
    }
}

/// Length of one series' segment of a bar: `count / max_count * bar_width`
/// rounded half away from zero, at least one character for a non-zero count.
pub open spec fn segment_len(count: nat, max_count: nat, bar_width: nat) -> nat {
    if count == 0 {
        0
    } else {
        let q = count * bar_width / max_count;
        let r = count * bar_width % max_count;
        let rounded = if 2 * r >= max_count {
            q + 1
        } else {
            q
        };
        if rounded >= 1 {
            rounded
        } else {
            1
        }
    }
}

/// Computes a segment length; `count <= max_count`.
pub fn segment(count: u64, max_count: u64, bar_width: usize) -> (len: usize)
    requires
        count <= max_count,
        max_count > 0,
    ensures
        len == segment_len(count as nat, max_count as nat, bar_width as nat),
        (len == 0) <==> (count == 0),
{
    proof {
        law_segment_rounds_to_nearest(count as nat, max_count as nat, bar_width as nat);
    }
    if count == 0 {
        return 0;
    }
    proof {
        assert(count as u128 * bar_width as u128 <= 0xffff_ffff_ffff_ffff * 0xffff_ffff_ffff_ffffu128)
            by (nonlinear_arith)
            requires
                count <= 0xffff_ffff_ffff_ffffu64,
                bar_width <= 0xffff_ffff_ffff_ffffu64,
        ;
    }
    let product: u128 = count as u128 * bar_width as u128;
    let q = product / max_count as u128;
    let r = product % max_count as u128;
    proof {
        assert(q <= bar_width) by (nonlinear_arith)
            requires
                q == product / max_count as u128,
                product == count * bar_width,
                count <= max_count,
                max_count > 0,
        ;
        assert(r < max_count) by (nonlinear_arith)
            requires
                r == product % max_count as u128,
                max_count > 0,
        ;
        assert(2 * r >= max_count ==> q < bar_width) by (nonlinear_arith)
            requires
                q == product / max_count as u128,
                r == product % max_count as u128,
                product == count * bar_width,
                count <= max_count,
                max_count > 0,
                r > 0 || 2 * r < max_count,
        ;
    }
    let rounded = if 2 * r >= max_count as u128 {
        q + 1
    } else {
        q
    };
    if rounded >= 1 {
        rounded as usize
    } else {
        1
    }
}

/// Law: the fill characters of the eight series slots are pairwise
/// distinct, so stacked series can be told apart.
pub proof fn law_bar_chars_distinct(j: nat, k: nat)
    requires
        j < k < 8,
    ensures
        bar_char_spec(j) != bar_char_spec(k),
{
}

/// Law: a segment is empty exactly when its count is zero; a non-zero count
/// gets at least one character, and beyond one character the length is the
/// nearest whole number to `count / max_count * bar_width`.
pub proof fn law_segment_rounds_to_nearest(count: nat, max_count: nat, bar_width: nat)
    requires
        0 < max_count,
        count <= max_count,
    ensures
        (segment_len(count, max_count, bar_width) == 0) <==> (count == 0),
        count > 0 ==> segment_len(count, max_count, bar_width) >= 1,
        count > 0 && segment_len(count, max_count, bar_width) > 1 ==> {
            let len = segment_len(count, max_count, bar_width) as int;
            &&& 2 * (len * max_count) <= 2 * (count * bar_width) + max_count
            &&& 2 * (count * bar_width) < 2 * (len * max_count) + max_count
        },
{
    if count > 0 {
        let p = count * bar_width;
        let q = p / max_count;
        let r = p % max_count;
        assert(p == q * max_count + r && 0 <= r < max_count) by (nonlinear_arith)
            requires
                q == p / max_count,
                r == p % max_count,
                max_count > 0,
        ;
        let len = segment_len(count, max_count, bar_width) as int;
        if len > 1 {
            if 2 * r >= max_count {
                assert(len == q + 1);
                assert((q + 1) * max_count == q * max_count + max_count) by (nonlinear_arith);
            } else {
                assert(len == q);
            }
        }
    }
}

/// Whether some series has samples in bucket `i`.
pub open spec fn occupied(counts: Seq<Seq<u64>>, i: int) -> bool {
    exists|s: int| 0 <= s < counts.len() && #[trigger] counts[s][i] > 0
}

/// Indices below `k` of buckets where some series has samples, in order.
pub open spec fn occupied_upto(counts: Seq<Seq<u64>>, k: nat) -> Seq<usize>
    decreases k,
{
    if k == 0 {
        Seq::empty()
    } else {
        let prev = occupied_upto(counts, (k - 1) as nat);
        if occupied(counts, k - 1) {
            prev.push((k - 1) as usize)
        } else {
            prev
        }
    }
}

/// Largest stacked count over the given bucket indices (0 when there are none).
pub open spec fn max_stacked(counts: Seq<Seq<u64>>, indices: Seq<usize>) -> nat
    decreases indices.len(),
{
    if indices.len() == 0 {
        0
    } else {
        let prev = max_stacked(counts, indices.drop_last());
        let here = col_sum(counts, indices.last() as int) as nat;
        if here > prev {
            here
        } else {
            prev
        }
    }
}

/// The stacked bar of bucket `i` over the first `k` series.
pub open spec fn bar_upto(counts: Seq<Seq<u64>>, i: int, max_count: nat, bar_width: nat, k: nat) -> Seq<char>
    decreases k,
{
    if k == 0 {
        Seq::empty()
    } else {
        bar_upto(counts, i, max_count, bar_width, (k - 1) as nat) + repeat_char(
            bar_char_spec((k - 1) as nat),
            segment_len(counts[k - 1][i] as nat, max_count, bar_width),
        )
    }
}

/// The stacked bar of bucket `i`: one segment per series; nothing when `max_count` is 0.
pub open spec fn bar_text(counts: Seq<Seq<u64>>, i: int, max_count: nat, bar_width: nat) -> Seq<char> {
    if max_count == 0 {
        Seq::empty()
    } else {
        bar_upto(counts, i, max_count, bar_width, counts.len())
    }
}

/// A named histogram series within an [`AsciiChart`].
#[derive(Debug, Clone)]
pub struct Series<T> {
    /// Display name used in chart legends and the percentile footer.
    pub(crate) name: String,
    /// The source histogram.
    pub(crate) histogram: Histogram<T>,
}

impl<T> Series<T> {
    /// The series name.
    pub closed spec fn name_spec(self) -> Seq<char> {
        self.name@
    }

    /// The series histogram.
    pub closed spec fn histogram_spec(self) -> Histogram<T> {
        self.histogram
    }

    /// Creates a named series.
    pub fn new(name: String, histogram: Histogram<T>) -> (s: Self)
        ensures
            s.name_spec() == name@,
            s.histogram_spec() == histogram,
    {
        Series { name, histogram }
    }

    /// The series name.
    pub fn name(&self) -> (n: &str)
        ensures
            n@ == self.name_spec(),
    {
        self.name.as_str()
    }

    /// The series histogram.
    pub fn histogram(&self) -> (h: &Histogram<T>)
        ensures
            *h == self.histogram_spec(),
    {
        &self.histogram
    }
}

/// The bucket counts of each histogram.
pub open spec fn all_counts<T>(hists: Seq<Histogram<T>>) -> Seq<Seq<u64>> {
    hists.map_values(|h: Histogram<T>| h.counts())
}

/// Histograms a chart can show together: each well-formed, none with fewer
/// buckets than the first, whose buckets are shown, and every stacked count
/// of those buckets within `u64`.
pub open spec fn chartable<T>(hists: Seq<Histogram<T>>) -> bool {
    hists.len() > 0 ==> {
        &&& forall|s: int|
            0 <= s < hists.len() ==> (#[trigger] hists[s]).wf() && hists[s].num_buckets_spec()
                >= hists[0].num_buckets_spec()
        &&& forall|i: int|
            0 <= i < hists[0].num_buckets_spec() ==> #[trigger] col_sum(all_counts(hists), i)
                <= u64::MAX
    }
}

/// ASCII histogram chart supporting single or stacked multi-series display.
///
/// Two renderings:
/// - **Compact** (`compact()`): minimal output for log files
/// - **Detailed** (`detailed()`): header, rows and a percentile summary
#[derive(Debug, Clone)]
pub struct AsciiChart<T = ()> {
    pub(crate) series: Vec<Series<T>>,
    pub(crate) bar_width: usize,
}

impl<T> AsciiChart<T> {
    /// The series, in the order they were added.
    pub closed spec fn series_spec(self) -> Seq<Series<T>> {
        self.series@
    }

    /// Bucket counts of each series.
    pub closed spec fn series_counts(self) -> Seq<Seq<u64>> {
        self.series@.map_values(|s: Series<T>| s.histogram.counts())
    }

    /// Names of each series.
    pub closed spec fn names(self) -> Seq<Seq<char>> {
        self.series@.map_values(|s: Series<T>| s.name@)
    }

    /// The bit width shared by the series' histograms.
    pub closed spec fn width_spec(self) -> nat {
        self.series@[0].histogram.width_spec()
    }

    /// The maximum bar width in characters.
    pub closed spec fn bar_width_spec(self) -> nat {
        self.bar_width as nat
    }

    /// Every series is a well-formed histogram with at least as many buckets
    /// as the first one, whose buckets the chart shows, and the stacked count
    /// of each of those buckets fits in a `u64`.
    pub closed spec fn wf(self) -> bool {
        self.series@.len() > 0 ==> {
            &&& forall|s: int|
                0 <= s < self.series@.len() ==> {
                    &&& (#[trigger] self.series@[s]).histogram.wf()
                    &&& self.series@[s].histogram.num_buckets_spec() >= bucket_count_of(
                        self.width_spec(),
                    )
                }
            &&& forall|i: int|
                0 <= i < bucket_count_of(self.width_spec()) ==> col_sum(self.series_counts(), i)
                    <= u64::MAX
        }
    }

    /// The series' histograms, in order.
    pub closed spec fn histograms(self) -> Seq<Histogram<T>> {
        self.series@.map_values(|s: Series<T>| s.histogram)
    }

    /// Well-formedness, the counts and the width, in terms of the series'
    /// histograms.
    pub proof fn lemma_wf_iff(self)
        ensures
            self.wf() <==> chartable(self.histograms()),
            self.series_counts() == all_counts(self.histograms()),
            self.histograms().len() == self.series_spec().len(),
            self.histograms().len() > 0 ==> self.width_spec() == self.histograms()[0].width_spec(),
    {
        let hists = self.histograms();
        assert(self.series_counts() =~= all_counts(hists));
        if self.wf() && hists.len() > 0 {
            assert forall|s: int| 0 <= s < hists.len() implies (#[trigger] hists[s]).wf()
                && hists[s].num_buckets_spec() >= hists[0].num_buckets_spec() by {
                assert(hists[s] == self.series@[s].histogram);
            }
        }
        if chartable(hists) && hists.len() > 0 {
            assert forall|s: int| 0 <= s < self.series@.len() implies {
                &&& (#[trigger] self.series@[s]).histogram.wf()
                &&& self.series@[s].histogram.num_buckets_spec() >= bucket_count_of(self.width_spec())
            } by {
                assert(hists[s] == self.series@[s].histogram);
            }
        }
    }

    /// Creates an empty chart with a bar width of 40.
    pub fn new() -> (c: Self)
        ensures
            c.series_spec().len() == 0,
            c.bar_width_spec() == 40,
            c.wf(),
    {
        AsciiChart { series: Vec::new(), bar_width: 40 }
    }

    /// Creates a chart from named histograms.
    pub fn from_series(series: Vec<(String, Histogram<T>)>) -> (c: Self)
        ensures
            c.series_spec().len() == series@.len(),
            forall|k: int|
                0 <= k < series@.len() ==> {
                    &&& (#[trigger] c.series_spec()[k]).name_spec() == series@[k].0@
                    &&& c.series_spec()[k].histogram_spec() == series@[k].1
                },
            c.histograms() == series@.map_values(|p: (String, Histogram<T>)| p.1),
            c.names() == series@.map_values(|p: (String, Histogram<T>)| p.0@),
            c.bar_width_spec() == 40,
            c.wf() == chartable(c.histograms()),
    {
        let mut out: Vec<Series<T>> = Vec::new();
        let mut series = series;
        let ghost given = series@;
        let mut rev: Vec<(String, Histogram<T>)> = Vec::new();
        while series.len() > 0
            invariant
                rev@.len() + series@.len() == given.len(),
                series@ == given.take(series@.len() as int),
                forall|k: int|
                    0 <= k < rev@.len() ==> #[trigger] rev@[k] == given[given.len() - 1 - k],
            decreases series@.len(),
        {
            let item = series.pop().unwrap();
            rev.push(item);
            proof {
                assert(series@ =~= given.take(series@.len() as int));
            }
        }
        while rev.len() > 0
            invariant
                rev@.len() + out@.len() == given.len(),
                forall|k: int|
                    0 <= k < rev@.len() ==> #[trigger] rev@[k] == given[given.len() - 1 - k],
                forall|k: int|
                    0 <= k < out@.len() ==> {
                        &&& (#[trigger] out@[k]).name_spec() == given[k].0@
                        &&& out@[k].histogram_spec() == given[k].1
                    },
            decreases rev@.len(),
        {
            let (name, hist) = rev.pop().unwrap();
            out.push(Series::new(name, hist));
        }
        let c = AsciiChart { series: out, bar_width: 40 };
        proof {
            assert(c.histograms() =~= given.map_values(|p: (String, Histogram<T>)| p.1));
            assert(c.names() =~= given.map_values(|p: (String, Histogram<T>)| p.0@));
            c.lemma_wf_iff();
        }
        c
    }

    /// Adds a histogram as a named series.
    pub fn add(self, name: &str, hist: Histogram<T>) -> (c: Self)
        ensures
            c.series_spec().len() == self.series_spec().len() + 1,
            forall|k: int|
                0 <= k < self.series_spec().len() ==> #[trigger] c.series_spec()[k]
                    == self.series_spec()[k],
            c.series_spec().last().name_spec() == name@,
            c.series_spec().last().histogram_spec() == hist,
            c.histograms() == self.histograms().push(hist),
            c.names() == self.names().push(name@),
            c.bar_width_spec() == self.bar_width_spec(),
            c.wf() == chartable(c.histograms()),
            self.series_spec().len() == 0 && hist.wf() ==> c.wf(),
    {
        let mut chart = self;
        let owned = name.to_string();
        proof {
            vstd::string::to_string_from_display_ensures_for_str(name, owned);
        }
        chart.series.push(Series::new(owned, hist));
        proof {
            assert(chart.histograms() =~= self.histograms().push(hist));
            assert(chart.names() =~= self.names().push(name@));
            chart.lemma_wf_iff();
            self.lemma_wf_iff();
            if self.series_spec().len() == 0 && hist.wf() {
                let hs = chart.histograms();
                assert(hs =~= seq![hist]);
                assert forall|i: int| 0 <= i < hs[0].num_buckets_spec() implies #[trigger] col_sum(
                    all_counts(hs),
                    i,
                ) <= u64::MAX by {
                    reveal_with_fuel(col_sum, 2);
                    assert(all_counts(hs).drop_last().len() == 0);
                }
            }
        }
        chart
    }

    /// Whether the chart is well-formed: its histograms can be shown together.
    pub fn check_wf(&self) -> (ok: bool)
        ensures
            ok == self.wf(),
    {
        let m = self.series.len();
        if m == 0 {
            return true;
        }
        let n = self.series[0].histogram.num_buckets();
        let ghost counts = self.series_counts();
        let mut s: usize = 0;
        while s < m
            invariant
                m == self.series@.len() > 0,
                n == bucket_count_of(self.width_spec()),
                s <= m,
                forall|t: int|
                    0 <= t < s ==> {
                        &&& (#[trigger] self.series@[t]).histogram.wf()
                        &&& self.series@[t].histogram.num_buckets_spec() >= n
                    },
            decreases m - s,
        {
            let h = &self.series[s].histogram;
            if !h.check_wf() || h.num_buckets() < n {
                return false;
            }
            s = s + 1;
        }
        let mut i: usize = 0;
        while i < n
            invariant
                m == self.series@.len() > 0,
                counts == self.series_counts(),
                n == bucket_count_of(self.width_spec()),
                forall|t: int|
                    0 <= t < m ==> {
                        &&& (#[trigger] self.series@[t]).histogram.wf()
                        &&& self.series@[t].histogram.num_buckets_spec() >= n
                    },
                i <= n,
                forall|k: int| 0 <= k < i ==> #[trigger] col_sum(counts, k) <= u64::MAX,
            decreases n - i,
        {
            let mut sum: u64 = 0;
            let mut t: usize = 0;
            proof {
                lemma_col_sum_take_zero(counts, i as int);
            }
            while t < m
                invariant
                    m == self.series@.len() > 0,
                    counts == self.series_counts(),
                    n == bucket_count_of(self.width_spec()),
                    forall|u: int|
                        0 <= u < m ==> {
                            &&& (#[trigger] self.series@[u]).histogram.wf()
                            &&& self.series@[u].histogram.num_buckets_spec() >= n
                        },
                    i < n,
                    t <= m,
                    sum == col_sum(counts.take(t as int), i as int),
                decreases m - t,
            {
                let h = &self.series[t].histogram;
                proof {
                    assert(h.wf());
                    assert(counts[t as int] == h.counts());
                    lemma_col_sum_take_step(counts, t as int, i as int);
                }
                let v = h.bucket(i).count();
                if v > u64::MAX - sum {
                    proof {
                        crate::sums::lemma_col_sum_take_le(counts, t + 1, i as int);
                        assert(col_sum(counts, i as int) > u64::MAX);
                    }
                    return false;
                }
                sum = sum + v;
                t = t + 1;
            }
            proof {
                assert(counts.take(m as int) =~= counts);
            }
            i = i + 1;
        }
        true
    }

    /// The series, in the order they were added.
    pub fn series(&self) -> (s: &[Series<T>])
        ensures
            s@ == self.series_spec(),
    {
        self.series.as_slice()
    }

    /// Sets the maximum bar width in characters (default: 40).
    pub fn bar_width(self, width: usize) -> (c: Self)
        ensures
            c.series_spec() == self.series_spec(),
            c.histograms() == self.histograms(),
            c.names() == self.names(),
            c.wf() == self.wf(),
            c.bar_width_spec() == width,
    {
        let chart = AsciiChart { series: self.series, bar_width: width };
        proof {
            assert(chart.series@ == self.series@);
            assert(chart.series_counts() == self.series_counts());
            assert(chart.wf() == self.wf());
        }
        chart
    }

    /// Bucket indices where at least one series has a count above zero.
    pub fn non_empty_indices(&self) -> (v: Vec<usize>)
        requires
            self.wf(),
        ensures
            self.series_spec().len() == 0 ==> v@.len() == 0,
            self.series_spec().len() > 0 ==> v@ == occupied_upto(
                self.series_counts(),
                bucket_count_of(self.width_spec()),
            ),
    {
        if self.series.len() == 0 {
            return Vec::new();
        }
        let n = self.series[0].histogram.num_buckets();
        let ghost counts = self.series_counts();
        let mut v: Vec<usize> = Vec::new();
        let mut i: usize = 0;
        while i < n
            invariant
                self.wf(),
                self.series@.len() > 0,
                counts == self.series_counts(),
                n == bucket_count_of(self.width_spec()),
                i <= n,
                v@ == occupied_upto(counts, i as nat),
            decreases n - i,
        {
            let m = self.series.len();
            let mut any = false;
            let mut s: usize = 0;
            while s < m
                invariant
                    self.wf(),
                    m == self.series@.len() > 0,
                    counts == self.series_counts(),
                    n == bucket_count_of(self.width_spec()),
                    i < n,
                    s <= m,
                    any == exists|t: int| 0 <= t < s && #[trigger] counts[t][i as int] > 0,
                decreases m - s,
            {
                let h = &self.series[s].histogram;
                proof {
                    assert(h.wf());
                    assert(counts[s as int] == h.counts());
                }
                if h.bucket(i).count() > 0 {
                    any = true;
                }
                s = s + 1;
            }
            if any {
                v.push(i);
            }
            i = i + 1;
        }
        v
    }

    /// Largest stacked count (sum over series) over the given bucket indices.
    pub fn max_stacked_count(&self, indices: &[usize]) -> (m: u64)
        requires
            self.wf(),
            self.series_spec().len() > 0,
            forall|k: int| 0 <= k < indices@.len() ==> #[trigger] indices@[k] < bucket_count_of(self.width_spec()),
        ensures
            m == max_stacked(self.series_counts(), indices@),
    {
        let ghost counts = self.series_counts();
        let mut best: u64 = 0;
        let mut k: usize = 0;
        while k < indices.len()
            invariant
                self.wf(),
                self.series@.len() > 0,
                counts == self.series_counts(),
                k <= indices@.len(),
                forall|j: int| 0 <= j < indices@.len() ==> #[trigger] indices@[j] < bucket_count_of(self.width_spec()),
                best == max_stacked(counts, indices@.take(k as int)),
            decreases indices@.len() - k,
        {
            let here = self.stacked_count(indices[k]);
            proof {
                assert(indices@.take(k + 1).drop_last() =~= indices@.take(k as int));
            }
            if here > best {
                best = here;
            }
            k = k + 1;
        }
        proof {
            assert(indices@.take(indices@.len() as int) =~= indices@);
        }
        best
    }

    /// Sum over series of the count in bucket `i`.
    fn stacked_count(&self, i: usize) -> (c: u64)
        requires
            self.wf(),
            self.series_spec().len() > 0,
            i < bucket_count_of(self.width_spec()),
        ensures
            c == col_sum(self.series_counts(), i as int),
    {
        let ghost counts = self.series_counts();
        let m = self.series.len();
        let mut sum: u64 = 0;
        let mut s: usize = 0;
        proof {
            lemma_col_sum_take_zero(counts, i as int);
        }
        while s < m
            invariant
                self.wf(),
                m == self.series@.len() > 0,
                counts == self.series_counts(),
                i < bucket_count_of(self.width_spec()),
                s <= m,
                sum == col_sum(counts.take(s as int), i as int),
            decreases m - s,
        {
            let h = &self.series[s].histogram;
            proof {
                assert(h.wf());
                assert(counts[s as int] == h.counts());
                lemma_col_sum_take_step(counts, s as int, i as int);
                crate::sums::lemma_col_sum_take_le(counts, s + 1, i as int);
                lemma_col_sum_nonneg(counts.take(s as int), i as int);
            }
            sum = sum + h.bucket(i).count();
            s = s + 1;
        }
        proof {
            assert(counts.take(m as int) =~= counts);
        }
        sum
    }

    /// Appends the stacked bar of bucket `bucket_idx`.
    pub(crate) fn push_bar(&self, out: &mut Vec<char>, bucket_idx: usize, max_count: u64)
        requires
            self.wf(),
            self.series_spec().len() > 0,
            bucket_idx < bucket_count_of(self.width_spec()),
            col_sum(self.series_counts(), bucket_idx as int) <= max_count,
        ensures
            final(out)@ == old(out)@ + bar_text(
                self.series_counts(),
                bucket_idx as int,
                max_count as nat,
                self.bar_width_spec(),
            ),
    {
        if max_count == 0 {
            proof {
                assert(old(out)@ + Seq::<char>::empty() =~= old(out)@);
            }
            return;
        }
        let ghost counts = self.series_counts();
        let m = self.series.len();
        let mut s: usize = 0;
        while s < m
            invariant
                self.wf(),
                m == self.series@.len() > 0,
                counts == self.series_counts(),
                bucket_idx < bucket_count_of(self.width_spec()),
                col_sum(counts, bucket_idx as int) <= max_count,
                max_count > 0,
                s <= m,
                out@ == old(out)@ + bar_upto(
                    counts,
                    bucket_idx as int,
                    max_count as nat,
                    self.bar_width as nat,
                    s as nat,
                ),
            decreases m - s,
        {
            let h = &self.series[s].histogram;
            proof {
                assert(h.wf());
                assert(counts[s as int] == h.counts());
                lemma_col_sum_take_step(counts, s as int, bucket_idx as int);
                crate::sums::lemma_col_sum_take_le(counts, s + 1, bucket_idx as int);
                lemma_col_sum_nonneg(counts.take(s as int), bucket_idx as int);
            }
            let count = h.bucket(bucket_idx).count();
            let len = segment(count, max_count, self.bar_width);
            push_repeat(out, bar_char(s), len);
            s = s + 1;
            proof {
                assert(out@ =~= old(out)@ + bar_upto(
                    counts,
                    bucket_idx as int,
                    max_count as nat,
                    self.bar_width as nat,
                    s as nat,
                ));
            }
        }
    }
}

/// The largest entry (0 for none).
pub open spec fn seq_max(s: Seq<nat>) -> nat
    decreases s.len(),
{
    if s.len() == 0 {
        0
    } else {
        let p = seq_max(s.drop_last());
        if s.last() > p {
            s.last()
        } else {
            p
        }
    }
}

/// Lines joined by newlines.
pub open spec fn join_lines(rows: Seq<Seq<char>>) -> Seq<char>
    decreases rows.len(),
{
    if rows.len() == 0 {
        Seq::empty()
    } else if rows.len() == 1 {
        rows[0]
    } else {
        join_lines(rows.drop_last()) + seq!['\n'] + rows.last()
    }
}

/// Pieces concatenated in order.
pub open spec fn concat(parts: Seq<Seq<char>>) -> Seq<char>
    decreases parts.len(),
{
    if parts.len() == 0 {
        Seq::empty()
    } else {
        concat(parts.drop_last()) + parts.last()
    }
}

/// Width of `[left,right)`.
pub open spec fn range_width(left: nat, right: nat) -> nat {
    decimal(left).len() + decimal(right).len() + 3
}

/// Width of `"[left,right)"` without allocating.
pub fn compact_range_width(left: u64, right: u64) -> (k: usize)
    ensures
        k == range_width(left as nat, right as nat),
{
    1 + digit_count(left) + 1 + digit_count(right) + 1
}

/// `name:count` labels of the first `k` series for bucket `i`, separated by spaces.
pub open spec fn labels_upto(counts: Seq<Seq<u64>>, names: Seq<Seq<char>>, i: int, k: nat) -> Seq<char>
    decreases k,
{
    if k == 0 {
        Seq::empty()
    } else {
        let sep = if k - 1 > 0 {
            seq![' ']
        } else {
            Seq::<char>::empty()
        };
        labels_upto(counts, names, i, (k - 1) as nat) + sep + names[k - 1] + seq![':'] + decimal(
            counts[k - 1][i] as nat,
        )
    }
}

/// What follows the bar in a compact row: the count of a single series, or
/// the labelled counts of every series.
pub open spec fn compact_tail(counts: Seq<Seq<u64>>, names: Seq<Seq<char>>, i: int) -> Seq<char> {
    if counts.len() == 1 {
        seq![' '] + decimal(counts[0][i] as nat)
    } else {
        seq![' ', ' '] + labels_upto(counts, names, i, counts.len())
    }
}

/// One compact row: the right-aligned range, the bar and the counts.
pub open spec fn compact_row(
    counts: Seq<Seq<u64>>,
    names: Seq<Seq<char>>,
    w: nat,
    bar_width: nat,
    max_count: nat,
    rw: nat,
    i: int,
) -> Seq<char> {
    let l = bucket_left(w, i as nat);
    let r = bucket_right(w, i as nat);
    spaces(vstd::math::clip(rw - range_width(l, r))) + seq!['['] + decimal(l) + seq![','] + decimal(r)
        + seq![')', ' ', ' '] + bar_text(counts, i, max_count, bar_width) + compact_tail(counts, names, i)
}

/// The compact rendering: one row per occupied bucket, joined by newlines;
/// empty when no series has samples.
pub open spec fn compact_text(counts: Seq<Seq<u64>>, names: Seq<Seq<char>>, w: nat, bar_width: nat) -> Seq<char> {
    let indices = occupied_upto(counts, bucket_count_of(w));
    if counts.len() == 0 || indices.len() == 0 {
        Seq::empty()
    } else {
        let max_count = max_stacked(counts, indices);
        let rw = seq_max(
            indices.map_values(|i: usize| range_width(bucket_left(w, i as nat), bucket_right(w, i as nat))),
        );
        join_lines(indices.map_values(|i: usize| compact_row(counts, names, w, bar_width, max_count, rw, i as int)))
    }
}

/// Occupied indices are bucket indices.
pub proof fn lemma_occupied_upto_bounded(counts: Seq<Seq<u64>>, k: nat)
    ensures
        forall|j: int| 0 <= j < occupied_upto(counts, k).len() ==> #[trigger] occupied_upto(counts, k)[j] < k,
        occupied_upto(counts, k).len() <= k,
    decreases k,
{
    if k > 0 {
        lemma_occupied_upto_bounded(counts, (k - 1) as nat);
    }
}

/// Every listed bucket's stacked count is at most the maximum.
pub proof fn lemma_max_stacked_bounds(counts: Seq<Seq<u64>>, indices: Seq<usize>, j: int)
    requires
        0 <= j < indices.len(),
    ensures
        col_sum(counts, indices[j] as int) <= max_stacked(counts, indices),
    decreases indices.len(),
{
    crate::sums::lemma_col_sum_nonneg(counts, indices[j] as int);
    if j < indices.len() - 1 {
        lemma_max_stacked_bounds(counts, indices.drop_last(), j);
    }
}

/// Compact display of an ASCII chart, suitable for log files.
pub struct CompactDisplay<'a, T> {
    chart: &'a AsciiChart<T>,
}

impl<'a, T> CompactDisplay<'a, T> {
    /// The chart being displayed.
    pub closed spec fn chart_spec(self) -> &'a AsciiChart<T> {
        self.chart
    }

    /// Renders one row per bucket where some series has samples:
    /// the right-aligned `[left,right)`, the stacked bar, and the count (or
    /// `name:count` for every series of a stacked chart).
    pub fn to_string(&self) -> (s: String)
        requires
            self.chart_spec().wf(),
        ensures
            s@ == compact_text(
                self.chart_spec().series_counts(),
                self.chart_spec().names(),
                self.chart_spec().width_spec(),
                self.chart_spec().bar_width_spec(),
            ),
    {
        let chart = self.chart;
        let ghost counts = chart.series_counts();
        let ghost names = chart.names();
        let indices = chart.non_empty_indices();
        if chart.series.len() == 0 || indices.len() == 0 {
            return string_from_chars(Vec::new());
        }
        let ghost w = chart.width_spec();
        let ghost n = bucket_count_of(w);
        proof {
            lemma_occupied_upto_bounded(counts, n);
        }
        let max_count = chart.max_stacked_count(indices.as_slice());
        let h0 = &chart.series[0].histogram;
        proof {
            assert(h0.wf());
        }
        let ghost widths = indices@.map_values(
            |i: usize| range_width(bucket_left(w, i as nat), bucket_right(w, i as nat)),
        );
        let mut rw: usize = 0;
        let mut k: usize = 0;
        while k < indices.len()
            invariant
                chart.wf(),
                h0.wf(),
                h0.width_spec() == w,
                n == bucket_count_of(w),
                forall|j: int| 0 <= j < indices@.len() ==> #[trigger] indices@[j] < n,
                widths == indices@.map_values(
                    |i: usize| range_width(bucket_left(w, i as nat), bucket_right(w, i as nat)),
                ),
                k <= indices@.len(),
                rw == seq_max(widths.take(k as int)),
            decreases indices@.len() - k,
        {
            let b = h0.bucket(indices[k]);
            let x = compact_range_width(b.left(), b.right());
            proof {
                assert(widths.take(k + 1).drop_last() =~= widths.take(k as int));
            }
            if x > rw {
                rw = x;
            }
            k = k + 1;
        }
        proof {
            assert(widths.take(indices@.len() as int) =~= widths);
        }
        let ghost rows = indices@.map_values(
            |i: usize| compact_row(counts, names, w, chart.bar_width_spec(), max_count as nat, rw as nat, i as int),
        );
        let mut out: Vec<char> = Vec::new();
        let mut k: usize = 0;
        while k < indices.len()
            invariant
                chart.wf(),
                chart.series@.len() > 0,
                counts == chart.series_counts(),
                names == chart.names(),
                w == chart.width_spec(),
                h0.wf(),
                h0 == chart.series@[0].histogram,
                n == bucket_count_of(w),
                forall|j: int| 0 <= j < indices@.len() ==> #[trigger] indices@[j] < n,
                max_count == max_stacked(counts, indices@),
                rows == indices@.map_values(
                    |i: usize| compact_row(counts, names, w, chart.bar_width_spec(), max_count as nat, rw as nat, i as int),
                ),
                k <= indices@.len(),
                out@ == join_lines(rows.take(k as int)),
                self.chart_spec() == chart,
            decreases indices@.len() - k,
        {
            proof {
                assert(rows.take(k + 1).drop_last() =~= rows.take(k as int));
                lemma_max_stacked_bounds(counts, indices@, k as int);
                if k == 0 {
                    assert(rows.take(0) =~= Seq::<Seq<char>>::empty());
                }
            }
            let ghost before = out@;
            if k > 0 {
                out.push('\n');
            }
            self.push_row(&mut out, indices[k], max_count, rw);
            proof {
                if k == 0 {
                    assert(out@ =~= rows.take(1)[0]);
                } else {
                    assert(out@ =~= join_lines(rows.take(k as int)) + seq!['\n'] + rows[k as int]);
                }
            }
            k = k + 1;
        }
        proof {
            assert(rows.take(indices@.len() as int) =~= rows);
        }
        string_from_chars(out)
    }

    /// Appends one compact row.
    fn push_row(&self, out: &mut Vec<char>, i: usize, max_count: u64, rw: usize)
        requires
            self.chart_spec().wf(),
            self.chart_spec().series_spec().len() > 0,
            i < bucket_count_of(self.chart_spec().width_spec()),
            col_sum(self.chart_spec().series_counts(), i as int) <= max_count,
        ensures
            final(out)@ == old(out)@ + compact_row(
                self.chart_spec().series_counts(),
                self.chart_spec().names(),
                self.chart_spec().width_spec(),
                self.chart_spec().bar_width_spec(),
                max_count as nat,
                rw as nat,
                i as int,
            ),
    {
        let chart = self.chart;
        let ghost counts = chart.series_counts();
        let ghost names = chart.names();
        let h0 = &chart.series[0].histogram;
        proof {
            assert(h0.wf());
        }
        let b = h0.bucket(i);
        let left = b.left();
        let right = b.right();
        let this_width = compact_range_width(left, right);
        if this_width < rw {
            push_spaces(out, rw - this_width);
        }
        let ghost after_pad = out@;
        out.push('[');
        push_decimal(out, left);
        out.push(',');
        push_decimal(out, right);
        out.push(')');
        out.push(' ');
        out.push(' ');
        let ghost after_range = out@;
        chart.push_bar(out, i, max_count);
        let ghost after_bar = out@;
        self.push_tail(out, i);
        proof {
            assert(after_pad =~= old(out)@ + spaces(vstd::math::clip(rw - range_width(left as nat, right as nat))));
            assert(final(out)@ =~= old(out)@ + compact_row(
                counts,
                names,
                chart.width_spec(),
                chart.bar_width_spec(),
                max_count as nat,
                rw as nat,
                i as int,
            ));
        }
    }

    /// Appends what follows the bar in a compact row.
    fn push_tail(&self, out: &mut Vec<char>, i: usize)
        requires
            self.chart_spec().wf(),
            self.chart_spec().series_spec().len() > 0,
            i < bucket_count_of(self.chart_spec().width_spec()),
        ensures
            final(out)@ == old(out)@ + compact_tail(
                self.chart_spec().series_counts(),
                self.chart_spec().names(),
                i as int,
            ),
    {
        let chart = self.chart;
        let ghost counts = chart.series_counts();
        let ghost names = chart.names();
        let m = chart.series.len();
        if m == 1 {
            let h0 = &chart.series[0].histogram;
            proof {
                assert(h0.wf());
            }
            out.push(' ');
            push_decimal(out, h0.bucket(i).count());
            proof {
                assert(final(out)@ =~= old(out)@ + compact_tail(counts, names, i as int));
            }
            return;
        }
        out.push(' ');
        out.push(' ');
        let ghost start = out@;
        let mut s: usize = 0;
        while s < m
            invariant
                chart.wf(),
                m == chart.series@.len() > 1,
                counts == chart.series_counts(),
                names == chart.names(),
                i < bucket_count_of(chart.width_spec()),
                s <= m,
                out@ == start + labels_upto(counts, names, i as int, s as nat),
            decreases m - s,
        {
            let series = &chart.series[s];
            proof {
                assert(series.histogram.wf());
                assert(counts[s as int] == series.histogram.counts());
                assert(names[s as int] == series.name@);
            }
            if s > 0 {
                out.push(' ');
            }
            push_str(out, series.name.as_str());
            out.push(':');
            push_decimal(out, series.histogram.bucket(i).count());
            s = s + 1;
            proof {
                assert(out@ =~= start + labels_upto(counts, names, i as int, s as nat));
            }
        }
        proof {
            assert(final(out)@ =~= old(out)@ + compact_tail(counts, names, i as int));
        }
    }
}

impl<T> AsciiChart<T> {
    /// Returns the compact rendering of the chart.
    pub fn compact(&self) -> (d: CompactDisplay<'_, T>)
        ensures
            d.chart_spec() == self,
    {
        CompactDisplay { chart: self }
    }
}

/// Legend entries ` {char} {name}` of the first `k` series.
pub open spec fn legend_upto(names: Seq<Seq<char>>, k: nat) -> Seq<char>
    decreases k,
{
    if k == 0 {
        Seq::empty()
    } else {
        legend_upto(names, (k - 1) as nat) + seq![' ', bar_char_spec((k - 1) as nat), ' '] + names[k
            - 1]
    }
}

/// The header line of the detailed rendering.
pub open spec fn detailed_header(counts: Seq<Seq<u64>>, names: Seq<Seq<char>>, rcw: nat) -> Seq<char> {
    if counts.len() == 1 {
        pad_left("range"@, rcw) + " | count"@ + seq!['\n']
    } else {
        pad_left("range"@, rcw) + " |"@ + legend_upto(names, names.len()) + seq!['\n']
    }
}

/// Counts of the first `k` series for bucket `i`, separated by ` + `.
pub open spec fn sums_upto(counts: Seq<Seq<u64>>, i: int, k: nat) -> Seq<char>
    decreases k,
{
    if k == 0 {
        Seq::empty()
    } else {
        let sep = if k - 1 > 0 {
            " + "@
        } else {
            Seq::<char>::empty()
        };
        sums_upto(counts, i, (k - 1) as nat) + sep + decimal(counts[k - 1][i] as nat)
    }
}

/// What follows the bar in a detailed row.
pub open spec fn detailed_tail(counts: Seq<Seq<u64>>, i: int) -> Seq<char> {
    if counts.len() == 1 {
        seq![' '] + decimal(counts[0][i] as nat)
    } else {
        seq![' ', ' '] + sums_upto(counts, i, counts.len())
    }
}

/// One detailed row: `[left, right) | bar counts`, aligned, with a newline.
pub open spec fn detailed_row(
    counts: Seq<Seq<u64>>,
    w: nat,
    bar_width: nat,
    max_count: nat,
    maxl: nat,
    maxr: nat,
    i: int,
) -> Seq<char> {
    let l = bucket_left(w, i as nat);
    let r = bucket_right(w, i as nat);
    seq!['['] + pad_left(decimal(l), maxl) + seq![',', ' '] + pad_left(decimal(r), maxr) + ") | "@
        + bar_text(counts, i, max_count, bar_width) + detailed_tail(counts, i) + seq!['\n']
}

/// `total: … P50: … P90: … P99: …`.
pub open spec fn stats_line(s: PercentileStats) -> Seq<char> {
    "total: "@ + decimal(s.samples as nat) + "  P50: "@ + decimal(s.p50 as nat) + "  P90: "@
        + decimal(s.p90 as nat) + "  P99: "@ + decimal(s.p99 as nat)
}

/// Byte length of each name, as `str::len` reports it.
pub open spec fn name_bytes(names: Seq<Seq<char>>) -> Seq<nat> {
    names.map_values(|n: Seq<char>| (vstd::utf8::encode_utf8(n).len() as usize) as nat)
}

/// One footer line per series of a stacked chart.
pub open spec fn footer_line(names: Seq<Seq<char>>, stats: Seq<PercentileStats>, s: int) -> Seq<char> {
    seq![bar_char_spec(s as nat), ' '] + pad_left(names[s], seq_max(name_bytes(names))) + seq![' ', ' ']
        + stats_line(stats[s])
}

/// The percentile footer of the detailed rendering.
pub open spec fn detailed_footer(
    counts: Seq<Seq<u64>>,
    names: Seq<Seq<char>>,
    stats: Seq<PercentileStats>,
) -> Seq<char> {
    if counts.len() == 1 {
        stats_line(stats[0])
    } else {
        join_lines(Seq::new(names.len(), |s: int| footer_line(names, stats, s)))
    }
}

/// The detailed rendering: a header, one row per occupied bucket, and the
/// percentile footer built from `stats` (one entry per series); empty when no
/// series has samples.
pub open spec fn detailed_text(
    counts: Seq<Seq<u64>>,
    names: Seq<Seq<char>>,
    w: nat,
    bar_width: nat,
    stats: Seq<PercentileStats>,
) -> Seq<char> {
    let indices = occupied_upto(counts, bucket_count_of(w));
    if counts.len() == 0 || indices.len() == 0 {
        Seq::empty()
    } else {
        let max_count = max_stacked(counts, indices);
        let maxl = seq_max(indices.map_values(|i: usize| decimal(bucket_left(w, i as nat)).len()));
        let maxr = seq_max(indices.map_values(|i: usize| decimal(bucket_right(w, i as nat)).len()));
        detailed_header(counts, names, maxl + maxr + 4) + concat(
            indices.map_values(|i: usize| detailed_row(counts, w, bar_width, max_count, maxl, maxr, i as int)),
        ) + detailed_footer(counts, names, stats)
    }
}

/// Detailed display of an ASCII chart, with header and percentile summary.
pub struct DetailedDisplay<'a, T> {
    chart: &'a AsciiChart<T>,
}

impl<'a, T> DetailedDisplay<'a, T> {
    /// The chart being displayed.
    pub closed spec fn chart_spec(self) -> &'a AsciiChart<T> {
        self.chart
    }

    /// Renders the chart given the percentile statistics of each series, in
    /// series order.
    pub fn render(&self, stats: &[PercentileStats]) -> (s: String)
        requires
            self.chart_spec().wf(),
            stats@.len() == self.chart_spec().series_spec().len(),
        ensures
            s@ == detailed_text(
                self.chart_spec().series_counts(),
                self.chart_spec().names(),
                self.chart_spec().width_spec(),
                self.chart_spec().bar_width_spec(),
                stats@,
            ),
    {
        let chart = self.chart;
        let ghost counts = chart.series_counts();
        let ghost names = chart.names();
        let indices = chart.non_empty_indices();
        if chart.series.len() == 0 || indices.len() == 0 {
            return string_from_chars(Vec::new());
        }
        let ghost w = chart.width_spec();
        let ghost n = bucket_count_of(w);
        proof {
            lemma_occupied_upto_bounded(counts, n);
        }
        let max_count = chart.max_stacked_count(indices.as_slice());
        let h0 = &chart.series[0].histogram;
        proof {
            assert(h0.wf());
        }
        let ghost lefts = indices@.map_values(|i: usize| decimal(bucket_left(w, i as nat)).len());
        let ghost rights = indices@.map_values(|i: usize| decimal(bucket_right(w, i as nat)).len());
        let mut maxl: usize = 0;
        let mut maxr: usize = 0;
        let mut k: usize = 0;
        while k < indices.len()
            invariant
                chart.wf(),
                h0.wf(),
                h0.width_spec() == w,
                n == bucket_count_of(w),
                forall|j: int| 0 <= j < indices@.len() ==> #[trigger] indices@[j] < n,
                lefts == indices@.map_values(|i: usize| decimal(bucket_left(w, i as nat)).len()),
                rights == indices@.map_values(|i: usize| decimal(bucket_right(w, i as nat)).len()),
                k <= indices@.len(),
                maxl == seq_max(lefts.take(k as int)),
                maxr == seq_max(rights.take(k as int)),
                maxl <= 20,
                maxr <= 20,
            decreases indices@.len() - k,
        {
            let b = h0.bucket(indices[k]);
            let dl = digit_count(b.left());
            let dr = digit_count(b.right());
            proof {
                assert(lefts.take(k + 1).drop_last() =~= lefts.take(k as int));
                assert(rights.take(k + 1).drop_last() =~= rights.take(k as int));
            }
            if dl > maxl {
                maxl = dl;
            }
            if dr > maxr {
                maxr = dr;
            }
            k = k + 1;
        }
        proof {
            assert(lefts.take(indices@.len() as int) =~= lefts);
            assert(rights.take(indices@.len() as int) =~= rights);
        }
        let mut out: Vec<char> = Vec::new();
        self.push_header(&mut out, maxl + maxr + 4);
        let ghost after_header = out@;
        let ghost rows = indices@.map_values(
            |i: usize| detailed_row(counts, w, chart.bar_width_spec(), max_count as nat, maxl as nat, maxr as nat, i as int),
        );
        let mut k: usize = 0;
        while k < indices.len()
            invariant
                chart.wf(),
                chart.series@.len() > 0,
                self.chart_spec() == chart,
                counts == chart.series_counts(),
                w == chart.width_spec(),
                n == bucket_count_of(w),
                forall|j: int| 0 <= j < indices@.len() ==> #[trigger] indices@[j] < n,
                max_count == max_stacked(counts, indices@),
                rows == indices@.map_values(
                    |i: usize| detailed_row(counts, w, chart.bar_width_spec(), max_count as nat, maxl as nat, maxr as nat, i as int),
                ),
                k <= indices@.len(),
                out@ == after_header + concat(rows.take(k as int)),
            decreases indices@.len() - k,
        {
            proof {
                assert(rows.take(k + 1).drop_last() =~= rows.take(k as int));
                lemma_max_stacked_bounds(counts, indices@, k as int);
            }
            self.push_row(&mut out, indices[k], max_count, maxl, maxr);
            k = k + 1;
            proof {
                assert(out@ =~= after_header + concat(rows.take(k as int)));
            }
        }
        proof {
            assert(rows.take(indices@.len() as int) =~= rows);
        }
        let ghost after_rows = out@;
        self.push_footer(&mut out, stats);
        proof {
            assert(out@ =~= detailed_text(counts, names, w, chart.bar_width_spec(), stats@));
        }
        string_from_chars(out)
    }

    /// Appends the header line.
    fn push_header(&self, out: &mut Vec<char>, rcw: usize)
        requires
            self.chart_spec().wf(),
            self.chart_spec().series_spec().len() > 0,
        ensures
            final(out)@ == old(out)@ + detailed_header(
                self.chart_spec().series_counts(),
                self.chart_spec().names(),
                rcw as nat,
            ),
    {
        let chart = self.chart;
        let ghost counts = chart.series_counts();
        let ghost names = chart.names();
        crate::text::push_padded_str(out, "range", rcw);
        let m = chart.series.len();
        if m == 1 {
            push_str(out, " | count");
            out.push('\n');
            proof {
                assert(final(out)@ =~= old(out)@ + detailed_header(counts, names, rcw as nat));
            }
            return;
        }
        push_str(out, " |");
        let ghost start = out@;
        let mut s: usize = 0;
        while s < m
            invariant
                m == chart.series@.len() > 1,
                names == chart.names(),
                s <= m,
                out@ == start + legend_upto(names, s as nat),
            decreases m - s,
        {
            let series = &chart.series[s];
            proof {
                assert(names[s as int] == series.name@);
            }
            out.push(' ');
            out.push(bar_char(s));
            out.push(' ');
            push_str(out, series.name.as_str());
            s = s + 1;
            proof {
                assert(out@ =~= start + legend_upto(names, s as nat));
            }
        }
        out.push('\n');
        proof {
            assert(final(out)@ =~= old(out)@ + detailed_header(counts, names, rcw as nat));
        }
    }

    /// Appends one detailed row.
    fn push_row(&self, out: &mut Vec<char>, i: usize, max_count: u64, maxl: usize, maxr: usize)
        requires
            self.chart_spec().wf(),
            self.chart_spec().series_spec().len() > 0,
            i < bucket_count_of(self.chart_spec().width_spec()),
            col_sum(self.chart_spec().series_counts(), i as int) <= max_count,
        ensures
            final(out)@ == old(out)@ + detailed_row(
                self.chart_spec().series_counts(),
                self.chart_spec().width_spec(),
                self.chart_spec().bar_width_spec(),
                max_count as nat,
                maxl as nat,
                maxr as nat,
                i as int,
            ),
    {
        let chart = self.chart;
        let ghost counts = chart.series_counts();
        let h0 = &chart.series[0].histogram;
        proof {
            assert(h0.wf());
        }
        let b = h0.bucket(i);
        out.push('[');
        push_padded_decimal(out, b.left(), maxl);
        out.push(',');
        out.push(' ');
        push_padded_decimal(out, b.right(), maxr);
        push_str(out, ") | ");
        chart.push_bar(out, i, max_count);
        let m = chart.series.len();
        if m == 1 {
            out.push(' ');
            push_decimal(out, b.count());
        } else {
            out.push(' ');
            out.push(' ');
            let ghost start = out@;
            let mut s: usize = 0;
            while s < m
                invariant
                    chart.wf(),
                    m == chart.series@.len() > 1,
                    counts == chart.series_counts(),
                    i < bucket_count_of(chart.width_spec()),
                    s <= m,
                    out@ == start + sums_upto(counts, i as int, s as nat),
                decreases m - s,
            {
                let h = &chart.series[s].histogram;
                proof {
                    assert(h.wf());
                    assert(counts[s as int] == h.counts());
                }
                if s > 0 {
                    push_str(out, " + ");
                }
                push_decimal(out, h.bucket(i).count());
                s = s + 1;
                proof {
                    assert(out@ =~= start + sums_upto(counts, i as int, s as nat));
                }
            }
        }
        out.push('\n');
        proof {
            assert(final(out)@ =~= old(out)@ + detailed_row(
                counts,
                chart.width_spec(),
                chart.bar_width_spec(),
                max_count as nat,
                maxl as nat,
                maxr as nat,
                i as int,
            ));
        }
    }

    /// Appends the percentile footer.
    fn push_footer(&self, out: &mut Vec<char>, stats: &[PercentileStats])
        requires
            self.chart_spec().wf(),
            self.chart_spec().series_spec().len() > 0,
            stats@.len() == self.chart_spec().series_spec().len(),
        ensures
            final(out)@ == old(out)@ + detailed_footer(
                self.chart_spec().series_counts(),
                self.chart_spec().names(),
                stats@,
            ),
    {
        let chart = self.chart;
        let ghost counts = chart.series_counts();
        let ghost names = chart.names();
        let m = chart.series.len();
        if m == 1 {
            push_stats_line(out, &stats[0]);
            return;
        }
        let ghost bytes = name_bytes(names);
        let mut name_width: usize = 0;
        let mut s: usize = 0;
        while s < m
            invariant
                m == chart.series@.len() > 1,
                names == chart.names(),
                bytes == name_bytes(names),
                s <= m,
                name_width == seq_max(bytes.take(s as int)),
            decreases m - s,
        {
            let name = chart.series[s].name.as_str();
            proof {
                assert(names[s as int] == name@);
                assert(bytes.take(s + 1).drop_last() =~= bytes.take(s as int));
            }
            let len = name.len();
            proof {
                assert(name.spec_bytes() == vstd::utf8::encode_utf8(name@));
                assert(len == bytes[s as int]);
            }
            if len > name_width {
                name_width = len;
            }
            s = s + 1;
        }
        proof {
            assert(bytes.take(m as int) =~= bytes);
        }
        let ghost lines = Seq::new(names.len(), |t: int| footer_line(names, stats@, t));
        let ghost start = out@;
        let mut s: usize = 0;
        while s < m
            invariant
                m == chart.series@.len() > 1,
                names == chart.names(),
                names.len() == m,
                stats@.len() == m,
                name_width == seq_max(name_bytes(names)),
                lines == Seq::new(names.len(), |t: int| footer_line(names, stats@, t)),
                s <= m,
                out@ == start + join_lines(lines.take(s as int)),
            decreases m - s,
        {
            let series = &chart.series[s];
            proof {
                assert(names[s as int] == series.name@);
                assert(lines.take(s + 1).drop_last() =~= lines.take(s as int));
                if s == 0 {
                    assert(lines.take(0) =~= Seq::<Seq<char>>::empty());
                }
            }
            let ghost before = out@;
            if s > 0 {
                out.push('\n');
            }
            out.push(bar_char(s));
            out.push(' ');
            crate::text::push_padded_str(out, series.name.as_str(), name_width);
            out.push(' ');
            out.push(' ');
            push_stats_line(out, &stats[s]);
            proof {
                if s == 0 {
                    assert(out@ =~= start + lines.take(1)[0]);
                } else {
                    assert(out@ =~= start + (join_lines(lines.take(s as int)) + seq!['\n'] + lines[s as int]));
                }
            }
            s = s + 1;
            proof {
                assert(out@ =~= start + join_lines(lines.take(s as int)));
            }
        }
        proof {
            assert(lines.take(m as int) =~= lines);
        }
    }
}

/// Appends `total: … P50: … P90: … P99: …`.
fn push_stats_line(out: &mut Vec<char>, s: &PercentileStats)
    ensures
        final(out)@ == old(out)@ + stats_line(*s),
{
    push_str(out, "total: ");
    push_decimal(out, s.samples);
    push_str(out, "  P50: ");
    push_decimal(out, s.p50);
    push_str(out, "  P90: ");
    push_decimal(out, s.p90);
    push_str(out, "  P99: ");
    push_decimal(out, s.p99);
    proof {
        assert(final(out)@ =~= old(out)@ + stats_line(*s));
    }
}

impl<T> AsciiChart<T> {
    /// Returns the detailed rendering of the chart.
    pub fn detailed(&self) -> (d: DetailedDisplay<'_, T>)
        ensures
            d.chart_spec() == self,
    {
        DetailedDisplay { chart: self }
    }

    /// The chart's default rendering, which is the detailed one, given the
    /// percentile statistics of each series in series order.
    pub fn render(&self, stats: &[PercentileStats]) -> (s: String)
        requires
            self.wf(),
            stats@.len() == self.series_spec().len(),
        ensures
            s@ == detailed_text(
                self.series_counts(),
                self.names(),
                self.width_spec(),
                self.bar_width_spec(),
                stats@,
            ),
    {
        self.detailed().render(stats)
    }
}

impl<T> Default for AsciiChart<T> {
    /// An empty chart with a bar width of 40.
    fn default() -> (c: Self)
        ensures
            c.series_spec().len() == 0,
            c.bar_width_spec() == 40,
            c.wf(),
    {
        Self::new()
    }
}


/// The statistics line as its four labelled values.
proof fn lemma_stats_line_pieces(s: PercentileStats) -> (pieces: Seq<Seq<char>>)
    ensures
        pieces.len() == 8,
        stats_line(s) == concat_all(pieces),
        pieces[0] == "total: "@,
        pieces[1] == decimal(s.samples as nat),
        pieces[2] == "  P50: "@,
        pieces[3] == decimal(s.p50 as nat),
        pieces[4] == "  P90: "@,
        pieces[5] == decimal(s.p90 as nat),
        pieces[6] == "  P99: "@,
        pieces[7] == decimal(s.p99 as nat),
{
    let pieces = seq![
        "total: "@, decimal(s.samples as nat), "  P50: "@, decimal(s.p50 as nat), "  P90: "@,
        decimal(s.p90 as nat), "  P99: "@, decimal(s.p99 as nat)
    ];
    reveal_with_fuel(concat_all, 9);
    pieces
}

/// Law: each label of a statistics line is followed by the decimal value of
/// the field it names: the sample count, then the P50, P90 and P99 values.
pub proof fn law_stats_line_labels(s: PercentileStats)
    ensures
        shows_value(stats_line(s), "total: "@, s.samples as nat),
        shows_value(stats_line(s), "  P50: "@, s.p50 as nat),
        shows_value(stats_line(s), "  P90: "@, s.p90 as nat),
        shows_value(stats_line(s), "  P99: "@, s.p99 as nat),
{
    let p = lemma_stats_line_pieces(s);
    reveal_strlit("  P50: ");
    reveal_strlit("  P90: ");
    reveal_strlit("  P99: ");
    lemma_shows_in_pieces(p, 0, s.samples as nat);
    lemma_shows_in_pieces(p, 2, s.p50 as nat);
    lemma_shows_in_pieces(p, 4, s.p90 as nat);
    lemma_shows_in_pieces(p, 6, s.p99 as nat);
}

/// Line `s` of lines joined by newlines: what comes before it is empty or
/// ends a line, and what comes after it is empty or starts a new line.
pub proof fn lemma_join_lines_split(rows: Seq<Seq<char>>, s: int) -> (r: (Seq<char>, Seq<char>))
    requires
        0 <= s < rows.len(),
    ensures
        join_lines(rows) == r.0 + rows[s] + r.1,
        s == 0 ==> r.0.len() == 0,
        s > 0 ==> r.0.len() > 0 && r.0.last() == '\n',
        r.1.len() == 0 || r.1[0] == '\n',
    decreases rows.len(),
{
    let n = rows.len() as int;
    if s == n - 1 {
        let pre = if n == 1 {
            Seq::<char>::empty()
        } else {
            join_lines(rows.drop_last()) + seq!['\n']
        };
        assert(join_lines(rows) =~= pre + rows[s] + Seq::<char>::empty());
        (pre, Seq::<char>::empty())
    } else {
        let (pre, post) = lemma_join_lines_split(rows.drop_last(), s);
        let post2 = post + seq!['\n'] + rows.last();
        assert(join_lines(rows) =~= pre + rows[s] + post2);
        (pre, post2)
    }
}

/// Law: the percentile footer of a single-series chart is the statistics
/// line of that series; in a stacked chart every series `s` has a line of
/// its own, starting with its fill character and ending with the statistics
/// line of `stats[s]`.
pub proof fn law_footer_lines(counts: Seq<Seq<u64>>, names: Seq<Seq<char>>, stats: Seq<PercentileStats>, s: int)
    -> (r: (Seq<char>, Seq<char>, Seq<char>))
    requires
        counts.len() >= 1,
        names.len() == counts.len() == stats.len(),
        0 <= s < names.len(),
    ensures
        counts.len() == 1 ==> detailed_footer(counts, names, stats) == stats_line(stats[0]),
        counts.len() >= 2 ==> {
            &&& detailed_footer(counts, names, stats) == r.0 + r.1 + r.2
            &&& r.0.len() == 0 || r.0.last() == '\n'
            &&& r.2.len() == 0 || r.2[0] == '\n'
            &&& r.1.len() > 0 && r.1[0] == bar_char_spec(s as nat)
            &&& r.1.len() >= stats_line(stats[s]).len()
            &&& r.1.subrange(r.1.len() - stats_line(stats[s]).len(), r.1.len() as int)
                == stats_line(stats[s])
        },
{
    if counts.len() >= 2 {
        let lines = Seq::new(names.len(), |t: int| footer_line(names, stats, t));
        let (pre, post) = lemma_join_lines_split(lines, s);
        let line = lines[s];
        let sl = stats_line(stats[s]);
        let head = seq![bar_char_spec(s as nat), ' '] + pad_left(names[s], seq_max(name_bytes(names)))
            + seq![' ', ' '];
        assert(line =~= head + sl);
        assert(line.subrange(line.len() - sl.len(), line.len() as int) =~= sl);
        (pre, line, post)
    } else {
        (Seq::empty(), Seq::empty(), Seq::empty())
    }
}


/// Law: a detailed rendering with some occupied bucket ends with the
/// percentile footer.
pub proof fn law_detailed_text_ends_with_footer(
    counts: Seq<Seq<u64>>,
    names: Seq<Seq<char>>,
    w: nat,
    bar_width: nat,
    stats: Seq<PercentileStats>,
)
    requires
        counts.len() > 0,
        occupied_upto(counts, bucket_count_of(w)).len() > 0,
    ensures
        ({
            let text = detailed_text(counts, names, w, bar_width, stats);
            let footer = detailed_footer(counts, names, stats);
            &&& text.len() >= footer.len()
            &&& text.subrange(text.len() - footer.len(), text.len() as int) == footer
        }),
{
    let text = detailed_text(counts, names, w, bar_width, stats);
    let footer = detailed_footer(counts, names, stats);
    let head = text.subrange(0, text.len() - footer.len());
    assert(text =~= head + footer);
    assert(text.subrange(text.len() - footer.len(), text.len() as int) =~= footer);
}

} // verus!
