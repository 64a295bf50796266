//! Text renderings of buckets, of a histogram's non-empty buckets, and of
//! percentile statistics.
use vstd::prelude::*;

verus! {

use crate::geometry::{bucket_left, bucket_right};
use crate::bucket::BucketRef;
use crate::histogram::Histogram;
use crate::text::{
    decimal,
    hex,
    push_decimal,
    push_hex,
    push_str,
    string_from_chars,
    shows_value,
    concat_all,
    lemma_shows_in_pieces,
    all_digits_below,
    numeral_value,
    law_hex_reads_back,
    law_decimal_reads_back,
};

/// `b{index}[{left},{right})={count}`.
pub open spec fn bucket_text(index: nat, left: nat, right: nat, count: nat) -> Seq<char> {
    seq!['b'] + decimal(index) + seq!['['] + decimal(left) + seq![','] + decimal(right) + seq![
        ')',
        '=',
    ] + decimal(count)
}

/// `[{left:#x},{right:#x})={count}`: the boundaries in hexadecimal with a
/// `0x` prefix, the count in decimal.
pub open spec fn bucket_ref_text(left: nat, right: nat, count: nat) -> Seq<char> {
    "[0x"@ + hex(left) + ",0x"@ + hex(right) + ")="@ + decimal(count)
}

/// The line of bucket `i` of a histogram of width `w` with the given counts.
pub open spec fn bucket_line(w: nat, counts: Seq<u64>, i: nat) -> Seq<char> {
    bucket_text(i, bucket_left(w, i), bucket_right(w, i), counts[i as int] as nat)
}

/// The lines of the non-empty buckets among the first `k`, joined by newlines.
pub open spec fn non_empty_lines(w: nat, counts: Seq<u64>, k: nat) -> Seq<char>
    decreases k,
{
    if k == 0 {
        Seq::empty()
    } else {
        let prev = non_empty_lines(w, counts, (k - 1) as nat);
        if counts[k - 1] == 0 {
            prev
        } else if prev.len() == 0 {
            bucket_line(w, counts, (k - 1) as nat)
        } else {
            prev + seq!['\n'] + bucket_line(w, counts, (k - 1) as nat)
        }
    }
}

/// Appends the line of one bucket: `b{index}[{left},{right})={count}`.
fn push_bucket(out: &mut Vec<char>, b: &BucketRef<'_>)
    requires
        b.wf(),
    ensures
        final(out)@ == old(out)@ + bucket_text(
            b.index_spec(),
            bucket_left(b.width_spec(), b.index_spec()),
            bucket_right(b.width_spec(), b.index_spec()),
            b.count_spec(),
        ),
{
    out.push('b');
    push_decimal(out, b.index() as u64);
    out.push('[');
    push_decimal(out, b.left());
    out.push(',');
    push_decimal(out, b.right());
    out.push(')');
    out.push('=');
    push_decimal(out, b.count());
    proof {
        assert(final(out)@ =~= old(out)@ + bucket_text(
            b.index_spec(),
            bucket_left(b.width_spec(), b.index_spec()),
            bucket_right(b.width_spec(), b.index_spec()),
            b.count_spec(),
        ));
    }
}

impl<'a> BucketRef<'a> {
    /// Renders the bucket as `[{left:#x},{right:#x})={count}`.
    pub fn to_string(&self) -> (s: String)
        requires
            self.wf(),
        ensures
            s@ == bucket_ref_text(
                bucket_left(self.width_spec(), self.index_spec()),
                bucket_right(self.width_spec(), self.index_spec()),
                self.count_spec(),
            ),
    {
        let mut out: Vec<char> = Vec::new();
        push_str(&mut out, "[0x");
        push_hex(&mut out, self.left());
        push_str(&mut out, ",0x");
        push_hex(&mut out, self.right());
        push_str(&mut out, ")=");
        push_decimal(&mut out, self.count());
        proof {
            assert(out@ =~= bucket_ref_text(
                bucket_left(self.width_spec(), self.index_spec()),
                bucket_right(self.width_spec(), self.index_spec()),
                self.count_spec(),
            ));
        }
        string_from_chars(out)
    }
}

/// Displays the non-empty buckets of a histogram, one per line.
pub struct DisplayBuckets<'a, T> {
    histogram: &'a Histogram<T>,
}

impl<'a, T> DisplayBuckets<'a, T> {
    /// The histogram being displayed.
    pub closed spec fn histogram_spec(self) -> &'a Histogram<T> {
        self.histogram
    }

    pub(crate) fn new(histogram: &'a Histogram<T>) -> (d: Self)
        ensures
            d.histogram_spec() == histogram,
    {
        DisplayBuckets { histogram }
    }

    /// Renders one line per non-empty bucket, `b{index}[{left},{right})={count}`.
    pub fn to_string(&self) -> (s: String)
        requires
            self.histogram_spec().wf(),
        ensures
            s@ == non_empty_lines(
                self.histogram_spec().width_spec(),
                self.histogram_spec().counts(),
                self.histogram_spec().num_buckets_spec(),
            ),
    {
        let h = self.histogram;
        let n = h.num_buckets();
        let ghost w = h.width_spec();
        let ghost counts = h.counts();
        let mut out: Vec<char> = Vec::new();
        let mut first = true;
        let mut i: usize = 0;
        while i < n
            invariant
                h.wf(),
                w == h.width_spec(),
                counts == h.counts(),
                n == h.num_buckets_spec() == counts.len(),
                i <= n,
                out@ == non_empty_lines(w, counts, i as nat),
                first == (out@.len() == 0),
            decreases n - i,
        {
            let b = h.bucket(i);
            if b.count() != 0 {
                if !first {
                    out.push('\n');
                }
                first = false;
                push_bucket(&mut out, &b);
                proof {
                    let prev = non_empty_lines(w, counts, i as nat);
                    if prev.len() == 0 {
                        assert(out@ =~= bucket_line(w, counts, i as nat));
                    } else {
                        assert(out@ =~= prev + seq!['\n'] + bucket_line(w, counts, i as nat));
                    }
                    assert(out@.len() > 0);
                }
            }
            i = i + 1;
        }
        string_from_chars(out)
    }
}

impl<T> Histogram<T> {
    /// Returns a display wrapper that prints non-empty buckets, one per line.
    pub fn display_buckets(&self) -> (d: DisplayBuckets<'_, T>)
        ensures
            d.histogram_spec() == self,
    {
        DisplayBuckets::new(self)
    }
}

/// Common percentile statistics of a histogram.
#[derive(Debug, Clone, Copy, PartialEq, Eq, Structural)]
pub struct PercentileStats {
    pub samples: u64,
    pub p0_1: u64,
    pub p1: u64,
    pub p5: u64,
    pub p10: u64,
    pub p50: u64,
    pub p90: u64,
    pub p99: u64,
    pub p99_9: u64,
}

/// `[samples: …, P0.1: …, P1: …, P5: …, P10: …, P50: …, P90: …, P99: …, P99.9: …]`.
pub open spec fn stats_text(s: PercentileStats) -> Seq<char> {
    "[samples: "@ + decimal(s.samples as nat) + ", P0.1: "@ + decimal(s.p0_1 as nat) + ", P1: "@
        + decimal(s.p1 as nat) + ", P5: "@ + decimal(s.p5 as nat) + ", P10: "@ + decimal(
        s.p10 as nat,
    ) + ", P50: "@ + decimal(s.p50 as nat) + ", P90: "@ + decimal(s.p90 as nat) + ", P99: "@
        + decimal(s.p99 as nat) + ", P99.9: "@ + decimal(s.p99_9 as nat) + "]"@
}

impl PercentileStats {
    /// Renders the statistics on one line.
    pub fn to_string(&self) -> (s: String)
        ensures
            s@ == stats_text(*self),
    {
        let mut out: Vec<char> = Vec::new();
        push_str(&mut out, "[samples: ");
        push_decimal(&mut out, self.samples);
        push_str(&mut out, ", P0.1: ");
        push_decimal(&mut out, self.p0_1);
        push_str(&mut out, ", P1: ");
        push_decimal(&mut out, self.p1);
        push_str(&mut out, ", P5: ");
        push_decimal(&mut out, self.p5);
        push_str(&mut out, ", P10: ");
        push_decimal(&mut out, self.p10);
        push_str(&mut out, ", P50: ");
        push_decimal(&mut out, self.p50);
        push_str(&mut out, ", P90: ");
        push_decimal(&mut out, self.p90);
        push_str(&mut out, ", P99: ");
        push_decimal(&mut out, self.p99);
        push_str(&mut out, ", P99.9: ");
        push_decimal(&mut out, self.p99_9);
        push_str(&mut out, "]");
        proof {
            assert(out@ =~= stats_text(*self));
        }
        string_from_chars(out)
    }
}


/// The statistics text as its nine labelled values and the closing bracket.
proof fn lemma_stats_text_pieces(s: PercentileStats) -> (pieces: Seq<Seq<char>>)
    ensures
        pieces.len() == 19,
        stats_text(s) == concat_all(pieces),
        pieces[0] == "[samples: "@,
        pieces[1] == decimal(s.samples as nat),
        pieces[2] == ", P0.1: "@,
        pieces[3] == decimal(s.p0_1 as nat),
        pieces[4] == ", P1: "@,
        pieces[5] == decimal(s.p1 as nat),
        pieces[6] == ", P5: "@,
        pieces[7] == decimal(s.p5 as nat),
        pieces[8] == ", P10: "@,
        pieces[9] == decimal(s.p10 as nat),
        pieces[10] == ", P50: "@,
        pieces[11] == decimal(s.p50 as nat),
        pieces[12] == ", P90: "@,
        pieces[13] == decimal(s.p90 as nat),
        pieces[14] == ", P99: "@,
        pieces[15] == decimal(s.p99 as nat),
        pieces[16] == ", P99.9: "@,
        pieces[17] == decimal(s.p99_9 as nat),
        pieces[18] == "]"@,
{
    let pieces = seq![
        "[samples: "@, decimal(s.samples as nat), ", P0.1: "@, decimal(s.p0_1 as nat), ", P1: "@,
        decimal(s.p1 as nat), ", P5: "@, decimal(s.p5 as nat), ", P10: "@, decimal(s.p10 as nat),
        ", P50: "@, decimal(s.p50 as nat), ", P90: "@, decimal(s.p90 as nat), ", P99: "@,
        decimal(s.p99 as nat), ", P99.9: "@, decimal(s.p99_9 as nat), "]"@
    ];
    reveal_with_fuel(concat_all, 20);
    pieces
}

/// Law: each label of the statistics text is followed by the decimal value of
/// the field it names: samples, then the P0.1, P1, P5, P10, P50, P90, P99 and
/// P99.9 percentiles.
pub proof fn law_stats_text_labels(s: PercentileStats)
    ensures
        shows_value(stats_text(s), "[samples: "@, s.samples as nat),
        shows_value(stats_text(s), ", P0.1: "@, s.p0_1 as nat),
        shows_value(stats_text(s), ", P1: "@, s.p1 as nat),
        shows_value(stats_text(s), ", P5: "@, s.p5 as nat),
        shows_value(stats_text(s), ", P10: "@, s.p10 as nat),
        shows_value(stats_text(s), ", P50: "@, s.p50 as nat),
        shows_value(stats_text(s), ", P90: "@, s.p90 as nat),
        shows_value(stats_text(s), ", P99: "@, s.p99 as nat),
        shows_value(stats_text(s), ", P99.9: "@, s.p99_9 as nat),
{
    let p = lemma_stats_text_pieces(s);
    reveal_strlit(", P0.1: ");
    reveal_strlit(", P1: ");
    reveal_strlit(", P5: ");
    reveal_strlit(", P10: ");
    reveal_strlit(", P50: ");
    reveal_strlit(", P90: ");
    reveal_strlit(", P99: ");
    reveal_strlit(", P99.9: ");
    reveal_strlit("]");
    lemma_shows_in_pieces(p, 0, s.samples as nat);
    lemma_shows_in_pieces(p, 2, s.p0_1 as nat);
    lemma_shows_in_pieces(p, 4, s.p1 as nat);
    lemma_shows_in_pieces(p, 6, s.p5 as nat);
    lemma_shows_in_pieces(p, 8, s.p10 as nat);
    lemma_shows_in_pieces(p, 10, s.p50 as nat);
    lemma_shows_in_pieces(p, 12, s.p90 as nat);
    lemma_shows_in_pieces(p, 14, s.p99 as nat);
    lemma_shows_in_pieces(p, 16, s.p99_9 as nat);
}


/// Law: the text of a bucket is `[0x…,0x…)=…` where the two hexadecimal
/// numerals read back as the left and right boundaries and the decimal
/// numeral as the count.
pub proof fn law_bucket_ref_text_reads_back(left: nat, right: nat, count: nat) -> (r: (
    Seq<char>,
    Seq<char>,
    Seq<char>,
))
    ensures
        bucket_ref_text(left, right, count) == "[0x"@ + r.0 + ",0x"@ + r.1 + ")="@ + r.2,
        all_digits_below(r.0, 16) && numeral_value(r.0, 16) == left,
        all_digits_below(r.1, 16) && numeral_value(r.1, 16) == right,
        all_digits_below(r.2, 10) && numeral_value(r.2, 10) == count,
{
    law_hex_reads_back(left);
    law_hex_reads_back(right);
    law_decimal_reads_back(count);
    (hex(left), hex(right), decimal(count))
}

} // verus!
