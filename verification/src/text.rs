//! Building text one character at a time: decimal numbers, padding and
//! literal pieces, and the final conversion into a `String`.
use vstd::prelude::*;
use vstd::string::*;

verus! {

/// The character of decimal digit `d`.
pub open spec fn digit_char(d: nat) -> char {
    if d == 0 {
        '0'
    } else if d == 1 {
        '1'
    } else if d == 2 {
        '2'
    } else if d == 3 {
        '3'
    } else if d == 4 {
        '4'
    } else if d == 5 {
        '5'
    } else if d == 6 {
        '6'
    } else if d == 7 {
        '7'
    } else if d == 8 {
        '8'
    } else {
        '9'
    }
}

/// The decimal representation of `n`, without leading zeros.
pub open spec fn decimal(n: nat) -> Seq<char>
    decreases n,
{
    if n < 10 {
        seq![digit_char(n)]
    } else {
        decimal(n / 10).push(digit_char(n % 10))
    }
}

/// The character of hexadecimal digit `d`, in lower case.
pub open spec fn hex_digit_char(d: nat) -> char {
    if d < 10 {
        digit_char(d)
    } else if d == 10 {
        'a'
    } else if d == 11 {
        'b'
    } else if d == 12 {
        'c'
    } else if d == 13 {
        'd'
    } else if d == 14 {
        'e'
    } else {
        'f'
    }
}

/// The lower-case hexadecimal representation of `n`, without leading zeros.
pub open spec fn hex(n: nat) -> Seq<char>
    decreases n,
{
    if n < 16 {
        seq![hex_digit_char(n)]
    } else {
        hex(n / 16).push(hex_digit_char(n % 16))
    }
}

/// `k` spaces.
pub open spec fn spaces(k: nat) -> Seq<char> {
    Seq::new(k, |_i: int| ' ')
}

/// `k` copies of `c`.
pub open spec fn repeat_char(c: char, k: nat) -> Seq<char> {
    Seq::new(k, |_i: int| c)
}

/// `s` right-aligned in a field of `width` characters.
pub open spec fn pad_left(s: Seq<char>, width: nat) -> Seq<char> {
    if s.len() < width {
        spaces((width - s.len()) as nat) + s
    } else {
        s
    }
}

/// `10^k`.
pub open spec fn pow10(k: nat) -> nat
    decreases k,
{
    if k == 0 {
        1
    } else {
        10 * pow10((k - 1) as nat)
    }
}

/// A number below `10^k` has at most `k` decimal digits, and at least one.
pub proof fn lemma_decimal_len(n: nat, k: nat)
    requires
        k >= 1,
        n < pow10(k),
    ensures
        1 <= decimal(n).len() <= k,
    decreases n,
{
    if n >= 10 {
        assert(k >= 2) by {
            if k == 1 {
                assert(pow10(0) == 1);
            }
        }
        lemma_decimal_len(n / 10, (k - 1) as nat);
    }
}

/// A `u64` has at most 20 decimal digits.
pub proof fn lemma_decimal_len_u64(n: u64)
    ensures
        1 <= decimal(n as nat).len() <= 20,
{
    assert(pow10(20) == 100_000_000_000_000_000_000) by {
        reveal_with_fuel(pow10, 21);
    }
    lemma_decimal_len(n as nat, 20);
}

/// The character of decimal digit `d`.
pub fn digit(d: u64) -> (c: char)
    requires
        d < 10,
    ensures
        c == digit_char(d as nat),
{
    match d {
        0 => '0',
        1 => '1',
        2 => '2',
        3 => '3',
        4 => '4',
        5 => '5',
        6 => '6',
        7 => '7',
        8 => '8',
        _ => '9',
    }
}

/// Returns the number of decimal digits of `n`.
pub fn digit_count(n: u64) -> (k: usize)
    ensures
        k == decimal(n as nat).len(),
        1 <= k <= 20,
{
    let mut m = n;
    let mut k: usize = 1;
    proof {
        lemma_decimal_len_u64(n);
    }
    while m >= 10
        invariant
            1 <= k,
            k + decimal(m as nat).len() - 1 == decimal(n as nat).len(),
            decimal(n as nat).len() <= 20,
            decimal(m as nat).len() >= 1,
        decreases m,
    {
        proof {
            lemma_decimal_len_u64(m / 10);
            assert(decimal(m as nat) == decimal((m / 10) as nat).push(digit_char((m % 10) as nat)));
        }
        m = m / 10;
        k = k + 1;
    }
    k
}

/// Appends the decimal representation of `n`.
pub fn push_decimal(out: &mut Vec<char>, n: u64)
    ensures
        final(out)@ == old(out)@ + decimal(n as nat),
    decreases n,
{
    if n >= 10 {
        push_decimal(out, n / 10);
    }
    out.push(digit(n % 10));
    proof {
        if n >= 10 {
            assert(old(out)@ + decimal(n as nat) =~= (old(out)@ + decimal((n / 10) as nat)).push(
                digit_char((n % 10) as nat),
            ));
        } else {
            assert(old(out)@ + decimal(n as nat) =~= old(out)@.push(digit_char(n as nat)));
        }
    }
}

/// The character of hexadecimal digit `d`, in lower case.
pub fn hex_digit(d: u64) -> (c: char)
    requires
        d < 16,
    ensures
        c == hex_digit_char(d as nat),
{
    match d {
        10 => 'a',
        11 => 'b',
        12 => 'c',
        13 => 'd',
        14 => 'e',
        15 => 'f',
        _ => digit(d),
    }
}

/// Appends the lower-case hexadecimal representation of `n`.
pub fn push_hex(out: &mut Vec<char>, n: u64)
    ensures
        final(out)@ == old(out)@ + hex(n as nat),
    decreases n,
{
    if n >= 16 {
        push_hex(out, n / 16);
    }
    out.push(hex_digit(n % 16));
    proof {
        if n >= 16 {
            assert(old(out)@ + hex(n as nat) =~= (old(out)@ + hex((n / 16) as nat)).push(
                hex_digit_char((n % 16) as nat),
            ));
        } else {
            assert(old(out)@ + hex(n as nat) =~= old(out)@.push(hex_digit_char(n as nat)));
        }
    }
}

/// Appends `k` copies of `c`.
pub fn push_repeat(out: &mut Vec<char>, c: char, k: usize)
    ensures
        final(out)@ == old(out)@ + repeat_char(c, k as nat),
{
    let mut i: usize = 0;
    while i < k
        invariant
            i <= k,
            out@ == old(out)@ + repeat_char(c, i as nat),
        decreases k - i,
    {
        out.push(c);
        i = i + 1;
        proof {
            assert(out@ =~= old(out)@ + repeat_char(c, i as nat));
        }
    }
}

/// Appends `k` spaces.
pub fn push_spaces(out: &mut Vec<char>, k: usize)
    ensures
        final(out)@ == old(out)@ + spaces(k as nat),
{
    push_repeat(out, ' ', k);
    proof {
        assert(repeat_char(' ', k as nat) =~= spaces(k as nat));
    }
}

/// Appends the characters of `s`.
pub fn push_str(out: &mut Vec<char>, s: &str)
    ensures
        final(out)@ == old(out)@ + s@,
{
    let n = s.unicode_len();
    let mut i: usize = 0;
    while i < n
        invariant
            n == s@.len(),
            i <= n,
            out@ == old(out)@ + s@.subrange(0, i as int),
        decreases n - i,
    {
        out.push(s.get_char(i));
        i = i + 1;
        proof {
            assert(out@ =~= old(out)@ + s@.subrange(0, i as int));
        }
    }
    proof {
        assert(s@.subrange(0, n as int) =~= s@);
    }
}

/// Appends `n` in decimal, right-aligned in a field of `width` characters.
pub fn push_padded_decimal(out: &mut Vec<char>, n: u64, width: usize)
    ensures
        final(out)@ == old(out)@ + pad_left(decimal(n as nat), width as nat),
{
    let k = digit_count(n);
    if k < width {
        push_spaces(out, width - k);
    }
    push_decimal(out, n);
    proof {
        assert(final(out)@ =~= old(out)@ + pad_left(decimal(n as nat), width as nat));
    }
}

/// Appends `s`, right-aligned in a field of `width` characters.
pub fn push_padded_str(out: &mut Vec<char>, s: &str, width: usize)
    ensures
        final(out)@ == old(out)@ + pad_left(s@, width as nat),
{
    let k = s.unicode_len();
    if k < width {
        push_spaces(out, width - k);
    }
    push_str(out, s);
    proof {
        assert(final(out)@ =~= old(out)@ + pad_left(s@, width as nat));
    }
}

/// Collects characters into a `String`.
///
/// Calls `String::from_iter`; trusted to produce a string whose characters
/// are exactly `chars`, in order, as std documents for collecting `char`s.
#[verifier::external_body]
pub(crate) fn string_from_chars(chars: Vec<char>) -> (s: String)
    ensures
        s@ == chars@,
{
    String::from_iter(chars)
}


/// The value of a digit character: `'0'..='9'` are 0 to 9 and `'a'..='f'`
/// are 10 to 15, read from the character codes; any other character is -1.
pub open spec fn digit_value(c: char) -> int {
    if '0' as int <= c as int <= '9' as int {
        c as int - '0' as int
    } else if 'a' as int <= c as int <= 'f' as int {
        c as int - 'a' as int + 10
    } else {
        -1
    }
}

/// The number a numeral spells in `base`, most significant digit first.
pub open spec fn numeral_value(s: Seq<char>, base: int) -> int
    decreases s.len(),
{
    if s.len() == 0 {
        0
    } else {
        numeral_value(s.drop_last(), base) * base + digit_value(s.last())
    }
}

/// Every character of `s` is a digit below `base`.
pub open spec fn all_digits_below(s: Seq<char>, base: int) -> bool {
    forall|i: int| 0 <= i < s.len() ==> 0 <= #[trigger] digit_value(s[i]) < base
}

/// Digit characters read back as their digits.
proof fn lemma_digit_values(k: nat)
    requires
        k < 16,
    ensures
        k < 10 ==> digit_value(digit_char(k)) == k,
        digit_value(hex_digit_char(k)) == k,
{
}

/// Law: the decimal rendering reads back as the number: it is a non-empty
/// string of decimal digits whose base-10 value is `n`.
pub proof fn law_decimal_reads_back(n: nat)
    ensures
        decimal(n).len() >= 1,
        all_digits_below(decimal(n), 10),
        numeral_value(decimal(n), 10) == n,
    decreases n,
{
    let d = decimal(n);
    if n < 10 {
        lemma_digit_values(n);
        assert(d.drop_last() =~= Seq::<char>::empty());
        assert(numeral_value(d.drop_last(), 10) == 0);
    } else {
        law_decimal_reads_back(n / 10);
        let r = (n % 10) as nat;
        lemma_digit_values(r);
        assert(d.drop_last() =~= decimal(n / 10));
        assert(numeral_value(d, 10) == (n / 10) * 10 + r);
        assert((n / 10) * 10 + n % 10 == n) by (nonlinear_arith);
        assert forall|i: int| 0 <= i < d.len() implies 0 <= #[trigger] digit_value(d[i]) < 10 by {
            if i < d.len() - 1 {
                assert(d[i] == decimal(n / 10)[i]);
            }
        }
    }
}

/// Law: the hexadecimal rendering reads back as the number: it is a
/// non-empty string of digits `0-9a-f` whose base-16 value is `n`.
pub proof fn law_hex_reads_back(n: nat)
    ensures
        hex(n).len() >= 1,
        all_digits_below(hex(n), 16),
        numeral_value(hex(n), 16) == n,
    decreases n,
{
    let d = hex(n);
    if n < 16 {
        lemma_digit_values(n);
        assert(d.drop_last() =~= Seq::<char>::empty());
        assert(numeral_value(d.drop_last(), 16) == 0);
    } else {
        law_hex_reads_back(n / 16);
        lemma_digit_values((n % 16) as nat);
        assert(d.drop_last() =~= hex(n / 16));
        assert(numeral_value(d, 16) == (n / 16) * 16 + n % 16);
        assert((n / 16) * 16 + n % 16 == n) by (nonlinear_arith);
        assert forall|i: int| 0 <= i < d.len() implies 0 <= #[trigger] digit_value(d[i]) < 16 by {
            if i < d.len() - 1 {
                assert(d[i] == hex(n / 16)[i]);
            }
        }
    }
}


/// Whether `c` is a decimal digit.
pub open spec fn is_decimal_digit(c: char) -> bool {
    0 <= digit_value(c) < 10
}

/// `text` holds `label` followed directly by the decimal numeral of `v`, with
/// no further digit after it.
pub open spec fn shows_value(text: Seq<char>, label: Seq<char>, v: nat) -> bool {
    exists|pre: Seq<char>, post: Seq<char>|
        #[trigger] (pre + label + decimal(v) + post) == text && (post.len() == 0
            || !is_decimal_digit(post[0]))
}

/// A text assembled as `pre + label + decimal(v) + post` shows `v` after
/// `label` when `post` does not go on with a digit.
pub proof fn lemma_shows_value(
    text: Seq<char>,
    pre: Seq<char>,
    label: Seq<char>,
    v: nat,
    post: Seq<char>,
)
    requires
        text =~= pre + label + decimal(v) + post,
        post.len() == 0 || !is_decimal_digit(post[0]),
    ensures
        shows_value(text, label, v),
{
    assert(pre + label + decimal(v) + post == text);
}


/// Pieces of text concatenated in order.
pub open spec fn concat_all(parts: Seq<Seq<char>>) -> Seq<char>
    decreases parts.len(),
{
    if parts.len() == 0 {
        Seq::empty()
    } else {
        concat_all(parts.drop_last()) + parts.last()
    }
}


/// Concatenation distributes over joining the lists of pieces.
pub proof fn lemma_concat_all_append(a: Seq<Seq<char>>, b: Seq<Seq<char>>)
    ensures
        concat_all(a + b) == concat_all(a) + concat_all(b),
    decreases b.len(),
{
    if b.len() == 0 {
        assert(a + b =~= a);
        assert(concat_all(a) + concat_all(b) =~= concat_all(a));
    } else {
        lemma_concat_all_append(a, b.drop_last());
        assert((a + b).drop_last() =~= a + b.drop_last());
        assert(concat_all(a + b) =~= concat_all(a) + concat_all(b));
    }
}

/// In a text made of pieces, a label piece followed by the numeral of `v`,
/// and then by the end or a piece that starts with a non-digit, shows `v`.
pub proof fn lemma_shows_in_pieces(pieces: Seq<Seq<char>>, k: int, v: nat)
    requires
        0 <= k,
        k + 1 < pieces.len(),
        pieces[k + 1] == decimal(v),
        k + 2 == pieces.len() || (pieces[k + 2].len() > 0 && !is_decimal_digit(pieces[k + 2][0])),
    ensures
        shows_value(concat_all(pieces), pieces[k], v),
{
    let pre = pieces.take(k);
    let mid = seq![pieces[k], pieces[k + 1]];
    let rest = pieces.skip(k + 2);
    assert(pieces =~= pre + mid + rest);
    lemma_concat_all_append(pre + mid, rest);
    lemma_concat_all_append(pre, mid);
    assert(concat_all(mid) =~= pieces[k] + pieces[k + 1]) by {
        reveal_with_fuel(concat_all, 3);
        assert(mid.drop_last().drop_last() =~= Seq::<Seq<char>>::empty());
        assert(mid.drop_last() =~= seq![pieces[k]]);
    }
    if rest.len() > 0 {
        let first = seq![rest[0]];
        assert(rest =~= first + rest.drop_first());
        lemma_concat_all_append(first, rest.drop_first());
        assert(concat_all(first) =~= rest[0]) by {
            assert(first.drop_last() =~= Seq::<Seq<char>>::empty());
            assert(concat_all(first.drop_last()) =~= Seq::<char>::empty());
            assert(first.last() == rest[0]);
        }
        assert(concat_all(rest)[0] == rest[0][0]);
    } else {
        assert(concat_all(rest) =~= Seq::<char>::empty());
    }
    lemma_shows_value(concat_all(pieces), concat_all(pre), pieces[k], v, concat_all(rest));
}

} // verus!
