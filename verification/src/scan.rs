//! Scanning of character sequences: lines, whitespace-separated words,
//! trimming, ASCII case-insensitive comparison and unsigned decimal numbers.
//! Lines end at `'\n'`, and a `'\r'` just before that `'\n'` is not part of
//! the line; whitespace is the Unicode `White_Space` property.
use vstd::prelude::*;
use crate::text::{decimal, digit_char};
use crate::unicode::{white_space, is_whitespace};

verus! {

/// The first position at or after `i` holding `c`, or `s.len()` when there is none.
pub open spec fn first_from(s: Seq<char>, c: char, i: int) -> int
    decreases s.len() - i,
{
    if i >= s.len() {
        s.len() as int
    } else if s[i] == c {
        i
    } else {
        first_from(s, c, i + 1)
    }
}

/// The first position at or after `i` whose character is not whitespace, or `s.len()`.
pub open spec fn next_non_ws(s: Seq<char>, i: int) -> int
    decreases s.len() - i,
{
    if i >= s.len() {
        s.len() as int
    } else if !white_space(s[i]) {
        i
    } else {
        next_non_ws(s, i + 1)
    }
}

/// The first position at or after `i` whose character is whitespace, or `s.len()`.
pub open spec fn next_ws(s: Seq<char>, i: int) -> int
    decreases s.len() - i,
{
    if i >= s.len() {
        s.len() as int
    } else if white_space(s[i]) {
        i
    } else {
        next_ws(s, i + 1)
    }
}

/// The end of `s[lo..j]` once trailing whitespace is removed (never below `lo`).
pub open spec fn trim_end(s: Seq<char>, lo: int, j: int) -> int
    decreases j - lo,
{
    if j <= lo {
        lo
    } else if white_space(s[j - 1]) {
        trim_end(s, lo, j - 1)
    } else {
        j
    }
}

/// `s` without leading and trailing whitespace.
pub open spec fn trim(s: Seq<char>) -> Seq<char> {
    let lo = next_non_ws(s, 0);
    s.subrange(lo, trim_end(s, lo, s.len() as int))
}

/// The line that begins at `start`: up to the next `'\n'` (or the end),
/// without a `'\r'` that stands just before that `'\n'`.
pub open spec fn line_from(s: Seq<char>, start: int) -> Seq<char> {
    let e = first_from(s, '\n', start);
    let raw = s.subrange(start, e);
    if e < s.len() && raw.len() > 0 && raw.last() == '\r' {
        raw.drop_last()
    } else {
        raw
    }
}

/// The lines of `s` from position `start` on. No line follows a final `'\n'`.
pub open spec fn lines_from(s: Seq<char>, start: int) -> Seq<Seq<char>>
    decreases s.len() + 1 - start,
{
    if start < 0 || start >= s.len() {
        Seq::empty()
    } else {
        proof {
            lemma_first_from(s, '\n', start);
        }
        seq![line_from(s, start)] + lines_from(s, first_from(s, '\n', start) + 1)
    }
}

/// The lines of `s`.
pub open spec fn lines(s: Seq<char>) -> Seq<Seq<char>> {
    lines_from(s, 0)
}

/// The first whitespace-separated word of `s`, or the empty sequence.
pub open spec fn first_word(s: Seq<char>) -> Seq<char> {
    let a = next_non_ws(s, 0);
    s.subrange(a, next_ws(s, a))
}

/// The second whitespace-separated word of `s`, or the empty sequence.
pub open spec fn second_word(s: Seq<char>) -> Seq<char> {
    let b = next_ws(s, next_non_ws(s, 0));
    let c = next_non_ws(s, b);
    s.subrange(c, next_ws(s, c))
}

/// ASCII lower-casing of a code point: `A`..=`Z` map to `a`..=`z`.
pub open spec fn ascii_lower(u: u32) -> u32 {
    if 65 <= u && u <= 90 {
        (u + 32) as u32
    } else {
        u
    }
}

/// `a` and `b` are equal up to ASCII case: character by character, where
/// `A`..=`Z` match `a`..=`z` and every other character matches only itself
/// (so comparing the UTF-8 bytes gives the same answer).
pub open spec fn eq_ignore_case(a: Seq<char>, b: Seq<char>) -> bool {
    a.len() == b.len() && forall|i: int|
        0 <= i < a.len() ==> #[trigger] ascii_lower(a[i] as u32) == ascii_lower(b[i] as u32)
}

/// An ASCII decimal digit.
pub open spec fn is_digit(c: char) -> bool {
    '0' <= c && c <= '9'
}

/// The value of a sequence of decimal digits.
pub open spec fn digits_value(d: Seq<char>) -> int
    decreases d.len(),
{
    if d.len() == 0 {
        0
    } else {
        digits_value(d.drop_last()) * 10 + (d.last() as u32 - 48)
    }
}

/// Every character of `d` is a decimal digit.
pub open spec fn all_digits(d: Seq<char>) -> bool {
    forall|i: int| 0 <= i < d.len() ==> #[trigger] is_digit(d[i])
}

/// The unsigned number written by `t`: an optional `'+'` and then one or
/// more decimal digits, whose value fits in `usize`; `None` otherwise.
pub open spec fn parse_usize(t: Seq<char>) -> Option<usize> {
    let d = if t.len() > 0 && t[0] == '+' { t.drop_first() } else { t };
    if d.len() > 0 && all_digits(d) && digits_value(d) <= usize::MAX {
        Some(digits_value(d) as usize)
    } else {
        None
    }
}

/// Where `first_from` lands.
pub proof fn lemma_first_from(s: Seq<char>, c: char, i: int)
    requires
        0 <= i <= s.len(),
    ensures
        i <= first_from(s, c, i) <= s.len(),
        first_from(s, c, i) < s.len() ==> s[first_from(s, c, i)] == c,
        forall|k: int| i <= k < first_from(s, c, i) ==> s[k] != c,
    decreases s.len() - i,
{
    if i < s.len() && s[i] != c {
        lemma_first_from(s, c, i + 1);
    }
}

/// The position of the first `c` at or after `start` (or `v.len()`).
pub fn find_char(v: &Vec<char>, c: char, start: usize) -> (e: usize)
    requires
        start <= v.len(),
    ensures
        e == first_from(v@, c, start as int),
        start <= e <= v.len(),
{
    let mut j = start;
    while j < v.len() && v[j] != c
        invariant
            start <= j <= v.len(),
            first_from(v@, c, j as int) == first_from(v@, c, start as int),
        decreases v.len() - j,
    {
        j = j + 1;
    }
    j
}

/// The first position at or after `start` that is not whitespace (or `v.len()`).
pub fn skip_ws(v: &Vec<char>, start: usize) -> (e: usize)
    requires
        start <= v.len(),
    ensures
        e == next_non_ws(v@, start as int),
        start <= e <= v.len(),
{
    let mut j = start;
    while j < v.len() && is_whitespace(v[j])
        invariant
            start <= j <= v.len(),
            next_non_ws(v@, j as int) == next_non_ws(v@, start as int),
        decreases v.len() - j,
    {
        j = j + 1;
    }
    j
}

/// The first position at or after `start` that is whitespace (or `v.len()`).
pub fn skip_word(v: &Vec<char>, start: usize) -> (e: usize)
    requires
        start <= v.len(),
    ensures
        e == next_ws(v@, start as int),
        start <= e <= v.len(),
{
    let mut j = start;
    while j < v.len() && !is_whitespace(v[j])
        invariant
            start <= j <= v.len(),
            next_ws(v@, j as int) == next_ws(v@, start as int),
        decreases v.len() - j,
    {
        j = j + 1;
    }
    j
}

/// The characters `v[lo..hi]`.
pub fn sub_vec(v: &Vec<char>, lo: usize, hi: usize) -> (r: Vec<char>)
    requires
        lo <= hi <= v.len(),
    ensures
        r@ == v@.subrange(lo as int, hi as int),
{
    let mut r: Vec<char> = Vec::new();
    let mut j = lo;
    while j < hi
        invariant
            lo <= j <= hi <= v.len(),
            r@ == v@.subrange(lo as int, j as int),
        decreases hi - j,
    {
        r.push(v[j]);
        j = j + 1;
        assert(r@ =~= v@.subrange(lo as int, j as int));
    }
    r
}

/// The line that begins at `start`, and the position where the next line begins.
pub fn line_at(v: &Vec<char>, start: usize) -> (res: (Vec<char>, usize))
    requires
        start < v.len(),
    ensures
        res.0@ == line_from(v@, start as int),
        lines_from(v@, start as int) == seq![res.0@] + lines_from(v@, res.1 as int),
        start < res.1 <= v.len(),
{
    let e = find_char(v, '\n', start);
    let next = if e < v.len() { e + 1 } else { e };
    let hi = if e < v.len() && e > start && v[e - 1] == '\r' { e - 1 } else { e };
    let line = sub_vec(v, start, hi);
    proof {
        lemma_first_from(v@, '\n', start as int);
        let raw = v@.subrange(start as int, e as int);
        if e < v.len() && e > start && v@[e - 1] == '\r' {
            assert(raw.drop_last() =~= v@.subrange(start as int, hi as int));
        }
        if e == v.len() {
            assert(lines_from(v@, e + 1) == Seq::<Seq<char>>::empty());
            assert(lines_from(v@, e as int) == Seq::<Seq<char>>::empty());
        }
        assert(line@ == line_from(v@, start as int));
    }
    (line, next)
}

/// The first two whitespace-separated words of `v` (each empty when absent).
pub fn first_two_words(v: &Vec<char>) -> (res: (Vec<char>, Vec<char>))
    ensures
        res.0@ == first_word(v@),
        res.1@ == second_word(v@),
{
    let a = skip_ws(v, 0);
    let b = skip_word(v, a);
    let c = skip_ws(v, b);
    let d = skip_word(v, c);
    (sub_vec(v, a, b), sub_vec(v, c, d))
}

/// The bounds of `v[lo..hi]` once leading and trailing whitespace is removed.
pub fn trim_range(v: &Vec<char>, lo: usize, hi: usize) -> (res: (usize, usize))
    requires
        lo <= hi <= v.len(),
    ensures
        lo <= res.0 <= res.1 <= hi,
        v@.subrange(res.0 as int, res.1 as int) == trim(v@.subrange(lo as int, hi as int)),
{
    let ghost t = v@.subrange(lo as int, hi as int);
    let mut a = lo;
    while a < hi && is_whitespace(v[a])
        invariant
            lo <= a <= hi <= v.len(),
            t == v@.subrange(lo as int, hi as int),
            next_non_ws(t, (a - lo) as int) == next_non_ws(t, 0),
        decreases hi - a,
    {
        a = a + 1;
    }
    let mut b = hi;
    while b > a && is_whitespace(v[b - 1])
        invariant
            lo <= a <= b <= hi <= v.len(),
            t == v@.subrange(lo as int, hi as int),
            trim_end(t, (a - lo) as int, (b - lo) as int) == trim_end(
                t,
                (a - lo) as int,
                t.len() as int,
            ),
        decreases b - a,
    {
        b = b - 1;
    }
    proof {
        assert(next_non_ws(t, (a - lo) as int) == (a - lo) as int);
        assert(trim_end(t, (a - lo) as int, (b - lo) as int) == (b - lo) as int);
        assert(v@.subrange(a as int, b as int) =~= t.subrange((a - lo) as int, (b - lo) as int));
    }
    (a, b)
}

/// Whether `v[lo..hi]` equals `target` up to ASCII case.
pub fn eq_ignore_ascii_case(v: &Vec<char>, lo: usize, hi: usize, target: &Vec<char>) -> (res: bool)
    requires
        lo <= hi <= v.len(),
    ensures
        res == eq_ignore_case(v@.subrange(lo as int, hi as int), target@),
{
    let ghost a = v@.subrange(lo as int, hi as int);
    if hi - lo != target.len() {
        return false;
    }
    let mut i: usize = 0;
    while i < target.len()
        invariant
            hi - lo == target.len(),
            lo <= hi <= v.len(),
            a == v@.subrange(lo as int, hi as int),
            i <= target.len(),
            forall|k: int|
                0 <= k < i ==> #[trigger] ascii_lower(a[k] as u32) == ascii_lower(
                    target@[k] as u32,
                ),
        decreases target.len() - i,
    {
        let x = v[lo + i] as u32;
        let y = target[i] as u32;
        let lx = if 65 <= x && x <= 90 { x + 32 } else { x };
        let ly = if 65 <= y && y <= 90 { y + 32 } else { y };
        if lx != ly {
            assert(ascii_lower(a[i as int] as u32) != ascii_lower(target@[i as int] as u32));
            return false;
        }
        i = i + 1;
    }
    true
}

/// The value of the digits `d` only grows as digits are appended.
pub proof fn lemma_digits_value_prefix(d: Seq<char>, k: int, m: int)
    requires
        0 <= k <= m <= d.len(),
        all_digits(d),
    ensures
        0 <= digits_value(d.take(k)) <= digits_value(d.take(m)),
    decreases m,
{
    if m > 0 {
        assert(d.take(m).drop_last() =~= d.take(m - 1));
        assert(d.take(m).last() == d[m - 1]);
        assert(is_digit(d[m - 1]));
        if k < m {
            lemma_digits_value_prefix(d, k, m - 1);
        } else {
            lemma_digits_value_prefix(d, m - 1, m - 1);
        }
    } else {
        assert(d.take(0) =~= Seq::<char>::empty());
    }
}

/// The number written by `v[lo..hi]` (see [`parse_usize`]).
pub fn parse_usize_range(v: &Vec<char>, lo: usize, hi: usize) -> (res: Option<usize>)
    requires
        lo <= hi <= v.len(),
    ensures
        res == parse_usize(v@.subrange(lo as int, hi as int)),
{
    let ghost t = v@.subrange(lo as int, hi as int);
    let start = if lo < hi && v[lo] == '+' { lo + 1 } else { lo };
    let ghost d = v@.subrange(start as int, hi as int);
    proof {
        if lo < hi && v@[lo as int] == '+' {
            assert(d =~= t.drop_first());
        } else {
            assert(d =~= t);
        }
    }
    if start == hi {
        return None;
    }
    let mut value: usize = 0;
    let mut j = start;
    while j < hi
        invariant
            lo <= start < hi <= v.len(),
            start <= j <= hi,
            t == v@.subrange(lo as int, hi as int),
            d == v@.subrange(start as int, hi as int),
            d == (if t.len() > 0 && t[0] == '+' { t.drop_first() } else { t }),
            all_digits(d.take((j - start) as int)),
            value == digits_value(d.take((j - start) as int)),
        decreases hi - j,
    {
        let c = v[j];
        proof {
            let p = d.take((j - start + 1) as int);
            assert(p.drop_last() =~= d.take((j - start) as int));
            assert(p.last() == c);
        }
        if !('0' <= c && c <= '9') {
            proof {
                assert(!is_digit(d[(j - start) as int]));
            }
            return None;
        }
        let digit = (c as u32 - '0' as u32) as usize;
        match value.checked_mul(10) {
            Some(m) => match m.checked_add(digit) {
                Some(s) => {
                    value = s;
                },
                None => {
                    proof {
                        assert(all_digits(d.take((j - start + 1) as int)));
                        self::lemma_overflow_rest(d, (j - start + 1) as int);
                    }
                    return None;
                },
            },
            None => {
                proof {
                    assert(all_digits(d.take((j - start + 1) as int)));
                    self::lemma_overflow_rest(d, (j - start + 1) as int);
                }
                return None;
            },
        }
        j = j + 1;
    }
    proof {
        assert(d.take((j - start) as int) =~= d);
    }
    Some(value)
}

/// Once a prefix of digits exceeds `usize::MAX`, the number is not an
/// unsigned value, whatever follows.
proof fn lemma_overflow_rest(d: Seq<char>, k: int)
    requires
        1 <= k <= d.len(),
        all_digits(d.take(k)),
        digits_value(d.take(k)) > usize::MAX,
    ensures
        !(all_digits(d) && digits_value(d) <= usize::MAX),
{
    if all_digits(d) {
        lemma_digits_value_prefix(d, k, d.len() as int);
        assert(d.take(d.len() as int) =~= d);
    }
}

/// A decimal digit character stands for its value.
proof fn lemma_digit_char(d: nat)
    requires
        d < 10,
    ensures
        is_digit(digit_char(d)),
        digit_char(d) as u32 - 48 == d,
{
}

/// The decimal numeral of `n` consists of digits whose value is `n`.
pub proof fn lemma_decimal_digits(n: nat)
    ensures
        decimal(n).len() > 0,
        all_digits(decimal(n)),
        digits_value(decimal(n)) == n,
    decreases n,
{
    if n < 10 {
        lemma_digit_char(n);
        assert(decimal(n).drop_last() =~= Seq::<char>::empty());
        assert(digits_value(decimal(n).drop_last()) == 0);
        assert(decimal(n).last() == digit_char(n));
    } else {
        lemma_decimal_digits(n / 10);
        lemma_digit_char(n % 10);
        let d = decimal(n);
        assert(d.drop_last() =~= decimal(n / 10));
        assert(d.last() == digit_char(n % 10));
        assert((n / 10) * 10 + n % 10 == n);
        assert forall|i: int| 0 <= i < d.len() implies #[trigger] is_digit(d[i]) by {
            if i < d.len() - 1 {
                assert(d[i] == decimal(n / 10)[i]);
            }
        }
    }
}

/// Reading back a decimal numeral gives the number written: what
/// [`decimal`] prints, [`parse_usize`] reads.
pub proof fn law_parse_decimal(n: usize)
    ensures
        parse_usize(decimal(n as nat)) == Some(n),
{
    lemma_decimal_digits(n as nat);
    let d = decimal(n as nat);
    assert(is_digit(d[0]));
}

/// The decimal numeral of a number is its shortest one: digits whose value
/// is the number, and no leading zero (zero itself is written `0`).
pub proof fn law_decimal_numeral(n: nat)
    ensures
        decimal(n).len() > 0,
        all_digits(decimal(n)),
        digits_value(decimal(n)) == n,
        decimal(n)[0] == '0' <==> n == 0,
        n == 0 ==> decimal(n) == seq!['0'],
    decreases n,
{
    lemma_decimal_digits(n);
    if n < 10 {
        assert(decimal(n) =~= seq![digit_char(n)]);
    } else {
        law_decimal_numeral(n / 10);
        assert(decimal(n)[0] == decimal(n / 10)[0]);
    }
}

/// `first_from` lands on the first `c` at or after `i`.
pub proof fn lemma_first_from_at(s: Seq<char>, c: char, i: int, j: int)
    requires
        0 <= i <= j <= s.len(),
        forall|k: int| i <= k < j ==> s[k] != c,
        j == s.len() || s[j] == c,
    ensures
        first_from(s, c, i) == j,
    decreases j - i,
{
    if i < j {
        lemma_first_from_at(s, c, i + 1, j);
    }
}

/// `next_non_ws` lands on the first non-whitespace position at or after `i`.
pub proof fn lemma_next_non_ws_at(s: Seq<char>, i: int, j: int)
    requires
        0 <= i <= j <= s.len(),
        forall|k: int| i <= k < j ==> white_space(#[trigger] s[k]),
        j == s.len() || !white_space(s[j]),
    ensures
        next_non_ws(s, i) == j,
    decreases j - i,
{
    if i < j {
        lemma_next_non_ws_at(s, i + 1, j);
    }
}

/// `next_ws` lands on the first whitespace position at or after `i`.
pub proof fn lemma_next_ws_at(s: Seq<char>, i: int, j: int)
    requires
        0 <= i <= j <= s.len(),
        forall|k: int| i <= k < j ==> !white_space(#[trigger] s[k]),
        j == s.len() || white_space(s[j]),
    ensures
        next_ws(s, i) == j,
    decreases j - i,
{
    if i < j {
        lemma_next_ws_at(s, i + 1, j);
    }
}

} // verus!
