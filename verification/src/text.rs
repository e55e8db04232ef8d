//! Text building: decimal and hexadecimal numerals, code-point labels and
//! JSON string escaping.
use vstd::prelude::*;
use crate::unicode::{control_char, is_control};

verus! {

/// The upper-case hexadecimal digit for `d` (also the decimal digit when `d < 10`).
pub open spec fn digit_char(d: nat) -> char {
    if d == 0 { '0' }
    else if d == 1 { '1' }
    else if d == 2 { '2' }
    else if d == 3 { '3' }
    else if d == 4 { '4' }
    else if d == 5 { '5' }
    else if d == 6 { '6' }
    else if d == 7 { '7' }
    else if d == 8 { '8' }
    else if d == 9 { '9' }
    else if d == 10 { 'A' }
    else if d == 11 { 'B' }
    else if d == 12 { 'C' }
    else if d == 13 { 'D' }
    else if d == 14 { 'E' }
    else { 'F' }
}

/// The decimal numeral of `n`, without leading zeros.
pub open spec fn decimal(n: nat) -> Seq<char>
    decreases n,
{
    if n < 10 {
        seq![digit_char(n)]
    } else {
        decimal(n / 10).push(digit_char(n % 10))
    }
}

/// The upper-case hexadecimal numeral of `n`, without leading zeros.
pub open spec fn hex(n: nat) -> Seq<char>
    decreases n,
{
    if n < 16 {
        seq![digit_char(n)]
    } else {
        hex(n / 16).push(digit_char(n % 16))
    }
}

/// `s` preceded by as many `'0'` as it takes to reach `width` characters.
pub open spec fn zero_pad(s: Seq<char>, width: nat) -> Seq<char> {
    if s.len() >= width {
        s
    } else {
        Seq::new((width - s.len()) as nat, |i: int| '0') + s
    }
}

/// The hexadecimal numeral of the code point of `c`, with at least four digits.
pub open spec fn hex4(c: char) -> Seq<char> {
    zero_pad(hex(c as u32 as nat), 4)
}

/// The label of a code point in `U+XXXX` notation.
pub open spec fn code_point_text(c: char) -> Seq<char> {
    seq!['U', '+'] + hex4(c)
}

/// How one character is written inside a JSON string.
pub open spec fn escape_char(c: char) -> Seq<char> {
    if c == '"' {
        seq!['\\', '"']
    } else if c == '\\' {
        seq!['\\', '\\']
    } else if c == '\n' {
        seq!['\\', 'n']
    } else if c == '\r' {
        seq!['\\', 'r']
    } else if c == '\t' {
        seq!['\\', 't']
    } else if control_char(c) {
        seq!['\\', 'u'] + hex4(c)
    } else {
        seq![c]
    }
}

/// The JSON escaping of a character sequence: each character escaped in turn.
pub open spec fn escaped(s: Seq<char>) -> Seq<char>
    decreases s.len(),
{
    if s.len() == 0 {
        Seq::empty()
    } else {
        escaped(s.drop_last()) + escape_char(s.last())
    }
}

/// Appends one character to a `String` by `String::push`.
/// The contract claims that the string grows by exactly that character,
/// which is what the standard library documents for `push`.
#[verifier::external_body]
pub(crate) fn push_char(s: &mut String, c: char)
    ensures
        final(s)@ == old(s)@.push(c),
{
    s.push(c);
}

/// The digit character for `d`.
pub fn digit(d: u32) -> (c: char)
    requires
        d < 16,
    ensures
        c == digit_char(d as nat),
{
    match d {
        0 => '0',
        1 => '1',
        2 => '2',
        3 => '3',
        4 => '4',
        5 => '5',
        6 => '6',
        7 => '7',
        8 => '8',
        9 => '9',
        10 => 'A',
        11 => 'B',
        12 => 'C',
        13 => 'D',
        14 => 'E',
        _ => 'F',
    }
}

/// Appends the decimal numeral of `n`.
pub fn push_decimal(out: &mut String, n: usize)
    ensures
        final(out)@ == old(out)@ + decimal(n as nat),
    decreases n,
{
    if n >= 10 {
        push_decimal(out, n / 10);
    }
    let d = digit((n % 10) as u32);
    push_char(out, d);
    proof {
        if n < 10 {
            assert(decimal(n as nat) =~= seq![digit_char(n as nat)]);
        }
    }
}

/// Appends the hexadecimal numeral of `n`.
pub fn push_hex(out: &mut String, n: u32)
    ensures
        final(out)@ == old(out)@ + hex(n as nat),
    decreases n,
{
    if n >= 16 {
        push_hex(out, n / 16);
    }
    let d = digit(n % 16);
    push_char(out, d);
    proof {
        if n < 16 {
            assert(hex(n as nat) =~= seq![digit_char(n as nat)]);
        }
    }
}

/// Number of digits of the hexadecimal numeral of `n`.
pub fn hex_len(n: u32) -> (k: usize)
    ensures
        k == hex(n as nat).len(),
        1 <= k <= n + 1,
    decreases n,
{
    if n < 16 {
        1
    } else {
        1 + hex_len(n / 16)
    }
}

/// Appends the hexadecimal numeral of `n` with at least four digits.
pub fn push_hex4(out: &mut String, c: char)
    ensures
        final(out)@ == old(out)@ + hex4(c),
{
    let n = c as u32;
    let k = hex_len(n);
    let ghost start = out@;
    let mut i = k;
    while i < 4
        invariant
            k <= 4 ==> k <= i <= 4,
            k > 4 ==> i == k,
            out@ == start + Seq::new((i - k) as nat, |j: int| '0'),
        decreases 4 - i,
    {
        push_char(out, '0');
        i = i + 1;
        assert(out@ =~= start + Seq::new((i - k) as nat, |j: int| '0'));
    }
    push_hex(out, n);
    proof {
        if k >= 4 {
            assert(out@ =~= start + hex(n as nat));
        } else {
            assert(out@ =~= start + hex4(c));
        }
    }
}

/// The `U+XXXX` label of the code point of `c`.
pub fn code_point_label(c: char) -> (s: String)
    ensures
        s@ == code_point_text(c),
{
    let mut s = String::new();
    push_char(&mut s, 'U');
    push_char(&mut s, '+');
    push_hex4(&mut s, c);
    assert(s@ =~= code_point_text(c));
    s
}

/// Appends the JSON escaping of `c`.
pub fn push_escaped_char(out: &mut String, c: char)
    ensures
        final(out)@ == old(out)@ + escape_char(c),
{
    let ghost start = out@;
    if c == '"' {
        push_char(out, '\\');
        push_char(out, '"');
    } else if c == '\\' {
        push_char(out, '\\');
        push_char(out, '\\');
    } else if c == '\n' {
        push_char(out, '\\');
        push_char(out, 'n');
    } else if c == '\r' {
        push_char(out, '\\');
        push_char(out, 'r');
    } else if c == '\t' {
        push_char(out, '\\');
        push_char(out, 't');
    } else if is_control(c) {
        push_char(out, '\\');
        push_char(out, 'u');
        push_hex4(out, c);
    } else {
        push_char(out, c);
    }
    assert(out@ =~= start + escape_char(c));
}

/// Appends the JSON escaping of the characters of `s`.
pub fn push_escaped(out: &mut String, s: &str)
    ensures
        final(out)@ == old(out)@ + escaped(s@),
{
    let chars = crate::chars_of(s);
    let ghost start = out@;
    let mut i: usize = 0;
    while i < chars.len()
        invariant
            chars@ == s@,
            i <= chars.len(),
            out@ == start + escaped(s@.take(i as int)),
        decreases chars.len() - i,
    {
        let c = chars[i];
        push_escaped_char(out, c);
        proof {
            let t = s@.take(i + 1);
            assert(t.drop_last() =~= s@.take(i as int));
            assert(t.last() == c);
        }
        i = i + 1;
    }
    assert(s@.take(i as int) =~= s@);
}

/// The JSON escaping of `input`: quotes, backslashes, line feeds, carriage
/// returns and tabs get their short escapes, other control characters a
/// `\u` escape, and every other character stands for itself.
pub fn escape_json(input: &str) -> (out: String)
    ensures
        out@ == escaped(input@),
{
    let mut out = String::new();
    push_escaped(&mut out, input);
    assert(out@ =~= escaped(input@));
    out
}

/// The value of a hexadecimal digit character, in either case.
pub open spec fn hex_digit_value(c: char) -> Option<nat> {
    if '0' <= c && c <= '9' {
        Some((c as u32 - 48) as nat)
    } else if 'A' <= c && c <= 'F' {
        Some((c as u32 - 55) as nat)
    } else if 'a' <= c && c <= 'f' {
        Some((c as u32 - 87) as nat)
    } else {
        None
    }
}

/// The value of the four hexadecimal digits at the start of `t`.
pub open spec fn hex4_value(t: Seq<char>) -> Option<nat> {
    if t.len() < 4 {
        None
    } else {
        match (
            hex_digit_value(t[0]),
            hex_digit_value(t[1]),
            hex_digit_value(t[2]),
            hex_digit_value(t[3]),
        ) {
            (Some(a), Some(b), Some(c), Some(d)) => Some(a * 4096 + b * 256 + c * 16 + d),
            _ => None,
        }
    }
}

/// `c` in front of the decoded rest, if the rest decodes.
pub open spec fn prepend(c: char, rest: Option<Seq<char>>) -> Option<Seq<char>> {
    match rest {
        Some(r) => Some(seq![c] + r),
        None => None,
    }
}

/// The characters that the body of a JSON string stands for, following the
/// string grammar of RFC 8259: `None` when it holds a bare quote, a bare
/// control character below U+0020, a dangling or unknown escape, or a `\u`
/// escape of a surrogate. Unlike RFC 8259, an escaped surrogate pair (a
/// character above U+FFFF written as two `\u` escapes) is rejected as well;
/// the escaping in this crate never writes one.
pub open spec fn json_unescape(t: Seq<char>) -> Option<Seq<char>>
    decreases t.len(),
{
    if t.len() == 0 {
        Some(Seq::empty())
    } else if t[0] == '\\' {
        if t.len() < 2 {
            None
        } else if t[1] == '"' {
            prepend('"', json_unescape(t.skip(2)))
        } else if t[1] == '\\' {
            prepend('\\', json_unescape(t.skip(2)))
        } else if t[1] == '/' {
            prepend('/', json_unescape(t.skip(2)))
        } else if t[1] == 'b' {
            prepend('\u{8}', json_unescape(t.skip(2)))
        } else if t[1] == 'f' {
            prepend('\u{c}', json_unescape(t.skip(2)))
        } else if t[1] == 'n' {
            prepend('\n', json_unescape(t.skip(2)))
        } else if t[1] == 'r' {
            prepend('\r', json_unescape(t.skip(2)))
        } else if t[1] == 't' {
            prepend('\t', json_unescape(t.skip(2)))
        } else if t[1] == 'u' {
            match hex4_value(t.skip(2)) {
                Some(v) => if v < 0xD800 || 0xE000 <= v {
                    prepend((v as u32) as char, json_unescape(t.skip(6)))
                } else {
                    None
                },
                None => None,
            }
        } else {
            None
        }
    } else if t[0] == '"' || (t[0] as u32) < 0x20 {
        None
    } else {
        prepend(t[0], json_unescape(t.skip(1)))
    }
}

/// Escaping can be read from the front: the first character's escape, then
/// the escape of the rest.
pub proof fn lemma_escaped_front(s: Seq<char>)
    requires
        s.len() > 0,
    ensures
        escaped(s) == escape_char(s[0]) + escaped(s.drop_first()),
    decreases s.len(),
{
    if s.len() == 1 {
        assert(s.drop_last() =~= Seq::<char>::empty());
        assert(s.drop_first() =~= Seq::<char>::empty());
        assert(escaped(s) =~= escape_char(s[0]) + escaped(s.drop_first()));
    } else {
        lemma_escaped_front(s.drop_last());
        assert(s.drop_last().drop_first() =~= s.drop_first().drop_last());
        assert(s.drop_first().last() == s.last());
        assert(s.drop_last()[0] == s[0]);
        assert(escaped(s) =~= escape_char(s[0]) + escaped(s.drop_first()));
    }
}

/// A digit character reads back as its value.
proof fn lemma_hex_digit_value(d: nat)
    requires
        d < 16,
    ensures
        hex_digit_value(digit_char(d)) == Some(d),
{
}

/// The four-digit code of a control character reads back as its code point.
pub proof fn lemma_hex4_control(c: char)
    requires
        control_char(c),
    ensures
        hex4(c).len() == 4,
        hex4_value(hex4(c)) == Some(c as u32 as nat),
{
    let n = c as u32 as nat;
    if n < 16 {
        assert(hex(n) =~= seq![digit_char(n)]);
        assert(hex4(c) =~= seq!['0', '0', '0', digit_char(n)]);
        lemma_hex_digit_value(n);
        lemma_hex_digit_value(0);
    } else {
        assert(hex(n / 16) =~= seq![digit_char(n / 16)]);
        assert(hex(n) =~= seq![digit_char(n / 16), digit_char(n % 16)]);
        assert(hex4(c) =~= seq!['0', '0', digit_char(n / 16), digit_char(n % 16)]);
        lemma_hex_digit_value(n / 16);
        lemma_hex_digit_value(n % 16);
        lemma_hex_digit_value(0);
    }
}

/// Decoding one escaped character and then the rest.
proof fn lemma_unescape_char(c: char, rest: Seq<char>)
    ensures
        json_unescape(escape_char(c) + rest) == prepend(c, json_unescape(rest)),
{
    let t = escape_char(c) + rest;
    if c == '"' || c == '\\' || c == '\n' || c == '\r' || c == '\t' {
        assert(t.skip(2) =~= rest);
    } else if control_char(c) {
        lemma_hex4_control(c);
        assert(t.skip(2).take(4) =~= hex4(c));
        assert(t.skip(6) =~= rest);
        assert(hex4_value(t.skip(2)) == hex4_value(hex4(c)));
        vstd::utf8::char_u32_cast(c, c as u32);
    } else {
        assert(t.skip(1) =~= rest);
    }
}

/// JSON escaping loses nothing: decoding the escaped text as the body of a
/// JSON string gives back the characters that were escaped.
pub proof fn law_escape_round_trip(s: Seq<char>)
    ensures
        json_unescape(escaped(s)) == Some(s),
    decreases s.len(),
{
    if s.len() == 0 {
        assert(escaped(s) =~= Seq::<char>::empty());
    } else {
        lemma_escaped_front(s);
        law_escape_round_trip(s.drop_first());
        lemma_unescape_char(s[0], escaped(s.drop_first()));
        assert(seq![s[0]] + s.drop_first() =~= s);
    }
}

/// An upper-case hexadecimal digit.
pub open spec fn upper_hex_digit(c: char) -> bool {
    ('0' <= c && c <= '9') || ('A' <= c && c <= 'F')
}

/// The value of a numeral of hexadecimal digits.
pub open spec fn hex_numeral_value(t: Seq<char>) -> int
    decreases t.len(),
{
    if t.len() == 0 {
        0
    } else {
        hex_numeral_value(t.drop_last()) * 16 + match hex_digit_value(t.last()) {
            Some(v) => v as int,
            None => 0,
        }
    }
}

/// The hexadecimal numeral of `n` is upper-case digits worth `n`, without
/// a leading zero unless `n` is zero.
proof fn lemma_hex_numeral(n: nat)
    ensures
        hex(n).len() > 0,
        forall|i: int| 0 <= i < hex(n).len() ==> upper_hex_digit(#[trigger] hex(n)[i]),
        hex_numeral_value(hex(n)) == n,
        hex(n)[0] == '0' <==> n == 0,
        hex(n).len() > 1 ==> n > 0,
    decreases n,
{
    if n < 16 {
        lemma_hex_digit_value(n);
        assert(hex(n) =~= seq![digit_char(n)]);
        assert(hex(n).drop_last() =~= Seq::<char>::empty());
        assert(hex_numeral_value(hex(n).drop_last()) == 0);
    } else {
        lemma_hex_numeral(n / 16);
        lemma_hex_digit_value(n % 16);
        let h = hex(n);
        assert(h.drop_last() =~= hex(n / 16));
        assert(h.last() == digit_char(n % 16));
        assert((n / 16) * 16 + n % 16 == n);
        assert(hex_numeral_value(h) == hex_numeral_value(hex(n / 16)) * 16 + (n % 16) as int);
        assert(h[0] == hex(n / 16)[0]);
        assert forall|i: int| 0 <= i < h.len() implies upper_hex_digit(#[trigger] h[i]) by {
            if i < h.len() - 1 {
                assert(h[i] == hex(n / 16)[i]);
            }
        }
    }
}

/// Leading zeros add nothing to the value of a numeral.
proof fn lemma_zeros_prefix_value(k: nat, t: Seq<char>)
    ensures
        hex_numeral_value(Seq::new(k, |i: int| '0') + t) == hex_numeral_value(t),
    decreases k + t.len(),
{
    let z = Seq::new(k, |i: int| '0');
    if t.len() == 0 {
        assert(z + t =~= z);
        if k > 0 {
            assert(z.drop_last() =~= Seq::new((k - 1) as nat, |i: int| '0') + t);
            lemma_zeros_prefix_value((k - 1) as nat, t);
        }
    } else {
        assert((z + t).drop_last() =~= z + t.drop_last());
        lemma_zeros_prefix_value(k, t.drop_last());
    }
}

/// The label of a code point is `U+` and then its code point in upper-case
/// hexadecimal, padded with zeros to four digits and no further.
pub proof fn law_code_point_label(c: char)
    ensures
        code_point_text(c).len() >= 6,
        code_point_text(c).take(2) == seq!['U', '+'],
        forall|i: int| 2 <= i < code_point_text(c).len() ==> upper_hex_digit(#[trigger] code_point_text(c)[i]),
        hex_numeral_value(code_point_text(c).skip(2)) == c as u32,
        code_point_text(c).len() > 6 ==> code_point_text(c)[2] != '0',
{
    let n = c as u32 as nat;
    let h = hex(n);
    lemma_hex_numeral(n);
    let t = hex4(c);
    assert(code_point_text(c).skip(2) =~= t);
    assert(code_point_text(c).take(2) =~= seq!['U', '+']);
    if h.len() < 4 {
        let k = (4 - h.len()) as nat;
        assert(t == Seq::new(k, |i: int| '0') + h);
        lemma_zeros_prefix_value(k, h);
        assert forall|i: int| 0 <= i < t.len() implies upper_hex_digit(#[trigger] t[i]) by {
            if i >= k {
                assert(t[i] == h[i - k]);
            }
        }
    }
    assert forall|i: int| 2 <= i < code_point_text(c).len() implies upper_hex_digit(
        #[trigger] code_point_text(c)[i],
    ) by {
        assert(code_point_text(c)[i] == t[i - 2]);
    }
}

/// Text without quotes, backslashes and control characters is written
/// into a JSON string as it is.
pub proof fn law_escape_plain_text(t: Seq<char>)
    requires
        forall|i: int| 0 <= i < t.len() ==> #[trigger] t[i] != '"' && t[i] != '\\' && !control_char(t[i]),
    ensures
        escaped(t) == t,
    decreases t.len(),
{
    if t.len() > 0 {
        let d = t.drop_last();
        assert forall|i: int| 0 <= i < d.len() implies #[trigger] d[i] != '"' && d[i] != '\\'
            && !control_char(d[i]) by {
            assert(d[i] == t[i]);
        }
        law_escape_plain_text(d);
        assert(t.last() == t[t.len() - 1]);
        assert(control_char('\n') && control_char('\r') && control_char('\t'));
        assert(escaped(t) =~= t);
    }
}

} // verus!
