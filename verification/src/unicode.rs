//! Character properties used by the analyzer: line breaks, the Unicode
//! `Cc` (control) category, the Unicode `White_Space` property and the
//! UTF-8 width of a character.
use vstd::prelude::*;
use vstd::utf8::*;

verus! {

/// The characters that end a line: LF, CR, LINE SEPARATOR and PARAGRAPH SEPARATOR.
pub open spec fn line_break(c: char) -> bool {
    c == '\n' || c == '\r' || c == '\u{2028}' || c == '\u{2029}'
}

/// Characters of the general category `Cc`: U+0000..=U+001F and U+007F..=U+009F.
pub open spec fn control_char(c: char) -> bool {
    (c as u32) <= 0x1F || (0x7F <= (c as u32) && (c as u32) <= 0x9F)
}

/// Characters with the Unicode `White_Space` property.
pub open spec fn white_space(c: char) -> bool {
    let u = c as u32;
    ||| 0x09 <= u <= 0x0D
    ||| u == 0x20
    ||| u == 0x85
    ||| u == 0xA0
    ||| u == 0x1680
    ||| 0x2000 <= u <= 0x200A
    ||| u == 0x2028
    ||| u == 0x2029
    ||| u == 0x202F
    ||| u == 0x205F
    ||| u == 0x3000
}

/// Number of bytes of the UTF-8 encoding of a character sequence.
pub open spec fn utf8_len(s: Seq<char>) -> nat {
    encode_utf8(s).len()
}

/// Whether `c` ends a line.
pub fn is_line_break(ch: char) -> (res: bool)
    ensures
        res == line_break(ch),
{
    ch == '\n' || ch == '\r' || ch == '\u{2028}' || ch == '\u{2029}'
}

/// Whether `c` is a control character (general category `Cc`).
pub fn is_control(ch: char) -> (res: bool)
    ensures
        res == control_char(ch),
{
    ch <= '\u{1F}' || ('\u{7F}' <= ch && ch <= '\u{9F}')
}

/// Whether `c` has the Unicode `White_Space` property.
pub fn is_whitespace(ch: char) -> (res: bool)
    ensures
        res == white_space(ch),
{
    ('\u{09}' <= ch && ch <= '\u{0D}') || ch == ' ' || ch == '\u{85}' || ch == '\u{A0}'
        || ch == '\u{1680}' || ('\u{2000}' <= ch && ch <= '\u{200A}') || ch == '\u{2028}'
        || ch == '\u{2029}' || ch == '\u{202F}' || ch == '\u{205F}' || ch == '\u{3000}'
}

/// Number of bytes of the UTF-8 encoding of `ch`.
pub fn len_utf8(ch: char) -> (n: usize)
    ensures
        n == encode_scalar(ch as u32).len(),
        1 <= n <= 4,
{
    proof {
        char_is_scalar(ch);
    }
    if ch <= '\u{7F}' {
        1
    } else if ch <= '\u{7FF}' {
        2
    } else if ch <= '\u{FFFF}' {
        3
    } else {
        4
    }
}

/// The encoding of a concatenation is the concatenation of the encodings.
pub proof fn lemma_encode_utf8_concat(a: Seq<char>, b: Seq<char>)
    ensures
        encode_utf8(a + b) == encode_utf8(a) + encode_utf8(b),
    decreases a.len(),
{
    if a.len() == 0 {
        assert(a + b =~= b);
        assert(encode_utf8(a) + encode_utf8(b) =~= encode_utf8(b));
    } else {
        assert((a + b).drop_first() =~= a.drop_first() + b);
        lemma_encode_utf8_concat(a.drop_first(), b);
        assert(encode_utf8(a + b) =~= encode_utf8(a) + encode_utf8(b));
    }
}

/// Every character takes between one and four bytes.
pub proof fn lemma_encode_scalar_len(c: char)
    ensures
        1 <= encode_scalar(c as u32).len() <= 4,
{
    char_is_scalar(c);
}

/// Appending a character adds the width of its encoding.
pub proof fn lemma_utf8_len_push(s: Seq<char>, c: char)
    ensures
        utf8_len(s.push(c)) == utf8_len(s) + encode_scalar(c as u32).len(),
{
    lemma_encode_utf8_concat(s, seq![c]);
    assert(s.push(c) =~= s + seq![c]);
    let one = seq![c];
    assert(one.drop_first() =~= Seq::<char>::empty());
    assert(encode_utf8(one.drop_first()) =~= Seq::<u8>::empty());
    assert(one[0] == c);
    assert(encode_utf8(one) =~= encode_scalar(c as u32));
}

/// A sequence takes at least as many bytes as it has characters.
pub proof fn lemma_utf8_len_bounds(s: Seq<char>)
    ensures
        s.len() <= utf8_len(s) <= 4 * s.len(),
    decreases s.len(),
{
    if s.len() > 0 {
        lemma_utf8_len_bounds(s.drop_first());
        lemma_encode_scalar_len(s[0]);
    }
}

/// The encoding of a prefix is no longer than the encoding of the whole.
pub proof fn lemma_utf8_len_prefix(s: Seq<char>, i: int)
    requires
        0 <= i <= s.len(),
    ensures
        utf8_len(s.take(i)) <= utf8_len(s),
{
    lemma_encode_utf8_concat(s.take(i), s.skip(i));
    assert(s.take(i) + s.skip(i) =~= s);
}

/// Bytes of a UTF-8 encoding of more than one byte all have the high bit set.
proof fn lemma_high_bit(x: u8)
    ensures
        (0x80u8 | x) >= 0x80,
        (0xC0u8 | x) >= 0x80,
        (0xE0u8 | x) >= 0x80,
        (0xF0u8 | x) >= 0x80,
{
    assert((0x80u8 | x) >= 0x80) by (bit_vector);
    assert((0xC0u8 | x) >= 0x80) by (bit_vector);
    assert((0xE0u8 | x) >= 0x80) by (bit_vector);
    assert((0xF0u8 | x) >= 0x80) by (bit_vector);
}

/// The encoding of the first character, then that of the rest.
pub proof fn lemma_encode_utf8_front(s: Seq<char>)
    requires
        s.len() > 0,
    ensures
        encode_utf8(s) == encode_scalar(s[0] as u32) + encode_utf8(s.drop_first()),
        utf8_len(s) == encode_scalar(s[0] as u32).len() + utf8_len(s.drop_first()),
{
}

/// The encoded length of prefixes grows strictly with their length.
pub proof fn lemma_utf8_len_take_strict(s: Seq<char>, i: int, j: int)
    requires
        0 <= i < j <= s.len(),
    ensures
        utf8_len(s.take(i)) < utf8_len(s.take(j)),
    decreases j - i,
{
    assert(s.take(j) =~= s.take(j - 1).push(s[j - 1]));
    lemma_utf8_len_push(s.take(j - 1), s[j - 1]);
    lemma_encode_scalar_len(s[j - 1]);
    if i < j - 1 {
        lemma_utf8_len_take_strict(s, i, j - 1);
    }
}

/// A byte below 0x80 in a UTF-8 encoding is a whole character: the
/// character whose encoding starts at that byte.
pub proof fn lemma_ascii_byte_is_char(s: Seq<char>, k: int)
    requires
        0 <= k < utf8_len(s),
        encode_utf8(s)[k] < 0x80,
    ensures
        exists|i: int|
            0 <= i < s.len() && utf8_len(s.take(i)) == k && #[trigger] s[i] as u32 == encode_utf8(
                s,
            )[k] as u32,
    decreases s.len(),
{
    lemma_encode_utf8_front(s);
    let c = s[0] as u32;
    let w = encode_scalar(c).len() as int;
    char_is_scalar(s[0]);
    assert(s.take(0) =~= Seq::<char>::empty());
    assert(utf8_len(Seq::<char>::empty()) == 0);
    if k < w {
        assert(encode_utf8(s)[k] == encode_scalar(c)[k]);
        if has_width_1_encoding(c) {
            assert(encode_scalar(c)[0] == (c & 0x7F) as u8);
            assert((c & 0x7F) as u8 as u32 == c) by (bit_vector)
                requires
                    c <= 0x7F,
            ;
            assert(s[0] as u32 == encode_utf8(s)[0] as u32);
        } else if has_width_2_encoding(c) {
            lemma_high_bit(((c >> 6) & 0x1F) as u8);
            lemma_high_bit((c & 0x3F) as u8);
        } else if has_width_3_encoding(c) {
            lemma_high_bit(((c >> 12) & 0x0F) as u8);
            lemma_high_bit(((c >> 6) & 0x3F) as u8);
            lemma_high_bit((c & 0x3F) as u8);
        } else {
            lemma_high_bit(((c >> 18) & 0x7) as u8);
            lemma_high_bit(((c >> 12) & 0x3F) as u8);
            lemma_high_bit(((c >> 6) & 0x3F) as u8);
            lemma_high_bit((c & 0x3F) as u8);
        }
    } else {
        let r = s.drop_first();
        assert(encode_utf8(s)[k] == encode_utf8(r)[k - w]);
        lemma_ascii_byte_is_char(r, k - w);
        let i = choose|i: int|
            0 <= i < r.len() && utf8_len(r.take(i)) == k - w && #[trigger] r[i] as u32
                == encode_utf8(r)[k - w] as u32;
        assert(s.take(i + 1) =~= seq![s[0]] + r.take(i));
        lemma_encode_utf8_concat(seq![s[0]], r.take(i));
        assert(seq![s[0]].drop_first() =~= Seq::<char>::empty());
        assert(encode_utf8(seq![s[0]]) =~= encode_scalar(c));
        assert(s[i + 1] == r[i]);
    }
}

} // verus!
