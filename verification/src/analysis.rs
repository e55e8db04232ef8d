//! Analysis of pasted text: which hidden characters it holds, where they
//! stand (character index, byte offset, line and column), and how many
//! characters, bytes and lines the text has.
use vstd::prelude::*;
use crate::classify::{hidden, hidden_class, classify_hidden_character};
use crate::text::{code_point_label, code_point_text};
use crate::unicode::{line_break, utf8_len, is_line_break, len_utf8, lemma_utf8_len_push,
    lemma_utf8_len_bounds, lemma_utf8_len_prefix};

verus! {

/// A reported hidden character, as mathematical values.
pub struct FindingView {
    pub char_index: nat,
    pub byte_index: nat,
    pub line: nat,
    pub column: nat,
    pub code_point: Seq<char>,
    pub name: Seq<char>,
    pub category: Seq<char>,
    pub marker: Seq<char>,
    pub description: Seq<char>,
}

/// The result of an analysis, as mathematical values.
pub struct AnalysisView {
    pub total_chars: nat,
    pub total_bytes: nat,
    pub line_count: nat,
    pub invisible_count: nat,
    pub findings: Seq<FindingView>,
}

/// A hidden character found in the analyzed text.
#[derive(Debug, Clone, PartialEq, Eq)]
pub struct HiddenCharacter {
    pub char_index: usize,
    pub byte_index: usize,
    pub line: usize,
    pub column: usize,
    pub code_point: String,
    pub name: &'static str,
    pub category: &'static str,
    pub marker: &'static str,
    pub description: &'static str,
}

impl View for HiddenCharacter {
    type V = FindingView;

    open spec fn view(&self) -> FindingView {
        FindingView {
            char_index: self.char_index as nat,
            byte_index: self.byte_index as nat,
            line: self.line as nat,
            column: self.column as nat,
            code_point: self.code_point@,
            name: self.name@,
            category: self.category@,
            marker: self.marker@,
            description: self.description@,
        }
    }
}

/// The result of analyzing a piece of text.
#[derive(Debug, Clone, PartialEq, Eq)]
pub struct ClipboardAnalysis {
    pub total_chars: usize,
    pub total_bytes: usize,
    pub line_count: usize,
    pub invisible_count: usize,
    pub findings: Vec<HiddenCharacter>,
}

/// The views of a sequence of findings.
pub open spec fn findings_view(fs: Seq<HiddenCharacter>) -> Seq<FindingView> {
    fs.map_values(|f: HiddenCharacter| f@)
}

impl View for ClipboardAnalysis {
    type V = AnalysisView;

    open spec fn view(&self) -> AnalysisView {
        AnalysisView {
            total_chars: self.total_chars as nat,
            total_bytes: self.total_bytes as nat,
            line_count: self.line_count as nat,
            invisible_count: self.invisible_count as nat,
            findings: findings_view(self.findings@),
        }
    }
}

/// Position `i` holds the line feed of a CR LF pair; such a line feed is
/// taken together with its carriage return and is neither reported nor
/// counted on its own.
pub open spec fn crlf_tail(s: Seq<char>, i: int) -> bool {
    1 <= i < s.len() && s[i - 1] == '\r' && s[i] == '\n'
}

/// A new line begins at position `k` (`1 <= k <= s.len()`): the character
/// before it ends a line and is not the carriage return of a CR LF pair.
pub open spec fn starts_line(s: Seq<char>, k: int) -> bool {
    1 <= k <= s.len() && line_break(s[k - 1]) && !crlf_tail(s, k)
}

/// Number of positions in `1..=i` where a new line begins.
pub open spec fn lines_before(s: Seq<char>, i: int) -> nat
    decreases i,
{
    if i <= 0 {
        0
    } else {
        lines_before(s, i - 1) + if starts_line(s, i) { 1nat } else { 0nat }
    }
}

/// The position where the line holding position `i` begins.
pub open spec fn line_start(s: Seq<char>, i: int) -> int
    decreases i,
{
    if i <= 0 {
        0
    } else if starts_line(s, i) {
        i
    } else {
        line_start(s, i - 1)
    }
}

/// 1-based line number of position `i`.
pub open spec fn line_of(s: Seq<char>, i: int) -> nat {
    1 + lines_before(s, i)
}

/// 1-based column of position `i` within its line.
pub open spec fn column_of(s: Seq<char>, i: int) -> nat {
    (i - line_start(s, i) + 1) as nat
}

/// Position `i` is examined by the analyzer (it is not the line feed of a CR LF pair).
pub open spec fn examined(s: Seq<char>, i: int) -> bool {
    0 <= i < s.len() && !crlf_tail(s, i)
}

/// What is reported for the hidden character at position `i`.
pub open spec fn finding_at(s: Seq<char>, i: int) -> FindingView {
    let k = hidden_class(s[i])->0;
    FindingView {
        char_index: i as nat,
        byte_index: utf8_len(s.take(i)),
        line: line_of(s, i),
        column: column_of(s, i),
        code_point: code_point_text(s[i]),
        name: k.name,
        category: k.category,
        marker: k.marker,
        description: k.description,
    }
}

/// The findings among the first `i` positions, in order of position.
pub open spec fn findings_upto(s: Seq<char>, i: int) -> Seq<FindingView>
    decreases i,
{
    if i <= 0 {
        Seq::empty()
    } else if examined(s, i - 1) && hidden(s[i - 1]) {
        findings_upto(s, i - 1).push(finding_at(s, i - 1))
    } else {
        findings_upto(s, i - 1)
    }
}

/// Number of lines of `s`: one more than the number of line breaks, a CR LF
/// pair counting once.
pub open spec fn line_total(s: Seq<char>) -> nat {
    1 + lines_before(s, s.len() as int)
}

/// The analysis of `s`.
pub open spec fn analysis(s: Seq<char>) -> AnalysisView {
    let fs = findings_upto(s, s.len() as int);
    AnalysisView {
        total_chars: s.len(),
        total_bytes: utf8_len(s),
        line_count: line_total(s),
        invisible_count: fs.len(),
        findings: fs,
    }
}

/// At most one line begins at each position.
pub proof fn lemma_lines_before_bound(s: Seq<char>, i: int)
    ensures
        lines_before(s, i) <= if i <= 0 { 0 } else { i },
    decreases i,
{
    if i > 0 {
        lemma_lines_before_bound(s, i - 1);
    }
}

/// The line holding position `i` begins at or before `i`.
pub proof fn lemma_line_start_bound(s: Seq<char>, i: int)
    requires
        i >= 0,
    ensures
        0 <= line_start(s, i) <= i,
    decreases i,
{
    if i > 0 {
        lemma_line_start_bound(s, i - 1);
    }
}

/// Counts the lines of `input`: one more than the number of line breaks,
/// where a CR LF pair counts as a single break. (No text of `usize::MAX`
/// bytes fits in memory; such a length is excluded.)
pub fn count_lines(input: &str) -> (count: usize)
    requires
        utf8_len(input@) < usize::MAX,
    ensures
        count == line_total(input@),
{
    let chars = crate::chars_of(input);
    let ghost s = input@;
    let n = chars.len();
    proof {
        lemma_utf8_len_bounds(s);
    }
    let mut line_count: usize = 1;
    let mut i: usize = 0;
    while i < n
        invariant
            chars@ == s,
            n == s.len(),
            n < usize::MAX,
            i <= n,
            line_count == 1 + lines_before(s, i as int),
        decreases n - i,
    {
        proof {
            lemma_lines_before_bound(s, i as int);
        }
        let ch = chars[i];
        if ch == '\r' && i + 1 < n && chars[i + 1] == '\n' {
            i = i + 1;
            continue;
        }
        if is_line_break(ch) {
            line_count = line_count + 1;
        }
        i = i + 1;
    }
    line_count
}

/// Analyzes pasted text: counts its characters, bytes and lines and reports
/// every hidden character with its character index, byte offset, line,
/// column and classification. The line feed of a CR LF pair belongs to its
/// carriage return and is not reported. (No text of `usize::MAX` bytes
/// fits in memory; such a length is excluded.)
pub fn analyze_clipboard_text(input: &str) -> (res: ClipboardAnalysis)
    requires
        utf8_len(input@) < usize::MAX,
    ensures
        res@ == analysis(input@),
        res.total_chars == input@.len(),
        res.total_bytes == vstd::utf8::encode_utf8(input@).len(),
{
    let chars = crate::chars_of(input);
    let ghost s = input@;
    let n = chars.len();
    let total_bytes = input.len();
    let mut findings: Vec<HiddenCharacter> = Vec::new();
    let mut line: usize = 1;
    let mut column: usize = 1;
    let mut byte_index: usize = 0;
    let mut i: usize = 0;
    proof {
        lemma_utf8_len_bounds(s);
        assert(s.take(0) =~= Seq::<char>::empty());
    }
    while i < n
        invariant
            chars@ == s,
            n == s.len(),
            n < usize::MAX,
            total_bytes == utf8_len(s),
            i <= n,
            !crlf_tail(s, i as int),
            line == line_of(s, i as int),
            column == column_of(s, i as int),
            byte_index == utf8_len(s.take(i as int)),
            findings_view(findings@) == findings_upto(s, i as int),
        decreases n - i,
    {
        proof {
            lemma_lines_before_bound(s, i as int);
            lemma_line_start_bound(s, i as int);
            lemma_utf8_len_prefix(s, i as int + 1);
            assert(s.take(i as int + 1) =~= s.take(i as int).push(s[i as int]));
            lemma_utf8_len_push(s.take(i as int), s[i as int]);
        }
        let ch = chars[i];
        let w = len_utf8(ch);
        match classify_hidden_character(ch) {
            Some(k) => {
                let f = HiddenCharacter {
                    char_index: i,
                    byte_index,
                    line,
                    column,
                    code_point: code_point_label(ch),
                    name: k.name,
                    category: k.category,
                    marker: k.marker,
                    description: k.description,
                };
                let ghost before = findings@;
                findings.push(f);
                proof {
                    assert(findings_view(findings@) =~= findings_view(before).push(f@));
                    assert(f@ == finding_at(s, i as int));
                }
            },
            None => {},
        }
        assert(findings_view(findings@) == findings_upto(s, i as int + 1));
        if ch == '\r' && i + 1 < n && chars[i + 1] == '\n' {
            proof {
                lemma_utf8_len_prefix(s, i as int + 2);
                assert(s.take(i as int + 2) =~= s.take(i as int + 1).push(s[i as int + 1]));
                lemma_utf8_len_push(s.take(i as int + 1), s[i as int + 1]);
                assert(findings_upto(s, i as int + 2) == findings_upto(s, i as int + 1));
                assert(starts_line(s, i as int + 2));
                assert(!starts_line(s, i as int + 1));
                assert(lines_before(s, i as int + 1) == lines_before(s, i as int));
                assert(lines_before(s, i as int + 2) == lines_before(s, i as int) + 1);
                assert(line_start(s, i as int + 2) == i + 2);
            }
            byte_index = byte_index + w + 1;
            line = line + 1;
            column = 1;
            i = i + 2;
        } else if is_line_break(ch) {
            proof {
                assert(starts_line(s, i as int + 1));
                assert(lines_before(s, i as int + 1) == lines_before(s, i as int) + 1);
                assert(line_start(s, i as int + 1) == i + 1);
            }
            byte_index = byte_index + w;
            line = line + 1;
            column = 1;
            i = i + 1;
        } else {
            proof {
                assert(!starts_line(s, i as int + 1));
                assert(lines_before(s, i as int + 1) == lines_before(s, i as int));
                assert(line_start(s, i as int + 1) == line_start(s, i as int));
            }
            byte_index = byte_index + w;
            column = column + 1;
            i = i + 1;
        }
    }
    let line_count = count_lines(input);
    let invisible_count = findings.len();
    proof {
        assert(findings_view(findings@).len() == findings@.len());
    }
    ClipboardAnalysis { total_chars: n, total_bytes, line_count, invisible_count, findings }
}

/// Lines are numbered in order: a later position never lies on an earlier line.
pub proof fn lemma_lines_before_monotone(s: Seq<char>, i: int, j: int)
    requires
        i <= j,
    ensures
        lines_before(s, i) <= lines_before(s, j),
    decreases j - i,
{
    if i < j {
        lemma_lines_before_monotone(s, i, j - 1);
    }
}

/// What the findings among the first `i` positions are: each is the report
/// of an examined hidden character at a position below `i`, they come in
/// increasing order of position, and every examined hidden character below
/// `i` is among them.
pub proof fn lemma_findings_upto(s: Seq<char>, i: int)
    requires
        0 <= i <= s.len(),
    ensures
        forall|k: int|
            0 <= k < findings_upto(s, i).len() ==> {
                let c = #[trigger] findings_upto(s, i)[k].char_index as int;
                &&& c < i
                &&& examined(s, c)
                &&& hidden(s[c])
                &&& findings_upto(s, i)[k] == finding_at(s, c)
            },
        forall|k: int, m: int|
            0 <= k < m < findings_upto(s, i).len() ==> #[trigger] findings_upto(s, i)[k].char_index
                < #[trigger] findings_upto(s, i)[m].char_index,
        forall|p: int|
            0 <= p < i && examined(s, p) && hidden(s[p]) ==> exists|k: int|
                0 <= k < findings_upto(s, i).len() && #[trigger] findings_upto(s, i)[k].char_index
                    == p,
    decreases i,
{
    if i > 0 {
        lemma_findings_upto(s, i - 1);
        let prev = findings_upto(s, i - 1);
        let cur = findings_upto(s, i);
        if examined(s, i - 1) && hidden(s[i - 1]) {
            assert(cur == prev.push(finding_at(s, i - 1)));
            assert forall|p: int| 0 <= p < i && examined(s, p) && hidden(s[p]) implies exists|k: int|
                0 <= k < cur.len() && #[trigger] cur[k].char_index == p by {
                if p == i - 1 {
                    assert(cur[prev.len() as int].char_index == p);
                } else {
                    let k = choose|k: int| 0 <= k < prev.len() && #[trigger] prev[k].char_index == p;
                    assert(cur[k] == prev[k]);
                }
            }
        }
    }
}

/// Every finding reports an examined hidden character at its own position,
/// with the classification, code point, byte offset, line and column of that
/// position; findings come in increasing order of position; and the count of
/// invisible characters is the number of findings.
pub proof fn law_findings_sound(s: Seq<char>)
    ensures
        analysis(s).invisible_count == analysis(s).findings.len(),
        forall|k: int|
            0 <= k < analysis(s).findings.len() ==> {
                let c = #[trigger] analysis(s).findings[k].char_index as int;
                &&& c < s.len()
                &&& examined(s, c)
                &&& hidden(s[c])
                &&& analysis(s).findings[k] == finding_at(s, c)
            },
        forall|k: int, m: int|
            0 <= k < m < analysis(s).findings.len() ==> #[trigger] analysis(s).findings[k].char_index
                < #[trigger] analysis(s).findings[m].char_index,
{
    lemma_findings_upto(s, s.len() as int);
}

/// Every hidden character is reported, except the line feed of a CR LF pair,
/// which belongs to its carriage return.
pub proof fn law_findings_complete(s: Seq<char>, p: int)
    requires
        0 <= p < s.len(),
        hidden(s[p]),
        !crlf_tail(s, p),
    ensures
        exists|k: int|
            0 <= k < analysis(s).findings.len() && #[trigger] analysis(s).findings[k].char_index == p,
{
    lemma_findings_upto(s, s.len() as int);
    let fs = findings_upto(s, s.len() as int);
    assert(examined(s, p));
    let k = choose|k: int| 0 <= k < fs.len() && #[trigger] fs[k].char_index == p;
    assert(analysis(s).findings[k].char_index == p);
}

/// The positions in a finding lie within the text: the line is between 1
/// and the line count, the column is at least 1, and the character starts
/// before the end of the text's bytes. Lines never decrease from one
/// finding to the next.
pub proof fn law_finding_positions(s: Seq<char>)
    ensures
        forall|k: int|
            0 <= k < analysis(s).findings.len() ==> {
                let f = #[trigger] analysis(s).findings[k];
                &&& 1 <= f.line <= analysis(s).line_count
                &&& 1 <= f.column
                &&& f.byte_index < analysis(s).total_bytes
            },
        forall|k: int, m: int|
            0 <= k < m < analysis(s).findings.len() ==> #[trigger] analysis(s).findings[k].line
                <= #[trigger] analysis(s).findings[m].line,
{
    let fs = analysis(s).findings;
    lemma_findings_upto(s, s.len() as int);
    assert forall|k: int| 0 <= k < fs.len() implies {
        let f = #[trigger] fs[k];
        &&& 1 <= f.line <= analysis(s).line_count
        &&& 1 <= f.column
        &&& f.byte_index < analysis(s).total_bytes
    } by {
        let c = fs[k].char_index as int;
        lemma_lines_before_monotone(s, c, s.len() as int);
        lemma_line_start_bound(s, c);
        lemma_utf8_len_prefix(s, c + 1);
        assert(s.take(c + 1) =~= s.take(c).push(s[c]));
        lemma_utf8_len_push(s.take(c), s[c]);
        crate::unicode::lemma_encode_scalar_len(s[c]);
    }
    assert forall|k: int, m: int| 0 <= k < m < fs.len() implies #[trigger] fs[k].line
        <= #[trigger] fs[m].line by {
        lemma_lines_before_monotone(s, fs[k].char_index as int, fs[m].char_index as int);
    }
}

/// Text without hidden characters has no findings.
pub proof fn law_clean_text(s: Seq<char>)
    requires
        forall|i: int| 0 <= i < s.len() ==> !hidden(#[trigger] s[i]),
    ensures
        analysis(s).findings.len() == 0,
        analysis(s).invisible_count == 0,
{
    lemma_findings_upto(s, s.len() as int);
    if analysis(s).findings.len() > 0 {
        let c = analysis(s).findings[0].char_index as int;
        assert(hidden(s[c]));
    }
}

/// Text without line breaks is a single line.
pub proof fn law_single_line(s: Seq<char>)
    requires
        forall|i: int| 0 <= i < s.len() ==> !line_break(#[trigger] s[i]),
    ensures
        analysis(s).line_count == 1,
{
    lemma_no_line_starts(s, s.len() as int);
}

/// Without line breaks no line begins anywhere.
proof fn lemma_no_line_starts(s: Seq<char>, i: int)
    requires
        forall|j: int| 0 <= j < s.len() ==> !line_break(#[trigger] s[j]),
        i <= s.len(),
    ensures
        lines_before(s, i) == 0,
    decreases i,
{
    if i > 0 {
        lemma_no_line_starts(s, i - 1);
        assert(!line_break(s[i - 1]));
    }
}

/// Within the first text, joining another text after it changes nothing
/// before its last position.
proof fn lemma_lines_before_join_left(a: Seq<char>, b: Seq<char>, i: int)
    requires
        0 <= i < a.len(),
    ensures
        lines_before(a + b, i) == lines_before(a, i),
    decreases i,
{
    if i > 0 {
        lemma_lines_before_join_left(a, b, i - 1);
        assert((a + b)[i - 1] == a[i - 1]);
        assert((a + b)[i] == a[i]);
    }
}

/// Past the end of the first text, lines begin where they begin in the second.
proof fn lemma_lines_before_join_right(a: Seq<char>, b: Seq<char>, j: int)
    requires
        0 <= j <= b.len(),
    ensures
        lines_before(a + b, a.len() + j) == lines_before(a + b, a.len() as int) + lines_before(b, j),
    decreases j,
{
    if j > 0 {
        lemma_lines_before_join_right(a, b, j - 1);
        let s = a + b;
        let k = a.len() + j;
        assert(s[k - 1] == b[j - 1]);
        if j < b.len() {
            assert(s[k] == b[j]);
        }
        assert(starts_line(s, k) == starts_line(b, j));
    }
}

/// The line holding position `i` begins at the text's start or just after
/// a line break, and no line begins after that up to `i`.
proof fn lemma_line_start_is_last(s: Seq<char>, i: int)
    requires
        0 <= i,
    ensures
        line_start(s, i) == 0 || starts_line(s, line_start(s, i)),
        forall|j: int| line_start(s, i) < j <= i ==> !starts_line(s, j),
    decreases i,
{
    if i > 0 && !starts_line(s, i) {
        lemma_line_start_is_last(s, i - 1);
    }
}

/// Columns count from the last line break: a finding's column is one more
/// than the number of characters between it and the line break before it
/// (LF, CR, LINE SEPARATOR or PARAGRAPH SEPARATOR), or the start of the
/// text; the character just after a line break is in column 1.
pub proof fn law_finding_columns(s: Seq<char>)
    ensures
        forall|j: int|
            0 <= j < analysis(s).findings.len() ==> {
                let f = #[trigger] analysis(s).findings[j];
                let k = f.char_index as int;
                let m = k - f.column + 1;
                &&& 1 <= f.column <= k + 1
                &&& m == 0 || s[m - 1] == '\n' || s[m - 1] == '\r' || s[m - 1] == '\u{2028}'
                    || s[m - 1] == '\u{2029}'
                &&& forall|i: int|
                    m <= i < k ==> !(s[i] == '\n' || s[i] == '\r' || s[i] == '\u{2028}' || s[i]
                        == '\u{2029}')
            },
{
    law_findings_sound(s);
    assert forall|j: int| 0 <= j < analysis(s).findings.len() implies {
        let f = #[trigger] analysis(s).findings[j];
        let k = f.char_index as int;
        let m = k - f.column + 1;
        &&& 1 <= f.column <= k + 1
        &&& m == 0 || s[m - 1] == '\n' || s[m - 1] == '\r' || s[m - 1] == '\u{2028}'
            || s[m - 1] == '\u{2029}'
        &&& forall|i: int|
            m <= i < k ==> !(s[i] == '\n' || s[i] == '\r' || s[i] == '\u{2028}' || s[i]
                == '\u{2029}')
    } by {
        let f = analysis(s).findings[j];
        let k = f.char_index as int;
        lemma_line_start_bound(s, k);
        lemma_line_start_is_last(s, k);
        let m = line_start(s, k);
        assert(f.column == k - m + 1);
        assert forall|i: int| m <= i < k implies !(s[i] == '\n' || s[i] == '\r' || s[i]
            == '\u{2028}' || s[i] == '\u{2029}') by {
            if s[i] == '\n' || s[i] == '\r' || s[i] == '\u{2028}' || s[i] == '\u{2029}' {
                if crlf_tail(s, i + 1) {
                    assert(!starts_line(s, i + 2));
                } else {
                    assert(!starts_line(s, i + 1));
                }
            }
        }
    }
}

/// The totals of an analysis: the number of characters of the text and
/// the number of bytes of its UTF-8 encoding, every character counted,
/// line breaks included.
pub proof fn law_totals(s: Seq<char>)
    ensures
        analysis(s).total_chars == s.len(),
        analysis(s).total_bytes == vstd::utf8::encode_utf8(s).len(),
{
}

/// Joining two texts: the lines of the whole are those of both parts, the
/// last line of the first running on into the first line of the second;
/// when the first ends with a carriage return and the second begins with a
/// line feed, that CR LF pair is a single break, one fewer line.
/// ([`count_lines`] counts `line_total`.)
pub proof fn law_line_total_join(a: Seq<char>, b: Seq<char>)
    ensures
        line_total(a + b) + 1 + (if a.len() > 0 && b.len() > 0 && a.last() == '\r' && b[0] == '\n' {
            1int
        } else {
            0int
        }) == line_total(a) + line_total(b),
{
    let s = a + b;
    lemma_lines_before_join_right(a, b, b.len() as int);
    assert(s.len() == a.len() + b.len());
    if a.len() > 0 {
        lemma_lines_before_join_left(a, b, a.len() - 1);
        let k = a.len() as int;
        assert(s[k - 1] == a[k - 1]);
        if b.len() > 0 {
            assert(s[k] == b[0]);
        }
    } else {
        assert(s =~= b);
    }
}

/// Lines grow one character at a time: the empty text is one line, and
/// appending a character adds a line exactly when it is a line feed, a
/// carriage return, a LINE SEPARATOR or a PARAGRAPH SEPARATOR, except a line
/// feed that completes a CR LF pair.
pub proof fn law_line_total_push(s: Seq<char>, c: char)
    ensures
        line_total(Seq::<char>::empty()) == 1,
        line_total(s.push(c)) == line_total(s) + if (c == '\n' && !(s.len() > 0 && s.last() == '\r'))
            || c == '\r' || c == '\u{2028}' || c == '\u{2029}' {
            1int
        } else {
            0int
        },
{
    let one = seq![c];
    law_line_total_join(s, one);
    assert(s.push(c) =~= s + one);
    assert(lines_before(one, 0) == 0);
    assert(line_total(one) == 1 + if line_break(c) { 1nat } else { 0nat });
}

/// A finding's line is the number of lines of the text before it, and its
/// byte index is the length in bytes of that text.
pub proof fn law_finding_lines(s: Seq<char>)
    ensures
        forall|j: int|
            0 <= j < analysis(s).findings.len() ==> {
                let f = #[trigger] analysis(s).findings[j];
                let before = s.take(f.char_index as int);
                &&& f.line == line_total(before)
                &&& f.byte_index == vstd::utf8::encode_utf8(before).len()
            },
{
    law_findings_sound(s);
    assert forall|j: int| 0 <= j < analysis(s).findings.len() implies {
        let f = #[trigger] analysis(s).findings[j];
        let before = s.take(f.char_index as int);
        &&& f.line == line_total(before)
        &&& f.byte_index == vstd::utf8::encode_utf8(before).len()
    } by {
        let f = analysis(s).findings[j];
        let k = f.char_index as int;
        let a = s.take(k);
        let b = s.skip(k);
        assert(s =~= a + b);
        if k > 0 {
            lemma_lines_before_join_left(a, b, k - 1);
            assert(s[k - 1] == a[k - 1]);
        }
        assert(lines_before(s, k) == lines_before(a, k));
    }
}

} // verus!
