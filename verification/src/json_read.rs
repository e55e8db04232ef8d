//! Reading the JSON of an analysis back: a reader for the objects that
//! `to_json` writes (members in their fixed order, numbers as decimal
//! digits, strings as JSON string bodies decoded by `json_unescape`), and
//! the laws that it gives back exactly what was written.
use vstd::prelude::*;
use crate::analysis::{AnalysisView, FindingView};
use crate::json::{analysis_json, finding_json, findings_json, number_member, text_member};
use crate::scan::{all_digits, digits_value, is_digit, lemma_decimal_digits};
use crate::text::{decimal, escape_char, escaped, json_unescape, lemma_escaped_front,
    law_escape_round_trip};
use crate::unicode::control_char;
use vstd::seq_lib::lemma_concat_associative;

verus! {

/// The number of characters of a JSON string body before its closing quote
/// (escapes are skipped whole); `None` when no closing quote follows.
pub open spec fn string_body_len(t: Seq<char>) -> Option<nat>
    decreases t.len(),
{
    if t.len() == 0 {
        None
    } else if t[0] == '"' {
        Some(0)
    } else if t[0] == '\\' {
        if t.len() >= 6 && t[1] == 'u' {
            match string_body_len(t.skip(6)) {
                Some(k) => Some(k + 6),
                None => None,
            }
        } else if t.len() >= 2 && t[1] != 'u' {
            match string_body_len(t.skip(2)) {
                Some(k) => Some(k + 2),
                None => None,
            }
        } else {
            None
        }
    } else {
        match string_body_len(t.skip(1)) {
            Some(k) => Some(k + 1),
            None => None,
        }
    }
}

/// A JSON string whose opening quote has been read: the characters it
/// stands for, and what follows, from its closing quote on.
pub open spec fn read_string(t: Seq<char>) -> Option<(Seq<char>, Seq<char>)> {
    match string_body_len(t) {
        Some(k) => match json_unescape(t.take(k as int)) {
            Some(x) => Some((x, t.skip(k as int))),
            None => None,
        },
        None => None,
    }
}

/// The number of decimal digits at the start of `t`.
pub open spec fn digit_run(t: Seq<char>) -> nat
    decreases t.len(),
{
    if t.len() > 0 && is_digit(t[0]) {
        1 + digit_run(t.skip(1))
    } else {
        0
    }
}

/// A number at the start of `t`, and what follows it.
pub open spec fn read_number(t: Seq<char>) -> Option<(nat, Seq<char>)> {
    let k = digit_run(t);
    if k == 0 {
        None
    } else {
        Some((digits_value(t.take(k as int)) as nat, t.skip(k as int)))
    }
}

/// What follows `lit` when `t` begins with it.
pub open spec fn read_literal(t: Seq<char>, lit: Seq<char>) -> Option<Seq<char>> {
    if lit.len() <= t.len() && t.take(lit.len() as int) == lit {
        Some(t.skip(lit.len() as int))
    } else {
        None
    }
}

/// A numeric member with the given label, and what follows it.
pub open spec fn read_number_member(t: Seq<char>, label: Seq<char>) -> Option<(nat, Seq<char>)> {
    match read_literal(t, label) {
        Some(r) => read_number(r),
        None => None,
    }
}

/// A string member with the given label (up to its opening quote), and what
/// follows its closing quote.
pub open spec fn read_text_member(t: Seq<char>, label: Seq<char>) -> Option<(Seq<char>, Seq<char>)> {
    match read_literal(t, label) {
        Some(r) => read_string(r),
        None => None,
    }
}

/// Reading a literal that is there.
pub proof fn lemma_read_literal(lit: Seq<char>, rest: Seq<char>)
    ensures
        read_literal(lit + rest, lit) == Some(rest),
{
    assert((lit + rest).take(lit.len() as int) =~= lit);
    assert((lit + rest).skip(lit.len() as int) =~= rest);
}

/// The digits at the start of a run of digits followed by something else.
proof fn lemma_digit_run(d: Seq<char>, rest: Seq<char>)
    requires
        all_digits(d),
        rest.len() == 0 || !is_digit(rest[0]),
    ensures
        digit_run(d + rest) == d.len(),
    decreases d.len(),
{
    if d.len() == 0 {
        assert(d + rest =~= rest);
    } else {
        assert((d + rest).skip(1) =~= d.skip(1) + rest);
        assert(is_digit(d[0]));
        assert(all_digits(d.skip(1))) by {
            assert forall|i: int| 0 <= i < d.skip(1).len() implies #[trigger] is_digit(d.skip(1)[i]) by {
                assert(d.skip(1)[i] == d[i + 1]);
            }
        }
        lemma_digit_run(d.skip(1), rest);
    }
}

/// Reading back a decimal numeral followed by something other than a digit.
pub proof fn lemma_read_number(n: nat, rest: Seq<char>)
    requires
        rest.len() == 0 || !is_digit(rest[0]),
    ensures
        read_number(decimal(n) + rest) == Some((n, rest)),
{
    lemma_decimal_digits(n);
    lemma_digit_run(decimal(n), rest);
    assert((decimal(n) + rest).take(decimal(n).len() as int) =~= decimal(n));
    assert((decimal(n) + rest).skip(decimal(n).len() as int) =~= rest);
}

/// An escaped character is skipped whole when looking for the closing quote.
proof fn lemma_string_body_len_char(c: char, tail: Seq<char>)
    ensures
        string_body_len(escape_char(c) + tail) == match string_body_len(tail) {
            Some(k) => Some(k + escape_char(c).len()),
            None => None,
        },
{
    let t = escape_char(c) + tail;
    if c == '"' || c == '\\' || c == '\n' || c == '\r' || c == '\t' {
        assert(t.skip(2) =~= tail);
    } else if control_char(c) {
        crate::text::lemma_hex4_control(c);
        assert(t.skip(6) =~= tail);
    } else {
        assert(t.skip(1) =~= tail);
    }
}

/// The closing quote after an escaped text is found right after it.
proof fn lemma_string_body_len(x: Seq<char>, rest: Seq<char>)
    requires
        rest.len() > 0 && rest[0] == '"',
    ensures
        string_body_len(escaped(x) + rest) == Some(escaped(x).len()),
    decreases x.len(),
{
    if x.len() == 0 {
        assert(escaped(x) =~= Seq::<char>::empty());
        assert(escaped(x) + rest =~= rest);
    } else {
        lemma_escaped_front(x);
        lemma_string_body_len(x.drop_first(), rest);
        assert(escaped(x) + rest =~= escape_char(x[0]) + (escaped(x.drop_first()) + rest));
        lemma_string_body_len_char(x[0], escaped(x.drop_first()) + rest);
    }
}

/// Reading back an escaped text up to the quote that closes it.
pub proof fn lemma_read_string(x: Seq<char>, rest: Seq<char>)
    requires
        rest.len() > 0 && rest[0] == '"',
    ensures
        read_string(escaped(x) + rest) == Some((x, rest)),
{
    let t = escaped(x) + rest;
    lemma_string_body_len(x, rest);
    assert(t.take(escaped(x).len() as int) =~= escaped(x));
    law_escape_round_trip(x);
    assert(t.skip(escaped(x).len() as int) =~= rest);
}

/// A finding's JSON object, and what follows it: the members
/// `char_index`, `byte_index`, `line`, `column` (numbers) and `code_point`,
/// `name`, `category`, `marker`, `description` (strings), in this order.
#[verifier::opaque]
pub open spec fn read_finding(t: Seq<char>) -> Option<(FindingView, Seq<char>)> {
    match read_number_member(t, "{\"char_index\":"@) {
        None => None,
        Some((char_index, t1)) => match read_number_member(t1, ",\"byte_index\":"@) {
            None => None,
            Some((byte_index, t2)) => match read_number_member(t2, ",\"line\":"@) {
                None => None,
                Some((line, t3)) => match read_number_member(t3, ",\"column\":"@) {
                    None => None,
                    Some((column, t4)) => match read_text_member(t4, ",\"code_point\":\""@) {
                        None => None,
                        Some((code_point, t5)) => match read_text_member(t5, "\",\"name\":\""@) {
                            None => None,
                            Some((name, t6)) => match read_text_member(
                                t6,
                                "\",\"category\":\""@,
                            ) {
                                None => None,
                                Some((category, t7)) => match read_text_member(
                                    t7,
                                    "\",\"marker\":\""@,
                                ) {
                                    None => None,
                                    Some((marker, t8)) => match read_text_member(
                                        t8,
                                        "\",\"description\":\""@,
                                    ) {
                                        None => None,
                                        Some((description, t9)) => match read_literal(t9, "\"}"@) {
                                            None => None,
                                            Some(t10) => Some(
                                                (
                                                    FindingView {
                                                        char_index,
                                                        byte_index,
                                                        line,
                                                        column,
                                                        code_point,
                                                        name,
                                                        category,
                                                        marker,
                                                        description,
                                                    },
                                                    t10,
                                                ),
                                            ),
                                        },
                                    },
                                },
                            },
                        },
                    },
                },
            },
        },
    }
}

/// Reading a numeric member that is there.
proof fn lemma_read_number_member(label: Seq<char>, n: nat, rest: Seq<char>)
    requires
        rest.len() > 0 && rest[0] == ',',
    ensures
        read_number_member(number_member(label, n) + rest, label) == Some((n, rest)),
{
    assert(label + decimal(n) + rest =~= label + (decimal(n) + rest));
    lemma_read_literal(label, decimal(n) + rest);
    lemma_read_number(n, rest);
}

/// Reading a string member that is there.
proof fn lemma_read_text_member(label: Seq<char>, x: Seq<char>, rest: Seq<char>)
    requires
        rest.len() > 0 && rest[0] == '"',
    ensures
        read_text_member(text_member(label, x) + rest, label) == Some((x, rest)),
{
    assert(label + escaped(x) + rest =~= label + (escaped(x) + rest));
    lemma_read_literal(label, escaped(x) + rest);
    lemma_read_string(x, rest);
}

/// A nonempty front decides the first character.
proof fn lemma_first_char(front: Seq<char>, rest: Seq<char>)
    requires
        front.len() > 0,
    ensures
        (front + rest).len() > 0 && (front + rest)[0] == front[0],
{
}

/// The first characters of the member labels.
proof fn lemma_finding_labels()
    ensures
        "{\"char_index\":"@.len() > 0 && "{\"char_index\":"@[0] == '{',
        ",\"byte_index\":"@.len() > 0 && ",\"byte_index\":"@[0] == ',',
        ",\"line\":"@.len() > 0 && ",\"line\":"@[0] == ',',
        ",\"column\":"@.len() > 0 && ",\"column\":"@[0] == ',',
        ",\"code_point\":\""@.len() > 0 && ",\"code_point\":\""@[0] == ',',
        "\",\"name\":\""@.len() > 0 && "\",\"name\":\""@[0] == '"',
        "\",\"category\":\""@.len() > 0 && "\",\"category\":\""@[0] == '"',
        "\",\"marker\":\""@.len() > 0 && "\",\"marker\":\""@[0] == '"',
        "\",\"description\":\""@.len() > 0 && "\",\"description\":\""@[0] == '"',
        "\"}"@.len() > 0 && "\"}"@[0] == '"',
{
    reveal_strlit("{\"char_index\":");
    reveal_strlit(",\"byte_index\":");
    reveal_strlit(",\"line\":");
    reveal_strlit(",\"column\":");
    reveal_strlit(",\"code_point\":\"");
    reveal_strlit("\",\"name\":\"");
    reveal_strlit("\",\"category\":\"");
    reveal_strlit("\",\"marker\":\"");
    reveal_strlit("\",\"description\":\"");
    reveal_strlit("\"}");
}

/// A finding's JSON object reads back as the finding: its members come in
/// their fixed order, the numbers are its positions and the strings, once
/// unescaped, are its code point, name, category, marker and description,
/// whatever characters they hold; reading stops right after the object.
pub proof fn law_finding_json_reads_back(f: FindingView, rest: Seq<char>)
    ensures
        read_finding(finding_json(f) + rest) == Some((f, rest)),
{
    reveal(read_finding);
    lemma_finding_labels();
    let m1 = number_member("{\"char_index\":"@, f.char_index);
    let m2 = number_member(",\"byte_index\":"@, f.byte_index);
    let m3 = number_member(",\"line\":"@, f.line);
    let m4 = number_member(",\"column\":"@, f.column);
    let m5 = text_member(",\"code_point\":\""@, f.code_point);
    let m6 = text_member("\",\"name\":\""@, f.name);
    let m7 = text_member("\",\"category\":\""@, f.category);
    let m8 = text_member("\",\"marker\":\""@, f.marker);
    let m9 = text_member("\",\"description\":\""@, f.description);
    let r10 = "\"}"@ + rest;
    let r9 = m9 + r10;
    let r8 = m8 + r9;
    let r7 = m7 + r8;
    let r6 = m6 + r7;
    let r5 = m5 + r6;
    let r4 = m4 + r5;
    let r3 = m3 + r4;
    let r2 = m2 + r3;
    let r1 = m1 + r2;
    lemma_concat_associative(m1 + m2 + m3 + m4 + m5 + m6 + m7 + m8 + m9, "\"}"@, rest);
    lemma_concat_associative(m1 + m2 + m3 + m4 + m5 + m6 + m7 + m8, m9, r10);
    lemma_concat_associative(m1 + m2 + m3 + m4 + m5 + m6 + m7, m8, r9);
    lemma_concat_associative(m1 + m2 + m3 + m4 + m5 + m6, m7, r8);
    lemma_concat_associative(m1 + m2 + m3 + m4 + m5, m6, r7);
    lemma_concat_associative(m1 + m2 + m3 + m4, m5, r6);
    lemma_concat_associative(m1 + m2 + m3, m4, r5);
    lemma_concat_associative(m1 + m2, m3, r4);
    lemma_concat_associative(m1, m2, r3);
    assert(finding_json(f) + rest == r1);
    lemma_first_char("\"}"@, rest);
    lemma_first_char(",\"byte_index\":"@ + decimal(f.byte_index), r3);
    lemma_first_char(",\"line\":"@ + decimal(f.line), r4);
    lemma_first_char(",\"column\":"@ + decimal(f.column), r5);
    lemma_first_char(",\"code_point\":\""@ + escaped(f.code_point), r6);
    lemma_first_char("\",\"name\":\""@ + escaped(f.name), r7);
    lemma_first_char("\",\"category\":\""@ + escaped(f.category), r8);
    lemma_first_char("\",\"marker\":\""@ + escaped(f.marker), r9);
    lemma_first_char("\",\"description\":\""@ + escaped(f.description), r10);
    lemma_read_number_member("{\"char_index\":"@, f.char_index, r2);
    lemma_read_number_member(",\"byte_index\":"@, f.byte_index, r3);
    lemma_read_number_member(",\"line\":"@, f.line, r4);
    lemma_read_number_member(",\"column\":"@, f.column, r5);
    lemma_read_text_member(",\"code_point\":\""@, f.code_point, r6);
    lemma_read_text_member("\",\"name\":\""@, f.name, r7);
    lemma_read_text_member("\",\"category\":\""@, f.category, r8);
    lemma_read_text_member("\",\"marker\":\""@, f.marker, r9);
    lemma_read_text_member("\",\"description\":\""@, f.description, r10);
    lemma_read_literal("\"}"@, rest);
}

/// The findings of a list that is not empty: objects separated by commas,
/// reading at most `fuel` more after the first; what follows the last one.
pub open spec fn read_findings(t: Seq<char>, fuel: nat) -> Option<(Seq<FindingView>, Seq<char>)>
    decreases fuel,
{
    match read_finding(t) {
        None => None,
        Some((f, t1)) => if t1.len() > 0 && t1[0] == ',' {
            if fuel == 0 {
                None
            } else {
                match read_findings(t1.skip(1), (fuel - 1) as nat) {
                    Some((fs, t2)) => Some((seq![f] + fs, t2)),
                    None => None,
                }
            }
        } else {
            Some((seq![f], t1))
        },
    }
}

/// The findings between the brackets of the `findings` array, whose opening
/// bracket has been read, and what follows them, from the closing bracket on.
pub open spec fn read_finding_list(t: Seq<char>) -> Option<(Seq<FindingView>, Seq<char>)> {
    if t.len() > 0 && t[0] == ']' {
        Some((Seq::empty(), t))
    } else {
        read_findings(t, t.len())
    }
}

/// An analysis's JSON object, and what follows it: the members
/// `total_chars`, `total_bytes`, `line_count`, `invisible_count` (numbers)
/// and `findings` (an array of finding objects), in this order.
pub open spec fn read_analysis(t: Seq<char>) -> Option<(AnalysisView, Seq<char>)> {
    match read_number_member(t, "{\"total_chars\":"@) {
        None => None,
        Some((total_chars, t1)) => match read_number_member(t1, ",\"total_bytes\":"@) {
            None => None,
            Some((total_bytes, t2)) => match read_number_member(t2, ",\"line_count\":"@) {
                None => None,
                Some((line_count, t3)) => match read_number_member(
                    t3,
                    ",\"invisible_count\":"@,
                ) {
                    None => None,
                    Some((invisible_count, t4)) => match read_literal(t4, ",\"findings\":["@) {
                        None => None,
                        Some(t5) => match read_finding_list(t5) {
                            None => None,
                            Some((findings, t6)) => match read_literal(t6, "]}"@) {
                                None => None,
                                Some(t7) => Some(
                                    (
                                        AnalysisView {
                                            total_chars,
                                            total_bytes,
                                            line_count,
                                            invisible_count,
                                            findings,
                                        },
                                        t7,
                                    ),
                                ),
                            },
                        },
                    },
                },
            },
        },
    }
}

/// The list of findings written from its first one.
proof fn lemma_findings_json_front(fs: Seq<FindingView>)
    requires
        fs.len() >= 2,
    ensures
        findings_json(fs) == finding_json(fs[0]) + ","@ + findings_json(fs.drop_first()),
    decreases fs.len(),
{
    let d = fs.drop_last();
    let tail = fs.drop_first();
    if fs.len() == 2 {
        assert(findings_json(d) == finding_json(fs[0]));
        assert(findings_json(tail) == finding_json(fs[1]));
    } else {
        lemma_findings_json_front(d);
        assert(d.drop_first() =~= tail.drop_last());
        assert(d[0] == fs[0]);
        assert(tail.last() == fs.last());
        assert(findings_json(tail) == findings_json(tail.drop_last()) + ","@ + finding_json(
            tail.last(),
        ));
        lemma_concat_associative(
            finding_json(fs[0]) + ","@,
            findings_json(d.drop_first()),
            ","@ + finding_json(fs.last()),
        );
        lemma_concat_associative(findings_json(d), ","@, finding_json(fs.last()));
        lemma_concat_associative(findings_json(d.drop_first()), ","@, finding_json(fs.last()));
    }
}

/// The written list is at least as long as the number of findings.
proof fn lemma_findings_json_len(fs: Seq<FindingView>)
    ensures
        findings_json(fs).len() >= fs.len(),
    decreases fs.len(),
{
    if fs.len() > 0 {
        lemma_finding_labels();
        assert(finding_json(fs.last()).len() >= 1);
        if fs.len() >= 2 {
            lemma_findings_json_len(fs.drop_last());
        }
    }
}

/// Reading back a nonempty list of findings followed by the closing bracket.
proof fn lemma_read_findings(fs: Seq<FindingView>, rest: Seq<char>, fuel: nat)
    requires
        fs.len() >= 1,
        fuel + 1 >= fs.len(),
        rest.len() > 0 && rest[0] == ']',
    ensures
        read_findings(findings_json(fs) + rest, fuel) == Some((fs, rest)),
    decreases fs.len(),
{
    if fs.len() == 1 {
        law_finding_json_reads_back(fs[0], rest);
        assert(seq![fs[0]] =~= fs);
    } else {
        let tail = fs.drop_first();
        lemma_findings_json_front(fs);
        let t1 = ","@ + (findings_json(tail) + rest);
        lemma_concat_associative(finding_json(fs[0]) + ","@, findings_json(tail), rest);
        lemma_concat_associative(finding_json(fs[0]), ","@, findings_json(tail) + rest);
        law_finding_json_reads_back(fs[0], t1);
        reveal_strlit(",");
        assert(t1.skip(1) =~= findings_json(tail) + rest);
        lemma_read_findings(tail, rest, (fuel - 1) as nat);
        assert(seq![fs[0]] + tail =~= fs);
    }
}

/// Reading back a list of findings followed by the closing bracket.
proof fn lemma_read_finding_list(fs: Seq<FindingView>, rest: Seq<char>)
    requires
        rest.len() > 0 && rest[0] == ']',
    ensures
        read_finding_list(findings_json(fs) + rest) == Some((fs, rest)),
{
    let t = findings_json(fs) + rest;
    if fs.len() == 0 {
        assert(findings_json(fs) + rest =~= rest);
        assert(fs =~= Seq::<FindingView>::empty());
    } else {
        lemma_findings_json_len(fs);
        lemma_read_findings(fs, rest, t.len());
        lemma_finding_labels();
        assert(t[0] == '{') by {
            reveal(read_finding);
            assert(read_finding(t) is Some);
            assert(t.take("{\"char_index\":"@.len() as int) == "{\"char_index\":"@);
            assert(t.take("{\"char_index\":"@.len() as int)[0] == t[0]);
        }
    }
}

/// The JSON object of an analysis reads back as the analysis: its counts
/// and each of its findings, in their order, whatever characters the
/// findings' strings hold; reading stops right after the object.
pub proof fn law_analysis_json_reads_back(a: AnalysisView, rest: Seq<char>)
    ensures
        read_analysis(analysis_json(a) + rest) == Some((a, rest)),
{
    reveal_strlit("{\"total_chars\":");
    reveal_strlit(",\"total_bytes\":");
    reveal_strlit(",\"line_count\":");
    reveal_strlit(",\"invisible_count\":");
    reveal_strlit(",\"findings\":[");
    reveal_strlit("]}");
    let l1 = "{\"total_chars\":"@;
    let l2 = ",\"total_bytes\":"@;
    let l3 = ",\"line_count\":"@;
    let l4 = ",\"invisible_count\":"@;
    let l5 = ",\"findings\":["@;
    let fj = findings_json(a.findings);
    let m1 = number_member(l1, a.total_chars);
    let m2 = number_member(l2, a.total_bytes);
    let m3 = number_member(l3, a.line_count);
    let m4 = number_member(l4, a.invisible_count);
    let q2 = m1 + l2 + decimal(a.total_bytes);
    let q3 = q2 + l3 + decimal(a.line_count);
    let q4 = q3 + l4 + decimal(a.invisible_count);
    let q5 = q4 + l5 + fj;
    assert(analysis_json(a) == q5 + "]}"@);
    let r6 = "]}"@ + rest;
    let r5 = l5 + (fj + r6);
    let r4 = m4 + r5;
    let r3 = m3 + r4;
    let r2 = m2 + r3;
    lemma_concat_associative(q5, "]}"@, rest);
    lemma_concat_associative(q4 + l5, fj, r6);
    lemma_concat_associative(q4, l5, fj + r6);
    lemma_concat_associative(q3, l4, decimal(a.invisible_count));
    lemma_concat_associative(q3, m4, r5);
    lemma_concat_associative(q2, l3, decimal(a.line_count));
    lemma_concat_associative(q2, m3, r4);
    lemma_concat_associative(m1, l2, decimal(a.total_bytes));
    lemma_concat_associative(m1, m2, r3);
    assert(analysis_json(a) + rest == m1 + r2);
    lemma_first_char(l2 + decimal(a.total_bytes), r3);
    lemma_first_char(l3 + decimal(a.line_count), r4);
    lemma_first_char(l4 + decimal(a.invisible_count), r5);
    lemma_first_char(l5, fj + r6);
    lemma_first_char("]}"@, rest);
    lemma_read_number_member(l1, a.total_chars, r2);
    lemma_read_number_member(l2, a.total_bytes, r3);
    lemma_read_number_member(l3, a.line_count, r4);
    lemma_read_number_member(l4, a.invisible_count, r5);
    lemma_read_literal(l5, fj + r6);
    lemma_read_finding_list(a.findings, r6);
    lemma_read_literal("]}"@, rest);
}

} // verus!
