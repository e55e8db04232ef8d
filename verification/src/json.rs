//! The JSON form of an analysis.
use vstd::prelude::*;
use crate::analysis::{AnalysisView, ClipboardAnalysis, FindingView, HiddenCharacter, findings_view};
use crate::text::{decimal, escaped, push_decimal, push_escaped};

verus! {

/// A numeric member: its label (with the leading separator) and the decimal value.
pub open spec fn number_member(label: Seq<char>, n: nat) -> Seq<char> {
    label + decimal(n)
}

/// A string member: its label (up to the opening quote) and the escaped value.
pub open spec fn text_member(label: Seq<char>, t: Seq<char>) -> Seq<char> {
    label + escaped(t)
}

/// The JSON object for one finding.
pub open spec fn finding_json(f: FindingView) -> Seq<char> {
    number_member("{\"char_index\":"@, f.char_index)
        + number_member(",\"byte_index\":"@, f.byte_index)
        + number_member(",\"line\":"@, f.line)
        + number_member(",\"column\":"@, f.column)
        + text_member(",\"code_point\":\""@, f.code_point)
        + text_member("\",\"name\":\""@, f.name)
        + text_member("\",\"category\":\""@, f.category)
        + text_member("\",\"marker\":\""@, f.marker)
        + text_member("\",\"description\":\""@, f.description)
        + "\"}"@
}

/// The JSON objects of the findings, separated by commas.
pub open spec fn findings_json(fs: Seq<FindingView>) -> Seq<char>
    decreases fs.len(),
{
    if fs.len() == 0 {
        Seq::empty()
    } else if fs.len() == 1 {
        finding_json(fs[0])
    } else {
        findings_json(fs.drop_last()) + ","@ + finding_json(fs.last())
    }
}

/// The JSON object for an analysis.
pub open spec fn analysis_json(a: AnalysisView) -> Seq<char> {
    "{\"total_chars\":"@ + decimal(a.total_chars) + ",\"total_bytes\":"@ + decimal(a.total_bytes)
        + ",\"line_count\":"@ + decimal(a.line_count) + ",\"invisible_count\":"@ + decimal(
        a.invisible_count,
    ) + ",\"findings\":["@ + findings_json(a.findings) + "]}"@
}

/// Appends a numeric member.
fn push_number_member(out: &mut String, label: &str, n: usize)
    ensures
        final(out)@ == old(out)@ + number_member(label@, n as nat),
{
    let ghost start = out@;
    out.append(label);
    push_decimal(out, n);
    assert(out@ =~= start + number_member(label@, n as nat));
}

/// Appends a string member.
fn push_text_member(out: &mut String, label: &str, t: &str)
    ensures
        final(out)@ == old(out)@ + text_member(label@, t@),
{
    let ghost start = out@;
    out.append(label);
    push_escaped(out, t);
    assert(out@ =~= start + text_member(label@, t@));
}

impl HiddenCharacter {
    /// Appends the JSON object of this finding.
    fn push_json(&self, out: &mut String)
        ensures
            final(out)@ == old(out)@ + finding_json(self@),
    {
        let ghost f = self@;
        let ghost s0 = out@;
        push_number_member(out, "{\"char_index\":", self.char_index);
        let ghost s1 = out@;
        push_number_member(out, ",\"byte_index\":", self.byte_index);
        let ghost s2 = out@;
        push_number_member(out, ",\"line\":", self.line);
        let ghost s3 = out@;
        push_number_member(out, ",\"column\":", self.column);
        let ghost s4 = out@;
        push_text_member(out, ",\"code_point\":\"", self.code_point.as_str());
        let ghost s5 = out@;
        push_text_member(out, "\",\"name\":\"", self.name);
        let ghost s6 = out@;
        push_text_member(out, "\",\"category\":\"", self.category);
        let ghost s7 = out@;
        push_text_member(out, "\",\"marker\":\"", self.marker);
        let ghost s8 = out@;
        push_text_member(out, "\",\"description\":\"", self.description);
        let ghost s9 = out@;
        out.append("\"}");
        proof {
            let a = number_member("{\"char_index\":"@, f.char_index);
            let b = number_member(",\"byte_index\":"@, f.byte_index);
            let c = number_member(",\"line\":"@, f.line);
            let d = number_member(",\"column\":"@, f.column);
            let e = text_member(",\"code_point\":\""@, f.code_point);
            let g = text_member("\",\"name\":\""@, f.name);
            let h = text_member("\",\"category\":\""@, f.category);
            let k = text_member("\",\"marker\":\""@, f.marker);
            let m = text_member("\",\"description\":\""@, f.description);
            let z = "\"}"@;
            assert(out@ =~= s0 + (a + b + c + d + e + g + h + k + m + z));
        }
    }

    /// The JSON object of this finding.
    pub fn to_json(&self) -> (json: String)
        ensures
            json@ == finding_json(self@),
    {
        let mut out = String::new();
        self.push_json(&mut out);
        assert(out@ =~= finding_json(self@));
        out
    }
}

impl ClipboardAnalysis {
    /// The JSON object of this analysis: the four counts, then the findings in order.
    pub fn to_json(&self) -> (json: String)
        ensures
            json@ == analysis_json(self@),
    {
        let mut out = String::new();
        out.append("{\"total_chars\":");
        push_decimal(&mut out, self.total_chars);
        out.append(",\"total_bytes\":");
        push_decimal(&mut out, self.total_bytes);
        out.append(",\"line_count\":");
        push_decimal(&mut out, self.line_count);
        out.append(",\"invisible_count\":");
        push_decimal(&mut out, self.invisible_count);
        out.append(",\"findings\":[");
        let ghost head = out@;
        let ghost fs = findings_view(self.findings@);
        let mut i: usize = 0;
        while i < self.findings.len()
            invariant
                i <= self.findings.len(),
                fs == findings_view(self.findings@),
                out@ == head + findings_json(fs.take(i as int)),
            decreases self.findings.len() - i,
        {
            let ghost before = out@;
            if i > 0 {
                out.append(",");
            }
            self.findings[i].push_json(&mut out);
            proof {
                let t = fs.take(i + 1);
                assert(t.drop_last() =~= fs.take(i as int));
                assert(t.last() == self.findings@[i as int]@);
                if i == 0 {
                    assert(fs.take(0) =~= Seq::<FindingView>::empty());
                    assert(out@ =~= head + findings_json(t));
                } else {
                    assert(out@ =~= head + findings_json(t));
                }
            }
            i = i + 1;
        }
        assert(fs.take(i as int) =~= fs);
        out.append("]}");
        assert(out@ =~= analysis_json(self@));
        out
    }
}

} // verus!
