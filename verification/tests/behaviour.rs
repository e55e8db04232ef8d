use clipboard_analyzer::analysis::count_lines;
use clipboard_analyzer::rpc::RpcError;
use clipboard_analyzer::text::{code_point_label, escape_json};
use clipboard_analyzer::{analyze_clipboard_text, MyEnum};

#[test]
fn empty_text_has_one_line_and_no_findings() {
    let analysis = analyze_clipboard_text("");
    assert_eq!(analysis.total_chars, 0);
    assert_eq!(analysis.total_bytes, 0);
    assert_eq!(analysis.line_count, 1);
    assert_eq!(analysis.invisible_count, 0);
    assert!(analysis.findings.is_empty());
    assert_eq!(
        analysis.to_json(),
        "{\"total_chars\":0,\"total_bytes\":0,\"line_count\":1,\"invisible_count\":0,\"findings\":[]}"
    );
}

#[test]
fn json_of_one_finding_is_exact() {
    let json = analyze_clipboard_text("a\u{2060}b").to_json();
    assert_eq!(
        json,
        "{\"total_chars\":3,\"total_bytes\":5,\"line_count\":1,\"invisible_count\":1,\"findings\":[{\"char_index\":1,\"byte_index\":1,\"line\":1,\"column\":2,\"code_point\":\"U+2060\",\"name\":\"WORD JOINER\",\"category\":\"non-breaking\",\"marker\":\"WJ\",\"description\":\"Invisible character that prevents line breaks.\"}]}"
    );
}

#[test]
fn json_separates_findings_with_commas() {
    let json = analyze_clipboard_text("\t\u{FEFF}").to_json();
    assert!(json.starts_with("{\"total_chars\":2,\"total_bytes\":4,\"line_count\":1,\"invisible_count\":2,\"findings\":[{\"char_index\":0,"));
    assert!(json.contains("\"marker\":\"TAB\""));
    assert!(json.contains("},{\"char_index\":1,\"byte_index\":1,\"line\":1,\"column\":2,\"code_point\":\"U+FEFF\""));
    assert!(json.contains("\"marker\":\"BOM\""));
    assert!(json.ends_with("}]}"));
}

#[test]
fn byte_offsets_count_utf8_bytes() {
    let analysis = analyze_clipboard_text("\u{e9}\u{200B}\u{1F600}\u{00A0}");
    assert_eq!(analysis.total_chars, 4);
    assert_eq!(analysis.total_bytes, 11);
    assert_eq!(analysis.invisible_count, 2);
    assert_eq!(analysis.findings[0].char_index, 1);
    assert_eq!(analysis.findings[0].byte_index, 2);
    assert_eq!(analysis.findings[0].column, 2);
    assert_eq!(analysis.findings[1].char_index, 3);
    assert_eq!(analysis.findings[1].byte_index, 9);
    assert_eq!(analysis.findings[1].column, 4);
    assert_eq!(analysis.findings[1].category, "non-breaking");
}

#[test]
fn line_breaks_of_every_kind() {
    let analysis = analyze_clipboard_text("a\rb\nc\r\nd\u{2029}e");
    assert_eq!(analysis.total_chars, 10);
    assert_eq!(analysis.line_count, 5);
    let seen: Vec<(usize, usize, usize, &str)> = analysis
        .findings
        .iter()
        .map(|f| (f.char_index, f.line, f.column, f.marker))
        .collect();
    assert_eq!(
        seen,
        vec![(1, 1, 2, "CR"), (3, 2, 2, "LF"), (5, 3, 2, "CR"), (8, 4, 2, "PS")]
    );
}

#[test]
fn crlf_line_feed_is_not_reported() {
    let analysis = analyze_clipboard_text("\r\n\r\n");
    assert_eq!(analysis.line_count, 3);
    assert_eq!(analysis.invisible_count, 2);
    assert_eq!(analysis.findings[0].char_index, 0);
    assert_eq!(analysis.findings[0].line, 1);
    assert_eq!(analysis.findings[1].char_index, 2);
    assert_eq!(analysis.findings[1].line, 2);
    assert_eq!(analysis.findings[1].column, 1);
}

#[test]
fn trailing_carriage_return_starts_a_line() {
    let analysis = analyze_clipboard_text("x\r");
    assert_eq!(analysis.line_count, 2);
    assert_eq!(analysis.findings[0].name, "CARRIAGE RETURN");
    assert_eq!(analysis.findings[0].column, 2);
}

#[test]
fn printable_ascii_is_never_reported() {
    let text: String = (0x20u8..=0x7E).map(|b| b as char).collect();
    let analysis = analyze_clipboard_text(&text);
    assert_eq!(analysis.total_chars, 95);
    assert_eq!(analysis.invisible_count, 0);
    assert_eq!(analysis.line_count, 1);
}

#[test]
fn plain_text_is_clean_and_single_line() {
    let analysis = analyze_clipboard_text("hello world");
    assert_eq!(analysis.invisible_count, 0);
    assert_eq!(analysis.line_count, 1);
    assert_eq!(analysis.total_bytes, 11);
}

#[test]
fn control_characters_fall_into_catch_all_entries() {
    let analysis = analyze_clipboard_text("\u{1}\u{85}\u{7F}\u{1B}");
    let seen: Vec<(&str, &str, &str, &str)> = analysis
        .findings
        .iter()
        .map(|f| (f.code_point.as_str(), f.name, f.category, f.marker))
        .collect();
    assert_eq!(
        seen,
        vec![
            ("U+0001", "CONTROL CHARACTER", "control", "CTRL"),
            ("U+0085", "C1 CONTROL", "control", "C1"),
            ("U+007F", "DELETE", "control", "DEL"),
            ("U+001B", "ESCAPE", "control", "ESC"),
        ]
    );
}

#[test]
fn every_category_appears() {
    let analysis = analyze_clipboard_text("\u{0}\u{2003}\u{2007}\u{200C}\u{2066}\u{3164}");
    let categories: Vec<&str> = analysis.findings.iter().map(|f| f.category).collect();
    assert_eq!(
        categories,
        vec!["control", "whitespace", "non-breaking", "format", "bidirectional-format", "invisible-letter"]
    );
}

#[test]
fn code_point_labels_have_at_least_four_digits() {
    assert_eq!(code_point_label('\u{0}'), "U+0000");
    assert_eq!(code_point_label('\u{1F}'), "U+001F");
    assert_eq!(code_point_label('\u{FEFF}'), "U+FEFF");
    assert_eq!(code_point_label('\u{1F600}'), "U+1F600");
}

#[test]
fn escape_json_escapes_quotes_backslashes_and_controls() {
    assert_eq!(
        escape_json("q\"b\\n\nr\rt\t\u{1}\u{9F}\u{e9}"),
        "q\\\"b\\\\n\\nr\\rt\\t\\u0001\\u009F\u{e9}"
    );
    assert_eq!(escape_json(""), "");
}

#[test]
fn count_lines_counts_crlf_once() {
    assert_eq!(count_lines(""), 1);
    assert_eq!(count_lines("a\r\n"), 2);
    assert_eq!(count_lines("\n\n"), 3);
    assert_eq!(count_lines("a\r\rb"), 3);
    assert_eq!(count_lines("one\u{2028}two\u{2029}"), 3);
}

#[test]
fn flatten_none_gives_data_error() {
    let val: MyEnum<u8> = MyEnum::Response(Ok(None));
    assert!(matches!(val.flatten(), Err(RpcError::DataError)));
}

#[test]
fn flatten_none_uses_the_error_types_default() {
    let val: MyEnum<u8, String> = MyEnum::Response(Ok(None));
    assert_eq!(val.flatten(), Err(String::new()));
    let val: MyEnum<u8, String> = MyEnum::Response(Ok(Some(7)));
    assert_eq!(val.flatten(), Ok(7));
}

#[test]
fn every_unicode_whitespace_but_space_is_reported() {
    let spaces = [
        '\u{9}', '\u{A}', '\u{B}', '\u{C}', '\u{D}', '\u{85}', '\u{A0}', '\u{1680}', '\u{2000}',
        '\u{2001}', '\u{2002}', '\u{2003}', '\u{2004}', '\u{2005}', '\u{2006}', '\u{2007}',
        '\u{2008}', '\u{2009}', '\u{200A}', '\u{2028}', '\u{2029}', '\u{202F}', '\u{205F}',
        '\u{3000}',
    ];
    for c in spaces {
        let text = format!("a{}b", c);
        let analysis = analyze_clipboard_text(&text);
        assert_eq!(analysis.invisible_count, 1, "{:?}", c);
        assert_eq!(analysis.findings[0].char_index, 1);
    }
    assert_eq!(analyze_clipboard_text("a b").invisible_count, 0);
}

#[test]
fn joined_texts_count_their_lines_together() {
    let pairs = [("one\r", "\ntwo"), ("ab", "cd"), ("a\n", "\nb"), ("", "x\ny"), ("a\r", "b"), ("", "")];
    for (a, b) in pairs {
        let pair = if a.ends_with('\r') && b.starts_with('\n') { 1 } else { 0 };
        let joined = format!("{}{}", a, b);
        assert_eq!(count_lines(&joined) + 1 + pair, count_lines(a) + count_lines(b));
    }
    assert_eq!(count_lines("one\r\ntwo"), 2);
    assert_eq!(count_lines("a\n\nb"), 3);
}

#[test]
fn finding_json_escapes_every_string_member() {
    let finding = clipboard_analyzer::HiddenCharacter {
        char_index: 12,
        byte_index: 30,
        line: 2,
        column: 7,
        code_point: "U+\"1\"".to_string(),
        name: "back\\slash",
        category: "tab\there",
        marker: "[\u{1}]",
        description: "line\nbreak",
    };
    assert_eq!(
        finding.to_json(),
        "{\"char_index\":12,\"byte_index\":30,\"line\":2,\"column\":7,\"code_point\":\"U+\\\"1\\\"\",\"name\":\"back\\\\slash\",\"category\":\"tab\\there\",\"marker\":\"[\\u0001]\",\"description\":\"line\\nbreak\"}"
    );
}
