use clipboard_analyzer::analyze_clipboard_text;
use clipboard_analyzer::rpc;
use clipboard_analyzer::MyEnum;

#[test]
fn test_flatten_ok_some() {
    let val: MyEnum<String, rpc::RpcError> = MyEnum::Response(Ok(Some("hello".to_owned())));
    assert!(matches!(val.flatten(), Ok(s) if s == "hello"));
}

#[test]
fn test_flatten_ok_none_returns_default_err() {
    let val: MyEnum<String, rpc::RpcError> = MyEnum::Response(Ok(None));
    assert!(val.flatten().is_err());
}

#[test]
fn test_flatten_err_propagates() {
    let val: MyEnum<String, rpc::RpcError> = MyEnum::Failure(rpc::RpcError::ConnectionError);
    assert!(matches!(val.flatten(), Err(rpc::RpcError::ConnectionError)));
}

#[test]
fn test_flatten_inner_err_propagates() {
    let val: MyEnum<String, rpc::RpcError> = MyEnum::Response(Err(rpc::RpcError::TimeoutError));
    assert!(matches!(val.flatten(), Err(rpc::RpcError::TimeoutError)));
}

#[test]
fn test_analyze_clipboard_text_finds_hidden_characters() {
    let analysis = analyze_clipboard_text("a\u{00A0}b\u{200B}c\u{202E}d");

    assert_eq!(analysis.total_chars, 7);
    assert_eq!(analysis.invisible_count, 3);
    assert_eq!(analysis.findings[0].code_point, "U+00A0");
    assert_eq!(analysis.findings[0].name, "NO-BREAK SPACE");
    assert_eq!(analysis.findings[1].name, "ZERO WIDTH SPACE");
    assert_eq!(analysis.findings[2].name, "RIGHT-TO-LEFT OVERRIDE");
}

#[test]
fn test_analyze_clipboard_text_tracks_line_and_column() {
    let analysis = analyze_clipboard_text("first\r\nx\u{200D}y\n");

    assert_eq!(analysis.line_count, 3);
    assert_eq!(analysis.findings.len(), 3);
    assert_eq!(analysis.findings[0].name, "CARRIAGE RETURN");
    assert_eq!(analysis.findings[0].line, 1);
    assert_eq!(analysis.findings[0].column, 6);
    assert_eq!(analysis.findings[1].name, "ZERO WIDTH JOINER");
    assert_eq!(analysis.findings[1].char_index, 8);
    assert_eq!(analysis.findings[1].line, 2);
    assert_eq!(analysis.findings[1].column, 2);
    assert_eq!(analysis.findings[2].name, "LINE FEED");
    assert_eq!(analysis.findings[2].line, 2);
    assert_eq!(analysis.findings[2].column, 4);
}

#[test]
fn test_count_lines_handles_unicode_line_separators() {
    let analysis = analyze_clipboard_text("one\u{2028}two");

    assert_eq!(analysis.line_count, 2);
    assert_eq!(analysis.findings[0].name, "LINE SEPARATOR");
}

#[test]
fn test_analysis_serializes_as_json() {
    let json = analyze_clipboard_text("a\u{2060}b").to_json();

    assert!(json.contains("\"code_point\":\"U+2060\""));
    assert!(json.contains("\"name\":\"WORD JOINER\""));
    assert!(json.contains("\"category\":\"non-breaking\""));
}
