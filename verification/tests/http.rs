use clipboard_analyzer::http::{build_response, request_body_complete};

#[test]
fn test_build_response_analyzes_post_body() {
    let response = build_response(
        b"POST /analyze-clipboard HTTP/1.1\r\nHost: localhost\r\nContent-Length: 4\r\n\r\na\xc2\xa0b",
    );

    assert!(response.starts_with("HTTP/1.1 200 OK"));
    assert!(response.contains("\"name\":\"NO-BREAK SPACE\""));
}

#[test]
fn test_build_response_serves_service_metadata_at_root() {
    let response = build_response(b"GET / HTTP/1.1\r\nHost: localhost\r\n\r\n");

    assert!(response.starts_with("HTTP/1.1 200 OK"));
    assert!(response.contains("Content-Type: application/json; charset=utf-8"));
    assert!(response.contains("\"analyze\":\"POST /analyze-clipboard\""));
    assert!(response.contains("\"ui\":\"GET /ui\""));
    assert!(!response.contains("<!doctype html>"));
}

#[test]
fn test_build_response_serves_browser_ui_at_ui_route() {
    let response = build_response(b"GET /ui HTTP/1.1\r\nHost: localhost\r\n\r\n");

    assert!(response.starts_with("HTTP/1.1 200 OK"));
    assert!(response.contains("Content-Type: text/html; charset=utf-8"));
    assert!(response.contains("Clipboard Hidden Character Analyzer"));
    assert!(response.contains("fetch(\"/analyze-clipboard\""));
    assert!(response.contains("renderEmptyFindings(\"No hidden characters found.\")"));
    assert!(response.contains("resetAnalysis(\"Paste text and run an analysis.\")"));
    assert!(response.contains("function resetMetrics()"));
    assert!(response.contains("function renderError(message) {\n      resetMetrics();"));
}

#[test]
fn test_build_response_rejects_unknown_route() {
    let response = build_response(b"GET /unknown HTTP/1.1\r\nHost: localhost\r\n\r\n");

    assert!(response.starts_with("HTTP/1.1 404 Not Found"));
}

#[test]
fn test_build_response_rejects_missing_content_length() {
    let response =
        build_response(b"POST /analyze-clipboard HTTP/1.1\r\nHost: localhost\r\n\r\n");

    assert!(response.starts_with("HTTP/1.1 411 Length Required"));
}

#[test]
fn test_build_response_rejects_invalid_content_length() {
    let response = build_response(
        b"POST /analyze-clipboard HTTP/1.1\r\nHost: localhost\r\nContent-Length: nope\r\n\r\n",
    );

    assert!(response.starts_with("HTTP/1.1 400 Bad Request"));
}

#[test]
fn test_oversized_content_length_completes_without_body() {
    let request = b"POST /analyze-clipboard HTTP/1.1\r\nHost: localhost\r\nContent-Length: 1048577\r\n\r\n";

    assert!(request_body_complete(request));
    assert!(build_response(request).starts_with("HTTP/1.1 413 Payload Too Large"));
}
