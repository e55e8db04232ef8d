use clipboard_analyzer::analyze_clipboard_text;
use clipboard_analyzer::http::{
    build_response, content_length, find_header_end, http_response, keep_reading,
    request_body_complete,
    ContentLengthError,
};

fn post(body: &[u8], declared: usize) -> Vec<u8> {
    let mut request =
        format!("POST /analyze-clipboard HTTP/1.1\r\nContent-Length: {}\r\n\r\n", declared)
            .into_bytes();
    request.extend_from_slice(body);
    request
}

fn json_error(status: u16, reason: &str, body: &str) -> String {
    http_response(status, reason, "application/json; charset=utf-8", body)
}

#[test]
fn posted_text_is_answered_with_its_analysis() {
    let text = "x\u{200B}\r\ny\u{202E}";
    let response = build_response(&post(text.as_bytes(), text.len()));
    let json = analyze_clipboard_text(text).to_json();
    assert_eq!(
        response,
        format!(
            "HTTP/1.1 200 OK\r\nContent-Type: application/json; charset=utf-8\r\nContent-Length: {}\r\nConnection: close\r\n\r\n{}",
            json.len(),
            json
        )
    );
}

#[test]
fn health_check_response_is_exact() {
    let response = build_response(b"GET /health HTTP/1.1\r\n\r\n");
    assert_eq!(
        response,
        "HTTP/1.1 200 OK\r\nContent-Type: application/json; charset=utf-8\r\nContent-Length: 15\r\nConnection: close\r\n\r\n{\"status\":\"ok\"}"
    );
}

#[test]
fn request_without_blank_line_is_malformed() {
    let response = build_response(b"GET / HTTP/1.1\r\nHost: localhost\r\n");
    assert_eq!(
        response,
        "HTTP/1.1 400 Bad Request\r\nContent-Type: text/plain; charset=utf-8\r\nContent-Length: 17\r\nConnection: close\r\n\r\nMalformed request"
    );
    assert!(!request_body_complete(b"GET / HTTP/1.1\r\nHost: localhost\r\n"));
}

#[test]
fn request_line_words_are_split_on_any_whitespace() {
    assert!(build_response(b"  GET\t/health   HTTP/1.1\r\n\r\n").starts_with("HTTP/1.1 200 OK"));
    assert!(build_response(b"get /health HTTP/1.1\r\n\r\n").starts_with("HTTP/1.1 404 Not Found"));
    assert!(build_response(b"GET /health\xff HTTP/1.1\r\n\r\n").starts_with("HTTP/1.1 404 Not Found"));
}

#[test]
fn header_name_is_case_insensitive_and_value_is_trimmed() {
    let mut request = b"POST /analyze-clipboard HTTP/1.1\r\ncontent-LENGTH: \t+3 \r\n\r\n".to_vec();
    request.extend_from_slice(b"a\tb");
    let response = build_response(&request);
    assert!(response.starts_with("HTTP/1.1 200 OK"));
    assert!(response.contains("\"name\":\"CHARACTER TABULATION\""));
}

#[test]
fn headers_with_invalid_utf8_are_still_read() {
    let request = b"POST /analyze-clipboard HTTP/1.1\r\nX-Note: \xff\xfe\r\nContent-Length: 1\r\n\r\na";
    assert!(build_response(request).starts_with("HTTP/1.1 200 OK"));
    assert!(request_body_complete(request));
}

#[test]
fn repeated_or_bad_content_length_is_invalid() {
    let invalid = json_error(
        400,
        "Bad Request",
        "{\"error\":\"Content-Length must be a valid non-negative integer.\"}",
    );
    let repeated = b"POST /analyze-clipboard HTTP/1.1\r\nContent-Length: 1\r\nContent-Length: 1\r\n\r\na";
    assert_eq!(build_response(repeated), invalid);
    let overflow = b"POST /analyze-clipboard HTTP/1.1\r\nContent-Length: 18446744073709551616\r\n\r\n";
    assert_eq!(build_response(overflow), invalid);
    assert!(request_body_complete(overflow));
}

#[test]
fn missing_content_length_response_is_exact() {
    let response = build_response(b"POST /analyze-clipboard HTTP/1.1\r\nHost: x\r\n\r\n");
    assert_eq!(
        response,
        json_error(
            411,
            "Length Required",
            "{\"error\":\"POST /analyze-clipboard requires a valid Content-Length header.\"}"
        )
    );
}

#[test]
fn incomplete_body_is_reported_and_not_complete() {
    let request = post(b"abc", 10);
    assert!(!request_body_complete(&request));
    assert_eq!(
        build_response(&request),
        json_error(400, "Bad Request", "{\"error\":\"Incomplete request body.\"}")
    );
    let whole = post(b"abcdefghij", 10);
    assert!(request_body_complete(&whole));
    assert!(build_response(&whole).starts_with("HTTP/1.1 200 OK"));
}

#[test]
fn invalid_utf8_body_is_refused() {
    let request = post(b"\xff", 1);
    assert_eq!(
        build_response(&request),
        json_error(400, "Bad Request", "{\"error\":\"Request body must be valid UTF-8 text.\"}")
    );
}

#[test]
fn body_at_the_limit_is_still_awaited() {
    let request = post(b"", 1_048_576);
    assert!(!request_body_complete(&request));
    let over = post(b"", 1_048_577);
    assert!(request_body_complete(&over));
    assert_eq!(
        build_response(&over),
        json_error(
            413,
            "Payload Too Large",
            "{\"error\":\"Request body must be 1048576 bytes or smaller.\"}"
        )
    );
}

#[test]
fn bytes_after_the_declared_body_are_ignored() {
    let response = build_response(&post(b"a\xc2\xa0b-extra", 4));
    assert!(response.contains("\"total_chars\":3"));
    assert!(response.contains("\"name\":\"NO-BREAK SPACE\""));
}

#[test]
fn content_length_reads_the_header() {
    assert_eq!(content_length("Host: x\r\nContent-Length: 12"), Ok(12));
    assert_eq!(content_length(""), Err(ContentLengthError::Missing));
    assert_eq!(content_length("Content-Length : 5"), Err(ContentLengthError::Missing));
    assert_eq!(
        content_length("Content-Length: 1\r\ncontent-length: 1"),
        Err(ContentLengthError::Invalid)
    );
    assert_eq!(content_length("Content-Length: -1"), Err(ContentLengthError::Invalid));
    assert_eq!(content_length("Content-Length:"), Err(ContentLengthError::Invalid));
    assert_eq!(content_length("Content-Length: +"), Err(ContentLengthError::Invalid));
    assert_eq!(content_length("Content-Length:007"), Ok(7));
}

#[test]
fn header_end_is_the_first_blank_line() {
    assert_eq!(find_header_end(b"ab\r\n\r\ncd\r\n\r\n"), Some(2));
    assert_eq!(find_header_end(b"\r\n\r"), None);
    assert_eq!(find_header_end(b""), None);
}

#[test]
fn response_length_counts_bytes() {
    assert_eq!(
        http_response(200, "OK", "text/plain", "\u{e9}"),
        "HTTP/1.1 200 OK\r\nContent-Type: text/plain\r\nContent-Length: 2\r\nConnection: close\r\n\r\n\u{e9}"
    );
}

#[test]
fn printed_numbers_read_back_as_content_length() {
    for n in [0usize, 7, 10, 99, 1_048_576, usize::MAX] {
        assert_eq!(content_length(&format!("Content-Length: {}", n)), Ok(n));
    }
}

#[test]
fn response_framing_reads_back() {
    let body = "h\u{e9}llo \u{200b}";
    let response = http_response(200, "OK", "text/plain; charset=utf-8", body);
    let end = find_header_end(response.as_bytes()).unwrap();
    assert_eq!(end, response.len() - body.len() - 4);
    assert_eq!(content_length(&response[..end]), Ok(body.len()));
    assert_eq!(&response[end + 4..], body);
}

#[test]
fn reading_stops_once_the_request_is_whole() {
    assert!(keep_reading(b"POST /analyze-clipboard HTTP/1.1\r\nContent-Length: 4\r\n\r\nab"));
    assert!(!keep_reading(b"POST /analyze-clipboard HTTP/1.1\r\nContent-Length: 4\r\n\r\nabcd"));
    assert!(keep_reading(b"GET / HTTP/1.1\r\nHost: x"));
    assert!(!keep_reading(b"GET / HTTP/1.1\r\n\r\n"));
    let huge = vec![b'a'; 2 * 1024 * 1024];
    assert!(!keep_reading(&huge));
}
