//! What the service promises for whole requests: text posted to
//! `/analyze-clipboard` is answered with its analysis, and a request judged
//! complete holds all of its declared body.
use vstd::prelude::*;
use vstd::utf8::{char_u32_cast, valid_utf8, decode_utf8, encode_utf8, is_ascii_chars, is_ascii_chars_encode_utf8,
    encode_utf8_valid_utf8, encode_utf8_decode_utf8};
use crate::analysis::analysis;
use crate::http::{MAX_BODY_BYTES, blank_line_at, complete_given, body_complete, header_end, header_end_from, routed_response,
    json_response, http_text, ContentLengthError, request_line, content_length_of, colon_at, is_length_header, header_value,
    length_values, analysis_response, lemma_length_values_concat};
use crate::json::analysis_json;
use crate::scan::{ascii_lower, parse_usize, first_from, line_from, lines, lines_from, first_word, second_word, trim,
    next_non_ws, next_ws, trim_end, is_digit, lemma_decimal_digits, law_parse_decimal,
    lemma_first_from, lemma_first_from_at, lemma_next_ws_at, lemma_next_non_ws_at};
use crate::text::decimal;
use crate::unicode::{white_space, utf8_len, lemma_ascii_byte_is_char, lemma_utf8_len_take_strict,
    lemma_utf8_len_push, lemma_encode_utf8_concat};

verus! {

/// The head of a request that posts a body of `n` bytes for analysis:
/// the request line, a `Content-Length` header and the blank line.
pub open spec fn analysis_request_head(n: nat) -> Seq<char> {
    "POST /analyze-clipboard HTTP/1.1\r\nContent-Length: "@ + decimal(n) + "\r\n\r\n"@
}

/// The request that posts `body` for analysis.
pub open spec fn analysis_request(body: Seq<u8>) -> Seq<u8> {
    encode_utf8(analysis_request_head(body.len())) + body
}

/// A decimal numeral has at most one digit more than its value.
proof fn lemma_decimal_len(n: nat)
    ensures
        1 <= decimal(n).len() <= n + 1,
    decreases n,
{
    if n >= 10 {
        lemma_decimal_len(n / 10);
    }
}

/// The headers end at the first blank line.
proof fn lemma_header_end_at(r: Seq<u8>, i: int, e: int)
    requires
        0 <= i <= e,
        blank_line_at(r, e),
        forall|k: int| i <= k < e ==> !blank_line_at(r, k),
    ensures
        header_end_from(r, i) == Some(e),
    decreases e - i,
{
    if i < e {
        lemma_header_end_at(r, i + 1, e);
    }
}

/// The characters of the request head before the content length.
proof fn lemma_head_prefix()
    ensures
        ({
            let p = "POST /analyze-clipboard HTTP/1.1\r\nContent-Length: "@;
            &&& p.len() == 50
            &&& forall|k: int| 0 <= k < 50 ==> '\0' <= #[trigger] p[k] <= '\u{7f}'
            &&& forall|k: int| 0 <= k < 50 && k != 32 ==> #[trigger] p[k] != '\r'
            &&& forall|k: int| 0 <= k < 50 && k != 33 ==> #[trigger] p[k] != '\n'
            &&& forall|k: int| 0 <= k < 50 && k != 48 ==> #[trigger] p[k] != ':'
            &&& p[32] == '\r' && p[33] == '\n' && p[34] == 'C' && p[48] == ':' && p[49] == ' '
        }),
{
    reveal_strlit("POST /analyze-clipboard HTTP/1.1\r\nContent-Length: ");
}

/// The head of an analysis request is ASCII, its headers are the request
/// line and the `Content-Length` header, and in bytes its headers end
/// where the blank line begins.
proof fn lemma_request_bytes(body: Seq<u8>)
    requires
        body.len() <= MAX_BODY_BYTES,
    ensures
        ({
            let n = body.len();
            let h = "POST /analyze-clipboard HTTP/1.1\r\nContent-Length: "@ + decimal(n);
            let r = analysis_request(body);
            &&& h.len() + 4 == analysis_request_head(n).len()
            &&& h.len() <= 50 + n + 1
            &&& is_ascii_chars(h)
            &&& header_end(r) == Some(h.len() as int)
            &&& r.take(h.len() as int) == encode_utf8(h)
            &&& r.len() == h.len() + 4 + n
            &&& r.subrange(h.len() + 4 as int, h.len() + 4 + n as int) == body
        }),
{
    let n = body.len();
    let p = "POST /analyze-clipboard HTTP/1.1\r\nContent-Length: "@;
    let t = "\r\n\r\n"@;
    let d = decimal(n);
    let h = p + d;
    let head = analysis_request_head(n);
    lemma_head_prefix();
    reveal_strlit("\r\n\r\n");
    lemma_decimal_digits(n);
    lemma_decimal_len(n);
    assert(head == h + t);
    let hl = h.len() as int;
    assert(is_ascii_chars(head)) by {
        assert forall|i: int| 0 <= i < head.len() implies '\0' <= #[trigger] head[i] <= '\u{7f}' by {
            if i < 50 {
                assert(head[i] == p[i]);
            } else if i < hl {
                assert(head[i] == d[i - 50]);
                assert(is_digit(d[i - 50]));
            } else {
                assert(head[i] == t[i - hl]);
            }
        }
    }
    assert(is_ascii_chars(h)) by {
        assert forall|i: int| 0 <= i < h.len() implies '\0' <= #[trigger] h[i] <= '\u{7f}' by {
            assert(h[i] == head[i]);
        }
    }
    is_ascii_chars_encode_utf8(head);
    is_ascii_chars_encode_utf8(h);
    let e = encode_utf8(head);
    let r = analysis_request(body);
    assert(r == e + body);
    assert forall|i: int| 0 <= i < head.len() implies #[trigger] r[i] == head[i] as u8 by {
        assert(r[i] == e[i]);
    }
    assert forall|k: int| 0 <= k < hl implies !blank_line_at(r, k) by {
        if k == 32 {
            assert(r[k + 2] == head[k + 2] as u8);
            assert(head[k + 2] == 'C');
        } else if k < 50 {
            assert(r[k] == head[k] as u8);
            assert(head[k] == p[k]);
            assert(p[k] != '\r');
        } else {
            assert(r[k] == head[k] as u8);
            assert(head[k] == d[k - 50]);
            assert(is_digit(d[k - 50]));
        }
    }
    assert(blank_line_at(r, hl)) by {
        assert(r[hl] == head[hl] as u8);
        assert(r[hl + 1] == head[hl + 1] as u8);
        assert(r[hl + 2] == head[hl + 2] as u8);
        assert(r[hl + 3] == head[hl + 3] as u8);
        assert(head[hl] == t[0]);
        assert(head[hl + 1] == t[1]);
        assert(head[hl + 2] == t[2]);
        assert(head[hl + 3] == t[3]);
    }
    lemma_header_end_at(r, 0, hl);
    assert(r.take(hl) =~= encode_utf8(h)) by {
        assert forall|i: int| 0 <= i < hl implies #[trigger] r.take(hl)[i] == encode_utf8(h)[i] by {
            assert(r[i] == head[i] as u8);
            assert(head[i] == h[i]);
        }
    }
    assert(r.subrange(hl + 4, hl + 4 + n) =~= body);
}

/// The request line of an analysis request names `POST` and `/analyze-clipboard`.
proof fn lemma_request_words(n: nat)
    ensures
        ({
            let h = "POST /analyze-clipboard HTTP/1.1\r\nContent-Length: "@ + decimal(n);
            &&& first_word(request_line(h)) == "POST"@
            &&& second_word(request_line(h)) == "/analyze-clipboard"@
            &&& first_word(request_line(h)) != "GET"@
        }),
{
    let p = "POST /analyze-clipboard HTTP/1.1\r\nContent-Length: "@;
    let d = decimal(n);
    let h = p + d;
    lemma_head_prefix();
    reveal_strlit("POST /analyze-clipboard HTTP/1.1\r\nContent-Length: ");
    reveal_strlit("POST");
    reveal_strlit("GET");
    reveal_strlit("/analyze-clipboard");
    lemma_decimal_digits(n);
    assert forall|k: int| 0 <= k < 33 implies h[k] != '\n' by {
        assert(h[k] == p[k]);
    }
    assert(h[33] == '\n');
    lemma_first_from_at(h, '\n', 0, 33);
    let l = request_line(h);
    assert(l =~= p.subrange(0, 32)) by {
        assert(h.subrange(0, 33).last() == '\r');
        assert(h.subrange(0, 33).drop_last() =~= p.subrange(0, 32));
    }
    assert(!white_space(l[0]));
    lemma_next_non_ws_at(l, 0, 0);
    assert forall|k: int| 0 <= k < 4 implies !white_space(#[trigger] l[k]) by {}
    assert(white_space(l[4]));
    lemma_next_ws_at(l, 0, 4);
    assert(first_word(l) =~= "POST"@);
    assert forall|k: int| 4 <= k < 5 implies white_space(#[trigger] l[k]) by {}
    assert(!white_space(l[5]));
    lemma_next_non_ws_at(l, 4, 5);
    assert forall|k: int| 5 <= k < 23 implies !white_space(#[trigger] l[k]) by {}
    assert(white_space(l[23]));
    lemma_next_ws_at(l, 5, 23);
    assert(second_word(l) =~= "/analyze-clipboard"@);
    assert(first_word(l).len() != "GET"@.len());
}

/// The headers of an analysis request declare the length of its body.
proof fn lemma_request_length(n: nat)
    requires
        n <= MAX_BODY_BYTES,
    ensures
        content_length_of("POST /analyze-clipboard HTTP/1.1\r\nContent-Length: "@ + decimal(n))
            == Ok::<usize, crate::http::ContentLengthError>(n as usize),
{
    let p = "POST /analyze-clipboard HTTP/1.1\r\nContent-Length: "@;
    let d = decimal(n);
    let h = p + d;
    let hl = h.len() as int;
    lemma_head_prefix();
    reveal_strlit("POST /analyze-clipboard HTTP/1.1\r\nContent-Length: ");
    reveal_strlit("content-length");
    lemma_decimal_digits(n);
    // the two lines
    assert forall|k: int| 0 <= k < 33 implies h[k] != '\n' by {
        assert(h[k] == p[k]);
    }
    lemma_first_from_at(h, '\n', 0, 33);
    assert forall|k: int| 34 <= k < hl implies h[k] != '\n' by {
        if k < 50 {
            assert(h[k] == p[k]);
        } else {
            assert(h[k] == d[k - 50]);
            assert(is_digit(d[k - 50]));
        }
    }
    lemma_first_from_at(h, '\n', 34, hl);
    let l0 = line_from(h, 0);
    let l1 = line_from(h, 34);
    assert(l0 =~= p.subrange(0, 32)) by {
        assert(h.subrange(0, 33).last() == '\r');
        assert(h.subrange(0, 33).drop_last() =~= p.subrange(0, 32));
    }
    assert(l1 =~= h.subrange(34, hl));
    assert(lines_from(h, hl + 1) == Seq::<Seq<char>>::empty());
    assert(lines_from(h, 34) =~= seq![l1]);
    assert(lines(h) =~= seq![l0, l1]);
    // the request line is no header
    assert forall|k: int| 0 <= k < 32 implies l0[k] != ':' by {}
    lemma_first_from_at(l0, ':', 0, 32);
    assert(!is_length_header(l0));
    // the second line is the Content-Length header
    assert forall|k: int| 0 <= k < 14 implies l1[k] != ':' by {}
    assert(l1[14] == ':');
    lemma_first_from_at(l1, ':', 0, 14);
    assert(colon_at(l1) == 14);
    assert(is_length_header(l1));
    let ls = seq![l0, l1];
    assert(ls.drop_last() =~= seq![l0]);
    assert(seq![l0].drop_last() =~= Seq::<Seq<char>>::empty());
    assert(seq![l0].last() == l0);
    assert(ls.last() == l1);
    assert(length_values(Seq::<Seq<char>>::empty()) =~= Seq::<Seq<char>>::empty());
    assert(length_values(seq![l0]) == length_values(seq![l0].drop_last()));
    assert(length_values(seq![l0]) =~= Seq::<Seq<char>>::empty());
    assert(length_values(ls) =~= seq![header_value(l1)]);
    // its value is the numeral
    let v = header_value(l1);
    assert(v =~= seq![' '] + d);
    assert(white_space(v[0]));
    assert(!white_space(v[1])) by {
        assert(is_digit(d[0]));
    }
    lemma_next_non_ws_at(v, 0, 1);
    assert(!white_space(v[v.len() - 1])) by {
        assert(is_digit(d[d.len() - 1]));
    }
    assert(trim_end(v, 1, v.len() as int) == v.len());
    assert(trim(v) =~= d);
    law_parse_decimal(n as usize);
}

/// Text posted to `/analyze-clipboard` is answered with its analysis: for
/// every UTF-8 body of at most [`MAX_BODY_BYTES`] bytes, the request that
/// posts it with its `Content-Length` has headers that end before the body
/// and decode as UTF-8, and the response to it is `200 OK` with the JSON
/// analysis of the body's text. (`build_response` answers a request with
/// UTF-8 headers by `routed_response`.)
pub proof fn law_posted_text_is_analyzed(body: Seq<u8>)
    requires
        valid_utf8(body),
        body.len() <= MAX_BODY_BYTES,
    ensures
        ({
            let r = analysis_request(body);
            let he = analysis_request_head(body.len()).len() - 4;
            &&& header_end(r) == Some(he)
            &&& valid_utf8(r.take(he))
            &&& routed_response(r, he, decode_utf8(r.take(he))) == json_response(
                200,
                "OK"@,
                analysis_json(analysis(decode_utf8(body))),
            )
        }),
{
    let n = body.len();
    let h = "POST /analyze-clipboard HTTP/1.1\r\nContent-Length: "@ + decimal(n);
    let r = analysis_request(body);
    let hl = h.len() as int;
    lemma_request_bytes(body);
    lemma_request_words(n);
    lemma_request_length(n);
    encode_utf8_valid_utf8(h);
    encode_utf8_decode_utf8(h);
    assert(decode_utf8(r.take(hl)) == h);
    assert(analysis_response(r, hl, n as int) == json_response(
        200,
        "OK"@,
        analysis_json(analysis(decode_utf8(body))),
    ));
}

/// A request whose headers declare a usable length within the limit is
/// judged complete exactly when all of its declared body has arrived; and
/// when it has, the response to it is not the one for an incomplete body
/// (it analyzes the body, or refuses it as invalid UTF-8).
pub proof fn law_complete_iff_body_present(r: Seq<u8>, he: int, h: Seq<char>, cl: usize)
    requires
        0 <= he,
        content_length_of(h) == Ok::<usize, crate::http::ContentLengthError>(cl),
        cl <= MAX_BODY_BYTES,
        he + 4 + cl <= usize::MAX,
    ensures
        complete_given(r, he, h) <==> r.len() >= he + 4 + cl,
        complete_given(r, he, h) ==> analysis_response(r, he, cl as int) == if valid_utf8(
            r.subrange(he + 4, he + 4 + cl),
        ) {
            json_response(
                200,
                "OK"@,
                analysis_json(analysis(decode_utf8(r.subrange(he + 4, he + 4 + cl)))),
            )
        } else {
            json_response(
                400,
                "Bad Request"@,
                "{\"error\":\"Request body must be valid UTF-8 text.\"}"@,
            )
        },
{
}

/// Nothing is complete before the headers end.
pub proof fn law_no_headers_not_complete(r: Seq<u8>)
    requires
        header_end(r) is None,
    ensures
        !body_complete(r),
{
}

/// Where the bytes of a text hold `\r\n\r`, its characters hold `\r\n\r`.
proof fn lemma_blank_bytes_are_chars(s: Seq<char>, k: int)
    requires
        blank_line_at(encode_utf8(s), k),
    ensures
        exists|i: int|
            0 <= i && i + 2 < s.len() && utf8_len(s.take(i)) == k && #[trigger] s[i] == '\r' && s[i
                + 1] == '\n' && s[i + 2] == '\r',
{
    let e = encode_utf8(s);
    lemma_ascii_byte_is_char(s, k);
    let i = choose|i: int|
        0 <= i < s.len() && utf8_len(s.take(i)) == k && #[trigger] s[i] as u32 == e[k] as u32;
    char_u32_cast(s[i], 13);
    char_u32_cast('\r', 13);
    assert(s[i] == '\r');
    lemma_ascii_byte_is_char(s, k + 1);
    let i1 = choose|i1: int|
        0 <= i1 < s.len() && utf8_len(s.take(i1)) == k + 1 && #[trigger] s[i1] as u32 == e[k + 1] as u32;
    lemma_ascii_byte_is_char(s, k + 2);
    let i2 = choose|i2: int|
        0 <= i2 < s.len() && utf8_len(s.take(i2)) == k + 2 && #[trigger] s[i2] as u32 == e[k + 2] as u32;
    assert(s.take(i + 1) =~= s.take(i).push(s[i]));
    lemma_utf8_len_push(s.take(i), s[i]);
    assert(utf8_len(s.take(i + 1)) == k + 1);
    if i1 < i + 1 {
        lemma_utf8_len_take_strict(s, i1, i + 1);
    } else if i1 > i + 1 {
        lemma_utf8_len_take_strict(s, i + 1, i1);
    }
    assert(i1 == i + 1);
    char_u32_cast(s[i1], 10);
    char_u32_cast('\n', 10);
    assert(s[i + 1] == '\n');
    assert(s.take(i + 2) =~= s.take(i + 1).push(s[i + 1]));
    lemma_utf8_len_push(s.take(i + 1), s[i + 1]);
    if i2 < i + 2 {
        lemma_utf8_len_take_strict(s, i2, i + 2);
    } else if i2 > i + 2 {
        lemma_utf8_len_take_strict(s, i + 2, i2);
    }
    assert(i2 == i + 2);
    char_u32_cast(s[i2], 13);
    assert(s[i + 2] == '\r');
}

/// Text that holds neither a carriage return nor a line feed.
pub open spec fn single_line_text(t: Seq<char>) -> bool {
    forall|i: int| 0 <= i < t.len() ==> #[trigger] t[i] != '\r' && t[i] != '\n'
}

/// The head of a response without its final blank line: the status line,
/// the `Content-Type`, `Content-Length` and `Connection` headers.
pub open spec fn response_head(status: nat, reason: Seq<char>, content_type: Seq<char>, length: nat) -> Seq<char> {
    "HTTP/1.1 "@ + decimal(status) + " "@ + reason + "\r\nContent-Type: "@ + content_type
        + "\r\nContent-Length: "@ + decimal(length) + "\r\nConnection: close"@
}

/// The characters of the fixed parts of a response head.
proof fn lemma_response_literals()
    ensures
        ({
            let p1 = "HTTP/1.1 "@;
            let p3 = "\r\nContent-Type: "@;
            let p4 = "\r\nContent-Length: "@;
            let q = "\r\nConnection: close"@;
            &&& p1.len() == 9 && p1[0] == 'H'
            &&& forall|k: int| 0 <= k < 9 ==> #[trigger] p1[k] != '\r' && p1[k] != '\n' && p1[k] != ':'
            &&& " "@ == seq![' ']
            &&& p3.len() == 16 && p3[0] == '\r' && p3[1] == '\n' && p3[2] == 'C' && p3[14] == ':'
                && p3[15] == ' '
            &&& forall|k: int| 2 <= k < 16 ==> #[trigger] p3[k] != '\r' && p3[k] != '\n'
            &&& forall|k: int| 2 <= k < 14 ==> #[trigger] p3[k] != ':'
            &&& p4.len() == 18 && p4[0] == '\r' && p4[1] == '\n' && p4[2] == 'C' && p4[16] == ':'
                && p4[17] == ' '
            &&& forall|k: int| 2 <= k < 18 ==> #[trigger] p4[k] != '\r' && p4[k] != '\n'
            &&& forall|k: int| 2 <= k < 16 ==> #[trigger] p4[k] != ':'
            &&& q.len() == 19 && q[0] == '\r' && q[1] == '\n' && q[2] == 'C' && q[12] == ':'
            &&& forall|k: int| 2 <= k < 19 ==> #[trigger] q[k] != '\r' && q[k] != '\n'
            &&& forall|k: int| 2 <= k < 12 ==> #[trigger] q[k] != ':'
            &&& "\r\nConnection: close\r\n\r\n"@ == q + "\r\n\r\n"@
            &&& "\r\n\r\n"@ == seq!['\r', '\n', '\r', '\n']
            &&& "content-length"@.len() == 14 && "content-length"@[0] == 'c'
            &&& forall|k: int| 0 <= k < 14 ==> ascii_lower(#[trigger] p4[k + 2] as u32) == ascii_lower(
                "content-length"@[k] as u32,
            )
        }),
{
    reveal_strlit("HTTP/1.1 ");
    reveal_strlit(" ");
    reveal_strlit("\r\nContent-Type: ");
    reveal_strlit("\r\nContent-Length: ");
    reveal_strlit("\r\nConnection: close");
    reveal_strlit("\r\nConnection: close\r\n\r\n");
    reveal_strlit("\r\n\r\n");
    reveal_strlit("content-length");
    assert("\r\nConnection: close\r\n\r\n"@ =~= "\r\nConnection: close"@ + "\r\n\r\n"@);
    assert(" "@ =~= seq![' ']);
    assert("\r\n\r\n"@ =~= seq!['\r', '\n', '\r', '\n']);
}

/// Where a carriage return stands in a response head, a `C` follows its line feed.
proof fn lemma_response_head_breaks(status: nat, reason: Seq<char>, content_type: Seq<char>, length: nat)
    requires
        single_line_text(reason),
        single_line_text(content_type),
    ensures
        ({
            let h = response_head(status, reason, content_type, length);
            forall|i: int| 0 <= i < h.len() && #[trigger] h[i] == '\r' ==> i + 2 < h.len() && h[i + 2] == 'C'
        }),
{
    lemma_response_literals();
    lemma_decimal_digits(status);
    lemma_decimal_digits(length);
    let p1 = "HTTP/1.1 "@;
    let p3 = "\r\nContent-Type: "@;
    let p4 = "\r\nContent-Length: "@;
    let q = "\r\nConnection: close"@;
    let d1 = decimal(status);
    let d2 = decimal(length);
    let h = response_head(status, reason, content_type, length);
    let o2 = 9 + d1.len();
    let o3 = o2 + 1;
    let o4 = o3 + reason.len();
    let o5 = o4 + 16;
    let o6 = o5 + content_type.len();
    let o7 = o6 + 18;
    let o8 = o7 + d2.len();
    assert(h.len() == o8 + 19);
    assert forall|i: int| 0 <= i < h.len() && #[trigger] h[i] == '\r' implies i + 2 < h.len() && h[i + 2] == 'C' by {
        if i < 9 {
            assert(h[i] == p1[i]);
        } else if i < o2 {
            assert(h[i] == d1[i - 9]);
            assert(is_digit(d1[i - 9]));
        } else if i < o3 {
            assert(h[i] == ' ');
        } else if i < o4 {
            assert(h[i] == reason[i - o3]);
        } else if i < o5 {
            assert(h[i] == p3[i - o4]);
            assert(i == o4);
            assert(h[i + 2] == p3[2]);
        } else if i < o6 {
            assert(h[i] == content_type[i - o5]);
        } else if i < o7 {
            assert(h[i] == p4[i - o6]);
            assert(i == o6);
            assert(h[i + 2] == p4[2]);
        } else if i < o8 {
            assert(h[i] == d2[i - o7]);
            assert(is_digit(d2[i - o7]));
        } else {
            assert(h[i] == q[i - o8]);
            assert(i == o8);
            assert(h[i + 2] == q[2]);
        }
    }
}

/// A response head declares the length it was written with.
proof fn lemma_response_head_length(status: nat, reason: Seq<char>, content_type: Seq<char>, length: nat)
    requires
        single_line_text(reason),
        single_line_text(content_type),
        length <= usize::MAX,
    ensures
        content_length_of(response_head(status, reason, content_type, length))
            == Ok::<usize, ContentLengthError>(length as usize),
{
    lemma_response_literals();
    lemma_decimal_digits(status);
    lemma_decimal_digits(length);
    let p1 = "HTTP/1.1 "@;
    let p3 = "\r\nContent-Type: "@;
    let p4 = "\r\nContent-Length: "@;
    let q = "\r\nConnection: close"@;
    let d1 = decimal(status);
    let d2 = decimal(length);
    let h = response_head(status, reason, content_type, length);
    let o2: int = 9 + d1.len() as int;
    let o3: int = o2 + 1;
    let o4: int = o3 + reason.len();
    let o5: int = o4 + 16;
    let o6: int = o5 + content_type.len();
    let o7: int = o6 + 18;
    let o8: int = o7 + d2.len();
    let n: int = o8 + 19;
    assert(h.len() == n);
    // no line feed except after the three carriage returns
    assert forall|i: int| 0 <= i < n && #[trigger] h[i] == '\n' implies i == o4 + 1 || i == o6 + 1 || i
        == o8 + 1 by {
        if i < 9 {
            assert(h[i] == p1[i]);
        } else if i < o2 {
            assert(h[i] == d1[i - 9]);
            assert(is_digit(d1[i - 9]));
        } else if i < o3 {
            assert(h[i] == ' ');
        } else if i < o4 {
            assert(h[i] == reason[i - o3]);
        } else if i < o5 {
            assert(h[i] == p3[i - o4]);
        } else if i < o6 {
            assert(h[i] == content_type[i - o5]);
        } else if i < o7 {
            assert(h[i] == p4[i - o6]);
        } else if i < o8 {
            assert(h[i] == d2[i - o7]);
            assert(is_digit(d2[i - o7]));
        } else {
            assert(h[i] == q[i - o8]);
        }
    }
    assert(h[o4] == '\r' && h[o4 + 1] == '\n');
    assert(h[o6] == '\r' && h[o6 + 1] == '\n');
    assert(h[o8] == '\r' && h[o8 + 1] == '\n');
    lemma_first_from_at(h, '\n', 0, o4 + 1);
    lemma_first_from_at(h, '\n', o4 + 2, o6 + 1);
    lemma_first_from_at(h, '\n', o6 + 2, o8 + 1);
    lemma_first_from_at(h, '\n', o8 + 2, n);
    let l0 = line_from(h, 0);
    let l1 = line_from(h, o4 + 2);
    let l2 = line_from(h, o6 + 2);
    let l3 = line_from(h, o8 + 2);
    assert(l0 =~= h.subrange(0, o4));
    assert(l1 =~= h.subrange(o4 + 2, o6));
    assert(l2 =~= h.subrange(o6 + 2, o8));
    assert(l3 =~= h.subrange(o8 + 2, n));
    assert(lines_from(h, n + 1) == Seq::<Seq<char>>::empty());
    assert(lines_from(h, o8 + 2) =~= seq![l3]);
    assert(lines_from(h, o6 + 2) =~= seq![l2, l3]);
    assert(lines_from(h, o4 + 2) =~= seq![l1, l2, l3]);
    assert(lines(h) =~= seq![l0, l1, l2, l3]);
    // the status line is no Content-Length header: its name begins with `H`
    lemma_first_from(l0, ':', 0);
    assert(l0[0] == 'H');
    if colon_at(l0) < l0.len() {
        assert(colon_at(l0) > 0);
        let name = l0.take(colon_at(l0));
        assert(ascii_lower(name[0] as u32) != ascii_lower("content-length"@[0] as u32));
    }
    assert(!is_length_header(l0));
    // Content-Type: its name has twelve characters
    assert forall|k: int| 0 <= k < 12 implies l1[k] != ':' by {
        assert(l1[k] == p3[k + 2]);
    }
    assert(l1[12] == p3[14]);
    lemma_first_from_at(l1, ':', 0, 12);
    assert(!is_length_header(l1));
    // Connection: its name has ten characters
    assert forall|k: int| 0 <= k < 10 implies l3[k] != ':' by {
        assert(l3[k] == q[k + 2]);
    }
    assert(l3[10] == q[12]);
    lemma_first_from_at(l3, ':', 0, 10);
    assert(!is_length_header(l3));
    // Content-Length
    assert forall|k: int| 0 <= k < 14 implies l2[k] != ':' by {
        assert(l2[k] == p4[k + 2]);
    }
    assert(l2[14] == p4[16]);
    lemma_first_from_at(l2, ':', 0, 14);
    assert forall|k: int| 0 <= k < 14 implies #[trigger] ascii_lower(l2.take(14)[k] as u32) == ascii_lower(
        "content-length"@[k] as u32,
    ) by {
        assert(l2.take(14)[k] == p4[k + 2]);
    }
    assert(is_length_header(l2));
    let ls = seq![l0, l1, l2, l3];
    assert(ls.drop_last() =~= seq![l0, l1, l2]);
    assert(seq![l0, l1, l2].drop_last() =~= seq![l0, l1]);
    assert(seq![l0, l1].drop_last() =~= seq![l0]);
    assert(seq![l0].drop_last() =~= Seq::<Seq<char>>::empty());
    assert(length_values(Seq::<Seq<char>>::empty()) =~= Seq::<Seq<char>>::empty());
    assert(length_values(seq![l0]) == length_values(seq![l0].drop_last()));
    assert(length_values(seq![l0, l1]) == length_values(seq![l0]));
    assert(length_values(seq![l0, l1, l2]) == length_values(seq![l0, l1]).push(header_value(l2)));
    assert(length_values(ls) == length_values(seq![l0, l1, l2]));
    assert(length_values(ls) =~= seq![header_value(l2)]);
    // its value is the numeral
    let v = header_value(l2);
    assert(v =~= seq![' '] + d2);
    assert(white_space(v[0]));
    assert(!white_space(v[1])) by {
        assert(is_digit(d2[0]));
    }
    lemma_next_non_ws_at(v, 0, 1);
    assert(!white_space(v[v.len() - 1])) by {
        assert(is_digit(d2[d2.len() - 1]));
    }
    assert(trim_end(v, 1, v.len() as int) == v.len());
    assert(trim(v) =~= d2);
    law_parse_decimal(length as usize);
}

/// Header lines joined by CR LF.
pub open spec fn crlf_joined(ls: Seq<Seq<char>>) -> Seq<char>
    decreases ls.len(),
{
    if ls.len() == 0 {
        Seq::empty()
    } else if ls.len() == 1 {
        ls[0]
    } else {
        ls[0] + "\r\n"@ + crlf_joined(ls.drop_first())
    }
}

/// The lines of joined single-line texts are those texts (a final empty
/// one excepted, which leaves no line).
proof fn lemma_lines_from_joined(s: Seq<char>, start: int, ls: Seq<Seq<char>>)
    requires
        0 <= start <= s.len(),
        s.subrange(start, s.len() as int) == crlf_joined(ls),
        forall|i: int| 0 <= i < ls.len() ==> single_line_text(#[trigger] ls[i]),
    ensures
        lines_from(s, start) == if ls.len() > 0 && ls.last().len() == 0 {
            ls.drop_last()
        } else {
            ls
        },
    decreases ls.len(),
{
    let t = s.subrange(start, s.len() as int);
    if ls.len() == 0 {
        assert(t.len() == 0);
    } else if ls.len() == 1 {
        let l = ls[0];
        assert(single_line_text(l));
        if l.len() == 0 {
            assert(t.len() == 0);
            assert(ls.drop_last() =~= Seq::<Seq<char>>::empty());
        } else {
            assert forall|k: int| start <= k < s.len() implies s[k] != '\n' by {
                assert(s[k] == t[k - start]);
                assert(l[k - start] != '\n');
            }
            lemma_first_from_at(s, '\n', start, s.len() as int);
            assert(line_from(s, start) =~= l);
            assert(lines_from(s, s.len() + 1int) == Seq::<Seq<char>>::empty());
            assert(lines_from(s, start) =~= ls);
        }
    } else {
        reveal_strlit("\r\n");
        let l = ls[0];
        let rest = ls.drop_first();
        assert(single_line_text(l));
        let j = crlf_joined(rest);
        assert(t == l + "\r\n"@ + j);
        let e = start + l.len() + 1;
        assert(s[e - 1] == t[l.len() as int]);
        assert(s[e] == t[l.len() + 1int]);
        assert forall|k: int| start <= k < e implies s[k] != '\n' by {
            assert(s[k] == t[k - start]);
            if k < e - 1 {
                assert(t[k - start] == l[k - start]);
            }
        }
        lemma_first_from_at(s, '\n', start, e);
        assert(line_from(s, start) =~= l);
        assert("\r\n"@.len() == 2);
        assert(s.len() == e + 1 + j.len());
        assert forall|i: int| 0 <= i < j.len() implies #[trigger] s.subrange(e + 1, s.len() as int)[i]
            == j[i] by {
            assert(s[e + 1 + i] == t[l.len() + 2 + i]);
        }
        assert(s.subrange(e + 1, s.len() as int) =~= j);
        assert forall|i: int| 0 <= i < rest.len() implies single_line_text(#[trigger] rest[i]) by {
            assert(rest[i] == ls[i + 1]);
        }
        lemma_lines_from_joined(s, e + 1, rest);
        assert(lines_from(s, start) == seq![l] + lines_from(s, e + 1));
        assert(rest.last() == ls.last());
        if ls.last().len() == 0 {
            assert(seq![l] + rest.drop_last() =~= ls.drop_last());
        } else {
            assert(seq![l] + rest =~= ls);
        }
    }
}

/// Lines none of which is a `Content-Length` header declare no length.
proof fn lemma_no_length_values(ls: Seq<Seq<char>>)
    requires
        forall|i: int| 0 <= i < ls.len() ==> !is_length_header(#[trigger] ls[i]),
    ensures
        length_values(ls) == Seq::<Seq<char>>::empty(),
    decreases ls.len(),
{
    if ls.len() > 0 {
        assert(!is_length_header(ls[ls.len() - 1]));
        lemma_no_length_values(ls.drop_last());
    }
}

/// The header line `Content-Length: n` is a `Content-Length` header whose
/// value reads as `n`.
proof fn lemma_length_line(n: nat)
    requires
        n <= usize::MAX,
    ensures
        ({
            let l = "Content-Length: "@ + decimal(n);
            &&& single_line_text(l)
            &&& is_length_header(l)
            &&& parse_usize(trim(header_value(l))) == Some(n as usize)
        }),
{
    lemma_response_literals();
    lemma_decimal_digits(n);
    let p4 = "\r\nContent-Length: "@;
    reveal_strlit("Content-Length: ");
    reveal_strlit("\r\nContent-Length: ");
    let p = "Content-Length: "@;
    assert(p =~= p4.subrange(2, 18));
    let d = decimal(n);
    let l = p + d;
    assert forall|i: int| 0 <= i < l.len() implies #[trigger] l[i] != '\r' && l[i] != '\n' by {
        if i < 16 {
            assert(l[i] == p4[i + 2]);
        } else {
            assert(l[i] == d[i - 16]);
            assert(is_digit(d[i - 16]));
        }
    }
    assert forall|k: int| 0 <= k < 14 implies l[k] != ':' by {
        assert(l[k] == p4[k + 2]);
    }
    assert(l[14] == ':');
    lemma_first_from_at(l, ':', 0, 14);
    assert forall|k: int| 0 <= k < 14 implies #[trigger] ascii_lower(l.take(14)[k] as u32) == ascii_lower(
        "content-length"@[k] as u32,
    ) by {
        assert(l.take(14)[k] == p4[k + 2]);
    }
    assert(is_length_header(l));
    let v = header_value(l);
    assert(v =~= seq![' '] + d);
    assert(white_space(v[0]));
    assert(!white_space(v[1])) by {
        assert(is_digit(d[0]));
    }
    lemma_next_non_ws_at(v, 0, 1);
    assert(!white_space(v[v.len() - 1])) by {
        assert(is_digit(d[d.len() - 1]));
    }
    assert(trim_end(v, 1, v.len() as int) == v.len());
    assert(trim(v) =~= d);
    law_parse_decimal(n as usize);
}

/// A `Content-Length` header is found wherever it stands among the header
/// lines: with any single-line headers before and after it, none of them a
/// `Content-Length` header, the headers declare the length it gives.
pub proof fn law_content_length_anywhere(before: Seq<Seq<char>>, n: nat, after: Seq<Seq<char>>)
    requires
        n <= usize::MAX,
        forall|i: int| 0 <= i < before.len() ==> single_line_text(#[trigger] before[i]),
        forall|i: int| 0 <= i < before.len() ==> !is_length_header(#[trigger] before[i]),
        forall|i: int| 0 <= i < after.len() ==> single_line_text(#[trigger] after[i]),
        forall|i: int| 0 <= i < after.len() ==> !is_length_header(#[trigger] after[i]),
    ensures
        content_length_of(crlf_joined(before + seq!["Content-Length: "@ + decimal(n)] + after))
            == Ok::<usize, ContentLengthError>(n as usize),
{
    let l = "Content-Length: "@ + decimal(n);
    lemma_length_line(n);
    let mid = seq![l];
    let ls = before + mid + after;
    let h = crlf_joined(ls);
    assert forall|i: int| 0 <= i < ls.len() implies single_line_text(#[trigger] ls[i]) by {
        if i < before.len() {
            assert(ls[i] == before[i]);
        } else if i > before.len() {
            assert(ls[i] == after[i - before.len() - 1]);
        }
    }
    assert(h.subrange(0, h.len() as int) =~= h);
    lemma_lines_from_joined(h, 0, ls);
    lemma_length_values_concat(before + mid, after);
    lemma_length_values_concat(before, mid);
    lemma_no_length_values(before);
    lemma_no_length_values(after);
    assert(mid.drop_last() =~= Seq::<Seq<char>>::empty());
    assert(length_values(mid) == length_values(mid.drop_last()).push(header_value(l)));
    if ls.last().len() == 0 {
        assert(after.len() > 0);
        assert(ls.last() == after.last());
        assert(colon_at(ls.last()) == 0);
        assert(length_values(ls) == length_values(ls.drop_last()));
    }
    assert(length_values(lines(h)) =~= seq![header_value(l)]);
}

/// The framing that [`crate::http::http_response`] writes is read back by
/// the request parser: when the reason and the content type hold no line
/// break, the headers of the response's bytes end just before the body (the
/// blank line excepted), they decode to the response head, and the
/// `Content-Length` they declare is the byte length of the body.
pub proof fn law_response_framing(status: nat, reason: Seq<char>, content_type: Seq<char>, body: Seq<char>)
    requires
        single_line_text(reason),
        single_line_text(content_type),
        utf8_len(body) <= usize::MAX,
    ensures
        ({
            let r = encode_utf8(http_text(status, reason, content_type, body));
            let he = r.len() - utf8_len(body) - 4;
            &&& header_end(r) == Some(he)
            &&& valid_utf8(r.take(he))
            &&& decode_utf8(r.take(he)) == response_head(status, reason, content_type, utf8_len(body))
            &&& content_length_of(decode_utf8(r.take(he))) == Ok::<usize, ContentLengthError>(
                utf8_len(body) as usize,
            )
        }),
{
    let len = utf8_len(body);
    let h = response_head(status, reason, content_type, len);
    let t = "\r\n\r\n"@;
    lemma_response_literals();
    lemma_response_head_breaks(status, reason, content_type, len);
    lemma_response_head_length(status, reason, content_type, len);
    let f = h + t + body;
    assert(http_text(status, reason, content_type, body) =~= f);
    lemma_encode_utf8_concat(h, t);
    lemma_encode_utf8_concat(h + t, body);
    assert(is_ascii_chars(t));
    is_ascii_chars_encode_utf8(t);
    let r = encode_utf8(f);
    let he = utf8_len(h) as int;
    assert(r =~= encode_utf8(h) + encode_utf8(t) + encode_utf8(body));
    assert(r.len() == he + 4 + len);
    assert(blank_line_at(r, he)) by {
        assert(r[he] == encode_utf8(t)[0]);
        assert(r[he + 1] == encode_utf8(t)[1]);
        assert(r[he + 2] == encode_utf8(t)[2]);
        assert(r[he + 3] == encode_utf8(t)[3]);
    }
    assert(f.take(h.len() as int) =~= h);
    assert forall|k: int| 0 <= k < he implies !blank_line_at(r, k) by {
        if blank_line_at(r, k) {
            lemma_blank_bytes_are_chars(f, k);
            let i = choose|i: int|
                0 <= i && i + 2 < f.len() && utf8_len(f.take(i)) == k && #[trigger] f[i] == '\r'
                    && f[i + 1] == '\n' && f[i + 2] == '\r';
            if i > h.len() {
                lemma_utf8_len_take_strict(f, h.len() as int, i);
            }
            assert(i < h.len());
            assert(f[i] == h[i]);
            assert(f[i + 2] == h[i + 2]);
        }
    }
    lemma_header_end_at(r, 0, he);
    assert(r.take(he) =~= encode_utf8(h));
    encode_utf8_valid_utf8(h);
    encode_utf8_decode_utf8(h);
}

} // verus!
