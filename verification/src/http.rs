//! The HTTP side of the analyzer: finding the end of the headers, reading
//! the declared content length, routing a request and writing the response.
use vstd::prelude::*;
use vstd::slice::slice_subrange;
use vstd::string::StringSliceAdditionalSpecFns;
use vstd::utf8::{valid_utf8, decode_utf8, encode_utf8_decode_utf8};
use crate::analysis::{analysis, analyze_clipboard_text};
use crate::chars_of;
use crate::json::analysis_json;
use crate::scan::{first_from, line_from, lines, lines_from, first_word, second_word, eq_ignore_case,
    trim, parse_usize, lemma_first_from, line_at, find_char, first_two_words, eq_ignore_ascii_case,
    trim_range, parse_usize_range};
use crate::text::{decimal, push_decimal};
use crate::unicode::{utf8_len, lemma_utf8_len_bounds};

verus! {

/// The largest request body that is analyzed, in bytes.
pub const MAX_BODY_BYTES: usize = 1_048_576;
/// What the service answers at `/`: its name and routes.
pub const ROOT_JSON: &'static str = "{\"service\":\"clipboard hidden character analyzer\",\"health\":\"GET /health\",\"analyze\":\"POST /analyze-clipboard\",\"ui\":\"GET /ui\"}";
/// The browser page served at `/ui`.
pub const INDEX_HTML: &'static str = r##"<!doctype html>
<html lang="en">
<head>
  <meta charset="utf-8">
  <meta name="viewport" content="width=device-width, initial-scale=1">
  <title>Clipboard Hidden Character Analyzer</title>
  <style>
    :root {
      color-scheme: light;
      --background: #f7f7f4;
      --surface: #ffffff;
      --surface-muted: #eeeeea;
      --text: #222426;
      --muted: #61666d;
      --border: #d8d8d2;
      --accent: #0f766e;
      --accent-strong: #115e59;
      --danger: #b42318;
      --shadow: 0 16px 48px rgba(24, 28, 32, 0.12);
    }

    * {
      box-sizing: border-box;
    }

    body {
      margin: 0;
      min-height: 100vh;
      background: var(--background);
      color: var(--text);
      font-family: ui-sans-serif, system-ui, -apple-system, BlinkMacSystemFont, "Segoe UI", sans-serif;
      line-height: 1.5;
    }

    main {
      width: min(1120px, calc(100vw - 32px));
      margin: 0 auto;
      padding: 40px 0;
    }

    header {
      display: flex;
      align-items: end;
      justify-content: space-between;
      gap: 24px;
      margin-bottom: 24px;
    }

    h1 {
      margin: 0;
      font-size: clamp(1.75rem, 4vw, 3.25rem);
      line-height: 1.05;
      font-weight: 750;
      letter-spacing: 0;
    }

    .status {
      min-width: 150px;
      padding: 8px 12px;
      border: 1px solid var(--border);
      border-radius: 999px;
      background: var(--surface);
      color: var(--muted);
      font-size: 0.9rem;
      text-align: center;
      white-space: nowrap;
    }

    .workspace {
      display: grid;
      grid-template-columns: minmax(0, 1fr) minmax(340px, 0.9fr);
      gap: 20px;
      align-items: start;
    }

    .panel {
      border: 1px solid var(--border);
      border-radius: 8px;
      background: var(--surface);
      box-shadow: var(--shadow);
      overflow: hidden;
    }

    .panel-header {
      display: flex;
      align-items: center;
      justify-content: space-between;
      gap: 16px;
      padding: 14px 16px;
      border-bottom: 1px solid var(--border);
      background: var(--surface-muted);
    }

    h2 {
      margin: 0;
      font-size: 1rem;
      font-weight: 700;
      letter-spacing: 0;
    }

    textarea {
      display: block;
      width: 100%;
      min-height: 430px;
      padding: 16px;
      border: 0;
      resize: vertical;
      color: var(--text);
      background: #fff;
      font: 1rem/1.55 ui-monospace, SFMono-Regular, Menlo, Consolas, "Liberation Mono", monospace;
      outline: none;
    }

    .actions {
      display: flex;
      gap: 10px;
      padding: 14px 16px;
      border-top: 1px solid var(--border);
      background: var(--surface);
    }

    button {
      min-height: 42px;
      border: 1px solid transparent;
      border-radius: 6px;
      padding: 0 14px;
      font: inherit;
      font-weight: 700;
      cursor: pointer;
    }

    button.primary {
      background: var(--accent);
      color: #ffffff;
    }

    button.primary:hover {
      background: var(--accent-strong);
    }

    button.secondary {
      background: var(--surface);
      border-color: var(--border);
      color: var(--text);
    }

    button.secondary:hover {
      background: var(--surface-muted);
    }

    .summary {
      display: grid;
      grid-template-columns: repeat(2, minmax(0, 1fr));
      gap: 10px;
      padding: 16px;
    }

    .metric {
      min-height: 82px;
      padding: 12px;
      border: 1px solid var(--border);
      border-radius: 8px;
      background: #fbfbf9;
    }

    .metric span {
      display: block;
      color: var(--muted);
      font-size: 0.82rem;
    }

    .metric strong {
      display: block;
      margin-top: 4px;
      font-size: 1.75rem;
      line-height: 1.1;
    }

    .results {
      border-top: 1px solid var(--border);
      overflow-x: auto;
    }

    table {
      width: 100%;
      border-collapse: collapse;
      min-width: 720px;
      font-size: 0.92rem;
    }

    th,
    td {
      padding: 10px 12px;
      border-bottom: 1px solid var(--border);
      text-align: left;
      vertical-align: top;
    }

    th {
      background: #fbfbf9;
      color: var(--muted);
      font-size: 0.78rem;
      text-transform: uppercase;
      letter-spacing: 0.04em;
    }

    code {
      display: inline-block;
      padding: 2px 6px;
      border-radius: 5px;
      background: var(--surface-muted);
      font-family: ui-monospace, SFMono-Regular, Menlo, Consolas, "Liberation Mono", monospace;
      font-size: 0.9em;
    }

    .empty,
    .error {
      padding: 20px 16px;
      color: var(--muted);
    }

    .error {
      color: var(--danger);
      font-weight: 700;
    }

    [hidden] {
      display: none !important;
    }

    @media (max-width: 860px) {
      main {
        width: min(100vw - 24px, 680px);
        padding: 24px 0;
      }

      header,
      .workspace {
        display: block;
      }

      .status {
        display: inline-block;
        margin-top: 14px;
      }

      .panel + .panel {
        margin-top: 16px;
      }

      textarea {
        min-height: 320px;
      }
    }
  </style>
</head>
<body>
  <main>
    <header>
      <h1>Clipboard Hidden Character Analyzer</h1>
      <div class="status" id="status">Ready</div>
    </header>

    <section class="workspace">
      <div class="panel">
        <div class="panel-header">
          <h2>Pasted Text</h2>
        </div>
        <textarea id="input" spellcheck="false" autofocus placeholder="Paste text here"></textarea>
        <div class="actions">
          <button class="primary" id="analyze" type="button">Analyze</button>
          <button class="secondary" id="clear" type="button">Clear</button>
        </div>
      </div>

      <div class="panel" aria-live="polite">
        <div class="panel-header">
          <h2>Results</h2>
        </div>
        <div class="summary" id="summary">
          <div class="metric"><span>Total chars</span><strong id="totalChars">0</strong></div>
          <div class="metric"><span>Total bytes</span><strong id="totalBytes">0</strong></div>
          <div class="metric"><span>Lines</span><strong id="lineCount">0</strong></div>
          <div class="metric"><span>Invisible</span><strong id="invisibleCount">0</strong></div>
        </div>
        <div class="empty" id="empty">Paste text and run an analysis.</div>
        <div class="error" id="error" hidden></div>
        <div class="results" id="results" hidden>
          <table>
            <thead>
              <tr>
                <th>Marker</th>
                <th>Code point</th>
                <th>Line</th>
                <th>Column</th>
                <th>Name</th>
                <th>Category</th>
                <th>Description</th>
              </tr>
            </thead>
            <tbody id="findings"></tbody>
          </table>
        </div>
      </div>
    </section>
  </main>

  <script>
    const input = document.querySelector("#input");
    const status = document.querySelector("#status");
    const empty = document.querySelector("#empty");
    const error = document.querySelector("#error");
    const results = document.querySelector("#results");
    const findings = document.querySelector("#findings");
    const fields = {
      totalChars: document.querySelector("#totalChars"),
      totalBytes: document.querySelector("#totalBytes"),
      lineCount: document.querySelector("#lineCount"),
      invisibleCount: document.querySelector("#invisibleCount")
    };

    document.querySelector("#analyze").addEventListener("click", analyze);
    document.querySelector("#clear").addEventListener("click", () => {
      input.value = "";
      resetAnalysis("Paste text and run an analysis.");
      status.textContent = "Ready";
      input.focus();
    });

    async function analyze() {
      status.textContent = "Analyzing";
      error.hidden = true;

      try {
        const response = await fetch("/analyze-clipboard", {
          method: "POST",
          headers: { "Content-Type": "text/plain; charset=utf-8" },
          body: input.value
        });
        const payload = await response.json();

        if (!response.ok) {
          throw new Error(payload.error || "Analysis failed.");
        }

        renderAnalysis(payload);
        status.textContent = "Complete";
      } catch (err) {
        renderError(err instanceof Error ? err.message : "Analysis failed.");
        status.textContent = "Error";
      }
    }

    function renderAnalysis(analysis) {
      fields.totalChars.textContent = analysis.total_chars;
      fields.totalBytes.textContent = analysis.total_bytes;
      fields.lineCount.textContent = analysis.line_count;
      fields.invisibleCount.textContent = analysis.invisible_count;
      findings.replaceChildren();

      if (analysis.findings.length === 0) {
        renderEmptyFindings("No hidden characters found.");
        return;
      }

      empty.hidden = true;
      error.hidden = true;
      results.hidden = false;

      for (const item of analysis.findings) {
        const row = document.createElement("tr");
        appendCell(row, item.marker, true);
        appendCell(row, item.code_point, true);
        appendCell(row, item.line);
        appendCell(row, item.column);
        appendCell(row, item.name);
        appendCell(row, item.category);
        appendCell(row, item.description);
        findings.append(row);
      }
    }

    function appendCell(row, value, code = false) {
      const cell = document.createElement("td");
      const node = code ? document.createElement("code") : document.createTextNode("");

      if (code) {
        node.textContent = value;
        cell.append(node);
      } else {
        cell.textContent = value;
      }

      row.append(cell);
    }

    function renderEmptyFindings(message) {
      findings.replaceChildren();
      empty.textContent = message;
      empty.hidden = false;
      error.hidden = true;
      results.hidden = true;
    }

    function resetAnalysis(message) {
      resetMetrics();
      renderEmptyFindings(message);
    }

    function resetMetrics() {
      fields.totalChars.textContent = "0";
      fields.totalBytes.textContent = "0";
      fields.lineCount.textContent = "0";
      fields.invisibleCount.textContent = "0";
    }

    function renderError(message) {
      resetMetrics();
      findings.replaceChildren();
      error.textContent = message;
      error.hidden = false;
      empty.hidden = true;
      results.hidden = true;
    }
  </script>
</body>
</html>"##;

/// Why a request's `Content-Length` header cannot be used.
#[derive(Debug, Clone, Copy, PartialEq, Eq)]
pub enum ContentLengthError {
    /// No `Content-Length` header.
    Missing,
    /// A repeated header, or a value that is not an unsigned number.
    Invalid,
}

/// Name for what `String::from_utf8_lossy` returns for a byte sequence:
/// the text it decodes, with each ill-formed part replaced by U+FFFD.
pub uninterp spec fn lossy_utf8(bytes: Seq<u8>) -> Seq<char>;

/// Decodes bytes by `String::from_utf8_lossy`. The contract ties the result
/// to `lossy_utf8` of the bytes, and states that valid UTF-8 is decoded
/// exactly; how ill-formed parts are replaced is left unsaid.
#[verifier::external_body]
fn decode_lossy(bytes: &[u8]) -> (text: String)
    ensures
        text@ == lossy_utf8(bytes@),
        valid_utf8(bytes@) ==> text@ == decode_utf8(bytes@),
{
    String::from_utf8_lossy(bytes).into_owned()
}

/// Reads bytes as UTF-8 text by `std::str::from_utf8`. The contract claims
/// that it succeeds exactly on valid UTF-8, and that the text it gives has
/// the same bytes.
#[verifier::external_body]
fn utf8_text(bytes: &[u8]) -> (text: Option<&str>)
    ensures
        text is Some <==> valid_utf8(bytes@),
        text matches Some(t) ==> t.spec_bytes() == bytes@,
{
    std::str::from_utf8(bytes).ok()
}

/// The four bytes `\r\n\r\n` that end the headers stand at position `i`.
pub open spec fn blank_line_at(r: Seq<u8>, i: int) -> bool {
    0 <= i && i + 4 <= r.len() && r[i] == 13 && r[i + 1] == 10 && r[i + 2] == 13 && r[i + 3] == 10
}

/// The first position at or after `i` where the headers end.
pub open spec fn header_end_from(r: Seq<u8>, i: int) -> Option<int>
    decreases r.len() - i,
{
    if i < 0 || i + 4 > r.len() {
        None
    } else if blank_line_at(r, i) {
        Some(i)
    } else {
        header_end_from(r, i + 1)
    }
}

/// Where the headers of a request end: the first `\r\n\r\n`.
pub open spec fn header_end(r: Seq<u8>) -> Option<int> {
    header_end_from(r, 0)
}

/// An HTTP/1.1 response with the given status, reason, content type and body;
/// `Content-Length` is the byte length of the body.
pub open spec fn http_text(status: nat, reason: Seq<char>, content_type: Seq<char>, body: Seq<char>) -> Seq<char> {
    "HTTP/1.1 "@ + decimal(status) + " "@ + reason + "\r\nContent-Type: "@ + content_type
        + "\r\nContent-Length: "@ + decimal(utf8_len(body)) + "\r\nConnection: close\r\n\r\n"@
        + body
}

/// The first line of the headers (empty when there are no headers).
pub open spec fn request_line(h: Seq<char>) -> Seq<char> {
    if h.len() == 0 {
        Seq::empty()
    } else {
        line_from(h, 0)
    }
}

/// Where the colon of a header line stands (`l.len()` when there is none).
pub open spec fn colon_at(l: Seq<char>) -> int {
    first_from(l, ':', 0)
}

/// The line is a header whose name is `Content-Length`, in any ASCII case.
pub open spec fn is_length_header(l: Seq<char>) -> bool {
    colon_at(l) < l.len() && eq_ignore_case(l.take(colon_at(l)), "content-length"@)
}

/// What follows the colon of a header line.
pub open spec fn header_value(l: Seq<char>) -> Seq<char> {
    l.subrange(colon_at(l) + 1, l.len() as int)
}

/// The values of the `Content-Length` headers among the lines, in order.
pub open spec fn length_values(ls: Seq<Seq<char>>) -> Seq<Seq<char>>
    decreases ls.len(),
{
    if ls.len() == 0 {
        Seq::empty()
    } else if is_length_header(ls.last()) {
        length_values(ls.drop_last()).push(header_value(ls.last()))
    } else {
        length_values(ls.drop_last())
    }
}

/// The content length that headers declare: missing without a
/// `Content-Length` header; invalid when there are several, or when the
/// value (without surrounding whitespace) is not an unsigned number.
pub open spec fn content_length_of(h: Seq<char>) -> Result<usize, ContentLengthError> {
    let vs = length_values(lines(h));
    if vs.len() == 0 {
        Err(ContentLengthError::Missing)
    } else if vs.len() > 1 {
        Err(ContentLengthError::Invalid)
    } else {
        match parse_usize(trim(vs[0])) {
            Some(n) => Ok(n),
            None => Err(ContentLengthError::Invalid),
        }
    }
}

/// Whether a request with headers `h` ending at `he` has been read far enough:
/// its headers are malformed, or its declared body is too large, or all of
/// it is there.
pub open spec fn complete_given(r: Seq<u8>, he: int, h: Seq<char>) -> bool {
    if he + 4 > usize::MAX {
        true
    } else {
        match content_length_of(h) {
            Err(_) => true,
            Ok(cl) => if cl > MAX_BODY_BYTES {
                true
            } else if he + 4 + cl > usize::MAX {
                true
            } else {
                r.len() >= he + 4 + cl
            },
        }
    }
}

/// Whether the bytes read so far hold a whole request (see [`complete_given`]);
/// never before the end of the headers.
pub open spec fn body_complete(r: Seq<u8>) -> bool {
    match header_end(r) {
        None => false,
        Some(he) => complete_given(r, he, lossy_utf8(r.take(he))),
    }
}

/// A JSON response.
pub open spec fn json_response(status: nat, reason: Seq<char>, body: Seq<char>) -> Seq<char> {
    http_text(status, reason, "application/json; charset=utf-8"@, body)
}

/// The response to an analysis request whose declared body length is `cl`.
pub open spec fn analysis_response(r: Seq<u8>, he: int, cl: int) -> Seq<char> {
    if cl > MAX_BODY_BYTES {
        json_response(413, "Payload Too Large"@, "{\"error\":\"Request body must be 1048576 bytes or smaller.\"}"@)
    } else if he + 4 > usize::MAX {
        json_response(400, "Bad Request"@, "{\"error\":\"Malformed request.\"}"@)
    } else if he + 4 + cl > usize::MAX {
        json_response(413, "Payload Too Large"@, "{\"error\":\"Request body must be 1048576 bytes or smaller.\"}"@)
    } else if r.len() < he + 4 + cl {
        json_response(400, "Bad Request"@, "{\"error\":\"Incomplete request body.\"}"@)
    } else if !valid_utf8(r.subrange(he + 4, he + 4 + cl)) {
        json_response(400, "Bad Request"@, "{\"error\":\"Request body must be valid UTF-8 text.\"}"@)
    } else {
        json_response(200, "OK"@, analysis_json(analysis(decode_utf8(r.subrange(he + 4, he + 4 + cl)))))
    }
}

/// The response to a request whose headers, ending at `he`, read as `h`.
pub open spec fn routed_response(r: Seq<u8>, he: int, h: Seq<char>) -> Seq<char> {
    let method = first_word(request_line(h));
    let path = second_word(request_line(h));
    if method == "GET"@ && path == "/health"@ {
        json_response(200, "OK"@, "{\"status\":\"ok\"}"@)
    } else if method == "GET"@ && path == "/"@ {
        json_response(200, "OK"@, ROOT_JSON@)
    } else if method == "GET"@ && path == "/ui"@ {
        http_text(200, "OK"@, "text/html; charset=utf-8"@, INDEX_HTML@)
    } else if !(method == "POST"@ && path == "/analyze-clipboard"@) {
        json_response(404, "Not Found"@, "{\"error\":\"Use POST /analyze-clipboard with the pasted text as the request body.\"}"@)
    } else {
        match content_length_of(h) {
            Err(ContentLengthError::Missing) => json_response(411, "Length Required"@, "{\"error\":\"POST /analyze-clipboard requires a valid Content-Length header.\"}"@),
            Err(ContentLengthError::Invalid) => json_response(400, "Bad Request"@, "{\"error\":\"Content-Length must be a valid non-negative integer.\"}"@),
            Ok(cl) => analysis_response(r, he, cl as int),
        }
    }
}

/// The response to a request.
pub open spec fn response_text(r: Seq<u8>) -> Seq<char> {
    match header_end(r) {
        None => http_text(400, "Bad Request"@, "text/plain; charset=utf-8"@, "Malformed request"@),
        Some(he) => routed_response(r, he, lossy_utf8(r.take(he))),
    }
}

/// Where `header_end_from` lands.
pub proof fn lemma_header_end_from(r: Seq<u8>, i: int)
    requires
        0 <= i,
    ensures
        header_end_from(r, i) matches Some(e) ==> i <= e && blank_line_at(r, e) && forall|k: int|
            i <= k < e ==> !blank_line_at(r, k),
        header_end_from(r, i) is None ==> forall|k: int| i <= k ==> !blank_line_at(r, k),
    decreases r.len() - i,
{
    if i + 4 <= r.len() && !blank_line_at(r, i) {
        lemma_header_end_from(r, i + 1);
    }
}

/// The position of the first `\r\n\r\n` in `request`.
pub fn find_header_end(request: &[u8]) -> (res: Option<usize>)
    ensures
        res matches Some(e) ==> header_end(request@) == Some(e as int),
        res is None ==> header_end(request@) is None,
{
    let n = request.len();
    let mut i: usize = 0;
    while i < n && n - i >= 4
        invariant
            n == request@.len(),
            header_end_from(request@, i as int) == header_end(request@),
        decreases n - i,
    {
        if request[i] == 13 && request[i + 1] == 10 && request[i + 2] == 13 && request[i + 3] == 10 {
            return Some(i);
        }
        i = i + 1;
    }
    None
}

/// Whether `v` holds exactly the characters of `s`.
pub fn chars_equal(v: &Vec<char>, s: &str) -> (res: bool)
    ensures
        res == (v@ == s@),
{
    let t = chars_of(s);
    if v.len() != t.len() {
        return false;
    }
    let mut i: usize = 0;
    while i < v.len()
        invariant
            v.len() == t.len(),
            t@ == s@,
            i <= v.len(),
            forall|k: int| 0 <= k < i ==> v@[k] == t@[k],
        decreases v.len() - i,
    {
        if v[i] != t[i] {
            return false;
        }
        i = i + 1;
    }
    assert(v@ =~= t@);
    true
}

/// The response with the given status line, content type and body.
pub fn http_response(status: u16, reason: &str, content_type: &str, body: &str) -> (response: String)
    ensures
        response@ == http_text(status as nat, reason@, content_type@, body@),
{
    let body_len = body.as_bytes().len();
    let mut out = String::new();
    out.append("HTTP/1.1 ");
    push_decimal(&mut out, status as usize);
    out.append(" ");
    out.append(reason);
    out.append("\r\nContent-Type: ");
    out.append(content_type);
    out.append("\r\nContent-Length: ");
    push_decimal(&mut out, body_len);
    out.append("\r\nConnection: close\r\n\r\n");
    out.append(body);
    assert(out@ =~= http_text(status as nat, reason@, content_type@, body@));
    out
}

/// The content length that the header characters `h` declare.
fn content_length_in(h: &Vec<char>) -> (res: Result<usize, ContentLengthError>)
    ensures
        res == content_length_of(h@),
{
    let target = chars_of("content-length");
    let n = h.len();
    let mut found: Option<usize> = None;
    let mut start: usize = 0;
    let ghost mut done: Seq<Seq<char>> = Seq::empty();
    while start < n
        invariant
            n == h@.len(),
            target@ == "content-length"@,
            start <= n,
            done + lines_from(h@, start as int) == lines(h@),
            length_values(done).len() <= 1,
            found is None <==> length_values(done).len() == 0,
            found matches Some(v) ==> parse_usize(trim(length_values(done)[0])) == Some(v),
        decreases n - start,
    {
        let (line, next) = line_at(h, start);
        let ghost l = line@;
        let colon = find_char(&line, ':', 0);
        proof {
            lemma_first_from(l, ':', 0);
            assert(done.push(l).drop_last() =~= done);
            assert(done.push(l).last() == l);
            assert(done.push(l) + lines_from(h@, next as int) =~= done + lines_from(h@, start as int));
            lemma_length_values_concat(done.push(l), lines_from(h@, next as int));
        }
        if colon < line.len() && eq_ignore_ascii_case(&line, 0, colon, &target) {
            proof {
                assert(line@.subrange(0, colon as int) =~= l.take(colon as int));
                assert(is_length_header(l));
                assert(length_values(done.push(l)) == length_values(done).push(header_value(l)));
            }
            if found.is_some() {
                return Err(ContentLengthError::Invalid);
            }
            let (lo, hi) = trim_range(&line, colon + 1, line.len());
            match parse_usize_range(&line, lo, hi) {
                Some(v) => {
                    found = Some(v);
                },
                None => {
                    return Err(ContentLengthError::Invalid);
                },
            }
        } else {
            proof {
                if colon < line.len() {
                    assert(line@.subrange(0, colon as int) =~= l.take(colon as int));
                }
                assert(!is_length_header(l));
            }
        }
        proof {
            done = done.push(l);
        }
        start = next;
    }
    proof {
        assert(lines_from(h@, start as int) == Seq::<Seq<char>>::empty());
        assert(done =~= lines(h@));
    }
    match found {
        Some(v) => Ok(v),
        None => Err(ContentLengthError::Missing),
    }
}

/// The values found among some lines followed by more lines.
pub proof fn lemma_length_values_concat(a: Seq<Seq<char>>, b: Seq<Seq<char>>)
    ensures
        length_values(a + b) == length_values(a) + length_values(b),
    decreases b.len(),
{
    if b.len() == 0 {
        assert(a + b =~= a);
        assert(length_values(a) + length_values(b) =~= length_values(a));
    } else {
        assert((a + b).drop_last() =~= a + b.drop_last());
        assert((a + b).last() == b.last());
        lemma_length_values_concat(a, b.drop_last());
        if is_length_header(b.last()) {
            assert(length_values(a + b) =~= length_values(a) + length_values(b));
        } else {
            assert(length_values(a + b) =~= length_values(a) + length_values(b));
        }
    }
}

/// The content length that `headers` declare.
pub fn content_length(headers: &str) -> (res: Result<usize, ContentLengthError>)
    ensures
        res == content_length_of(headers@),
{
    let h = chars_of(headers);
    content_length_in(&h)
}

/// Whether a request with headers `headers`, which end at `header_end`,
/// has been read far enough (see [`complete_given`]).
pub fn body_complete_given(buffer: &[u8], header_end: usize, headers: &str) -> (res: bool)
    ensures
        res == complete_given(buffer@, header_end as int, headers@),
{
    let body_start = match header_end.checked_add(4) {
        Some(b) => b,
        None => return true,
    };
    let content_length = match content_length(headers) {
        Ok(n) => n,
        Err(_) => return true,
    };
    if content_length > MAX_BODY_BYTES {
        return true;
    }
    match body_start.checked_add(content_length) {
        Some(expected_length) => buffer.len() >= expected_length,
        None => true,
    }
}

/// Whether the bytes read so far hold a whole request: the headers have
/// ended and either the declared body has arrived, or no more needs to be
/// read because the headers are malformed or declare too large a body.
pub fn request_body_complete(buffer: &[u8]) -> (res: bool)
    ensures
        res == body_complete(buffer@),
        match header_end(buffer@) {
            Some(he) => valid_utf8(buffer@.take(he)) ==> res == complete_given(
                buffer@,
                he,
                decode_utf8(buffer@.take(he)),
            ),
            None => true,
        },
{
    match find_header_end(buffer) {
        None => false,
        Some(header_end) => {
            proof {
                lemma_header_end_from(buffer@, 0);
            }
            let headers = decode_lossy(slice_subrange(buffer, 0, header_end));
            proof {
                assert(buffer@.subrange(0, header_end as int) =~= buffer@.take(header_end as int));
            }
            body_complete_given(buffer, header_end, headers.as_str())
        },
    }
}

/// Whether the server should read more of a request: not once the bytes
/// read hold a whole request (see [`body_complete`]), and not once more than
/// `MAX_BODY_BYTES + 8192` bytes have arrived.
pub fn keep_reading(buffer: &[u8]) -> (more: bool)
    ensures
        more == !(body_complete(buffer@) || buffer@.len() > MAX_BODY_BYTES + 8192),
{
    !(request_body_complete(buffer) || buffer.len() > MAX_BODY_BYTES + 8192)
}

/// The JSON response with the given status, reason and body.
fn json_reply(status: u16, reason: &str, body: &str) -> (response: String)
    ensures
        response@ == json_response(status as nat, reason@, body@),
{
    http_response(status, reason, "application/json; charset=utf-8", body)
}

/// The response to an analysis request whose headers end at `header_end`
/// and declare a body of `content_length` bytes.
fn analysis_reply(request: &[u8], header_end: usize, content_length: usize) -> (response: String)
    ensures
        response@ == analysis_response(request@, header_end as int, content_length as int),
{
    if content_length > MAX_BODY_BYTES {
        return json_reply(413, "Payload Too Large", "{\"error\":\"Request body must be 1048576 bytes or smaller.\"}");
    }
    let body_start = match header_end.checked_add(4) {
        Some(b) => b,
        None => return json_reply(400, "Bad Request", "{\"error\":\"Malformed request.\"}"),
    };
    let expected_length = match body_start.checked_add(content_length) {
        Some(e) => e,
        None => return json_reply(413, "Payload Too Large", "{\"error\":\"Request body must be 1048576 bytes or smaller.\"}"),
    };
    if request.len() < expected_length {
        return json_reply(400, "Bad Request", "{\"error\":\"Incomplete request body.\"}");
    }
    let body = slice_subrange(request, body_start, expected_length);
    match utf8_text(body) {
        None => json_reply(400, "Bad Request", "{\"error\":\"Request body must be valid UTF-8 text.\"}"),
        Some(text) => {
            proof {
                encode_utf8_decode_utf8(text@);
                lemma_utf8_len_bounds(text@);
            }
            let analysis = analyze_clipboard_text(text).to_json();
            json_reply(200, "OK", analysis.as_str())
        },
    }
}

/// The response to a request whose headers end at `header_end` and read as
/// `headers`: the health check, the service description, the browser page,
/// an analysis of the body of `POST /analyze-clipboard`, or an error.
pub fn respond(request: &[u8], header_end: usize, headers: &str) -> (response: String)
    ensures
        response@ == routed_response(request@, header_end as int, headers@),
{
    let h = chars_of(headers);
    let line = if h.len() == 0 {
        Vec::new()
    } else {
        line_at(&h, 0).0
    };
    assert(line@ == request_line(h@));
    let (method, path) = first_two_words(&line);
    let get = chars_equal(&method, "GET");
    if get && chars_equal(&path, "/health") {
        return json_reply(200, "OK", "{\"status\":\"ok\"}");
    }
    if get && chars_equal(&path, "/") {
        return json_reply(200, "OK", ROOT_JSON);
    }
    if get && chars_equal(&path, "/ui") {
        return http_response(200, "OK", "text/html; charset=utf-8", INDEX_HTML);
    }
    if !(chars_equal(&method, "POST") && chars_equal(&path, "/analyze-clipboard")) {
        return json_reply(404, "Not Found", "{\"error\":\"Use POST /analyze-clipboard with the pasted text as the request body.\"}");
    }
    match content_length_in(&h) {
        Err(ContentLengthError::Missing) => json_reply(411, "Length Required", "{\"error\":\"POST /analyze-clipboard requires a valid Content-Length header.\"}"),
        Err(ContentLengthError::Invalid) => json_reply(400, "Bad Request", "{\"error\":\"Content-Length must be a valid non-negative integer.\"}"),
        Ok(cl) => analysis_reply(request, header_end, cl),
    }
}

/// The response to a raw HTTP request.
pub fn build_response(request: &[u8]) -> (response: String)
    ensures
        response@ == response_text(request@),
        match header_end(request@) {
            Some(he) => valid_utf8(request@.take(he)) ==> response@ == routed_response(
                request@,
                he,
                decode_utf8(request@.take(he)),
            ),
            None => true,
        },
{
    match find_header_end(request) {
        None => http_response(400, "Bad Request", "text/plain; charset=utf-8", "Malformed request"),
        Some(header_end) => {
            proof {
                lemma_header_end_from(request@, 0);
            }
            let headers = decode_lossy(slice_subrange(request, 0, header_end));
            proof {
                assert(request@.subrange(0, header_end as int) =~= request@.take(header_end as int));
            }
            respond(request, header_end, headers.as_str())
        },
    }
}

} // verus!
