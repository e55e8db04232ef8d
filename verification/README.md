# clipboard_analyzer

Finds hidden characters in pasted text — control characters, unusual
whitespace, zero-width and bidirectional formatting marks, invisible
letters — and reports each with its character index, byte offset, line,
column, code point, name, category, marker and description. A small HTTP
service answers `POST /analyze-clipboard` with the analysis of the request
body as JSON.

The library in `src/` is verified with Verus:

- `unicode` — line breaks, control characters, `White_Space`, UTF-8 widths
- `classify` — the table of hidden characters
- `analysis` — the analysis of a text and its laws
- `text`, `json` — numerals, code-point labels, JSON escaping and output
- `json_read` — a reader for that JSON, and the laws that it reads back what was written
- `scan` — lines, words, trimming and number parsing for headers
- `http`, `request_laws` — request handling and what it promises
- `rpc`, `outcome` — remote-call results and their flattening

`app/main.rs` runs the service: it accepts connections, reads requests and
writes the responses that the library builds.
