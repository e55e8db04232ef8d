//! Finds hidden characters in pasted text (control characters, unusual
//! whitespace, zero-width and bidirectional formatting marks, invisible
//! letters), reports where they stand, and serves the analysis over HTTP.
use vstd::prelude::*;

pub mod unicode;
pub mod classify;
pub mod text;
pub mod analysis;
pub mod json;
pub mod json_read;
pub mod rpc;
pub mod outcome;
pub mod scan;
pub mod http;
pub mod request_laws;

pub use analysis::{analyze_clipboard_text, ClipboardAnalysis, HiddenCharacter};
pub use outcome::MyEnum;

verus! {

/// Collects the characters of a string slice.
pub fn chars_of(s: &str) -> (v: Vec<char>)
    ensures
        v@ == s@,
{
    let mut v: Vec<char> = Vec::new();
    for c in it: s.chars()
        invariant
            v@ == it.seq().take(it.index() as int),
            it.seq() == s@,
    {
        v.push(c);
    }
    v
}

} // verus!
