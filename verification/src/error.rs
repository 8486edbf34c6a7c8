//! The failure kinds surfaced by node extraction.

use vstd::prelude::*;

verus! {

/// A fatal extraction failure. Every error is terminal for the call that
/// raised it: no extractor retries or recovers internally.
#[derive(Debug, Clone, PartialEq)]
pub enum ParseError {
    /// No recognizer matched at the current position; carries the
    /// unmatched remainder of the examined region for diagnostics.
    UnknownTexNode(Vec<u8>),
    /// Unbalanced `{`/`}` braces.
    GroupMismatch,
    /// Unbalanced or misnamed `\begin`/`\end` pair.
    EnvironmentMismatch,
}

/// Where a diagnostic preview of `b` ends: after at most 16 bytes, moved
/// back past any UTF-8 continuation bytes so that a multi-byte character
/// of valid UTF-8 text is never split.
pub open spec fn preview_cut(b: Seq<u8>) -> int {
    if b.len() <= 16 {
        b.len() as int
    } else if !vstd::utf8::is_continuation_byte(b[16]) {
        16
    } else if !vstd::utf8::is_continuation_byte(b[15]) {
        15
    } else if !vstd::utf8::is_continuation_byte(b[14]) {
        14
    } else {
        13
    }
}

impl ParseError {
    /// A short diagnostic preview: at most the first 16 bytes of the
    /// unmatched remainder, truncated safely when fewer remain and never
    /// splitting a multi-byte character of valid UTF-8 text.
    pub fn preview(&self) -> (p: Vec<u8>)
        ensures
            match self {
                ParseError::UnknownTexNode(rem) => p@ == rem@.take(preview_cut(rem@)),
                _ => p@ == Seq::<u8>::empty(),
            },
    {
        match self {
            ParseError::UnknownTexNode(rem) => {
                let n: usize = if rem.len() <= 16 {
                    rem.len()
                } else if !(0x80 <= rem[16] && rem[16] <= 0xbf) {
                    16
                } else if !(0x80 <= rem[15] && rem[15] <= 0xbf) {
                    15
                } else if !(0x80 <= rem[14] && rem[14] <= 0xbf) {
                    14
                } else {
                    13
                };
                let p = vstd::slice::slice_to_vec(&rem[0..n]);
                proof {
                    assert(p@ =~= rem@.take(n as int));
                }
                p
            },
            _ => Vec::new(),
        }
    }
}

} // verus!
