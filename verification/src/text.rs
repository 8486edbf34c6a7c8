//! Plain-text nodes: maximal runs of ordinary prose characters.

use vstd::prelude::*;
use vstd::string::StringSliceAdditionalSpecFns;

use crate::span::Span;

verus! {

/// The fixed character set a text run is drawn from: ASCII letters,
/// digits, whitespace, and the punctuation band used by prose
/// (`.,?!:;"'/@#&*` and the contiguous `+` through `=` range, which also
/// holds the digits, plus parentheses and square brackets). Whitespace
/// means the six ASCII whitespace bytes only: a non-ASCII whitespace
/// character is not text, so it ends a run and, where nothing else
/// recognizes it, extraction stops with the unknown-node error.
pub open spec fn is_text_byte(b: u8) -> bool {
    ||| ('a' as u8 <= b && b <= 'z' as u8)
    ||| ('A' as u8 <= b && b <= 'Z' as u8)
    ||| ('+' as u8 <= b && b <= '=' as u8)
    ||| b == ' ' as u8
    ||| b == '\t' as u8
    ||| b == '\n' as u8
    ||| b == 11
    ||| b == 12
    ||| b == '\r' as u8
    ||| b == '!' as u8
    ||| b == '"' as u8
    ||| b == '#' as u8
    ||| b == '&' as u8
    ||| b == '\'' as u8
    ||| b == '(' as u8
    ||| b == ')' as u8
    ||| b == '*' as u8
    ||| b == '?' as u8
    ||| b == '@' as u8
    ||| b == '[' as u8
    ||| b == ']' as u8
}

/// The number of consecutive text bytes in `s` starting at `i`, looking
/// no further than `end`.
pub open spec fn text_run_len(s: Seq<u8>, i: int, end: int) -> nat
    decreases end - i,
{
    if i < end && is_text_byte(s[i]) {
        1 + text_run_len(s, i + 1, end)
    } else {
        0
    }
}

/// A text recognizer matches at `p` exactly when a text byte sits there.
pub open spec fn text_matches(s: Seq<u8>, p: int, end: int) -> bool {
    p < end && is_text_byte(s[p])
}

/// A maximal run of prose characters; `content` copies the exact bytes
/// at `span`.
#[derive(Debug, Clone, PartialEq)]
pub struct Text {
    pub span: Span,
    pub content: Vec<u8>,
}

/// The lexical shape of a well-formed text node within a region bounded
/// by `bound`: its span holds the maximal text run at its start and its
/// content copies those bytes.
pub open spec fn text_shaped(s: Seq<u8>, t: Text, bound: int) -> bool {
    let p = t.span.start as int;
    &&& text_matches(s, p, bound)
    &&& t.span.end == p + text_run_len(s, p, bound)
    &&& t.content@ == s.subrange(p, t.span.end as int)
}

/// Exec mirror of [`is_text_byte`].
pub fn text_byte(b: u8) -> (r: bool)
    ensures
        r == is_text_byte(b),
{
    (('a' as u8) <= b && b <= ('z' as u8)) || (('A' as u8) <= b && b <= ('Z' as u8))
        || (('+' as u8) <= b && b <= ('=' as u8)) || b == (' ' as u8) || b == ('\t' as u8)
        || b == ('\n' as u8) || b == 11 || b == 12 || b == ('\r' as u8) || b == ('!' as u8)
        || b == ('"' as u8) || b == ('#' as u8) || b == ('&' as u8) || b == ('\'' as u8)
        || b == ('(' as u8) || b == (')' as u8) || b == ('*' as u8) || b == ('?' as u8)
        || b == ('@' as u8) || b == ('[' as u8) || b == (']' as u8)
}

/// Recognizes the maximal run of text bytes anchored at `start`, bounded
/// by `end`; returns `None` when no text byte sits at `start`.
pub fn extract_text(tex: &str, start: usize, end: usize) -> (r: Option<Text>)
    requires
        start <= end <= tex.spec_bytes().len(),
    ensures
        ({
            let s = tex.spec_bytes();
            match r {
                Some(t) => {
                    &&& t.span.start == start
                    &&& start < t.span.end <= end
                    &&& text_shaped(s, t, end as int)
                },
                None => !text_matches(s, start as int, end as int),
            }
        }),
{
    let b: &[u8] = tex.as_bytes();
    let ghost s = tex.spec_bytes();
    if start >= end || !text_byte(b[start]) {
        return None;
    }
    let mut i: usize = start + 1;
    while i < end && text_byte(b[i])
        invariant
            start < i <= end <= s.len(),
            b@ == s,
            text_run_len(s, start as int, end as int) == (i - start)
                + text_run_len(s, i as int, end as int),
        decreases end - i,
    {
        i = i + 1;
    }
    assert(text_run_len(s, i as int, end as int) == 0);
    let content = vstd::slice::slice_to_vec(&b[start..i]);
    Some(Text { span: Span { start, end: i }, content })
}

} // verus!
