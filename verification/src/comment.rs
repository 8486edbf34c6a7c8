//! Comment nodes: `%` through the next newline, newline included.

use vstd::prelude::*;
use vstd::string::StringSliceAdditionalSpecFns;

use crate::span::Span;

verus! {

/// The index of the first newline byte at or after `i`, looking no
/// further than `end`.
pub open spec fn newline_pos(s: Seq<u8>, i: int, end: int) -> Option<int>
    decreases end - i,
{
    if i >= end {
        None
    } else if s[i] == '\n' as u8 {
        Some(i)
    } else {
        newline_pos(s, i + 1, end)
    }
}

/// Where a comment anchored at `p` ends (one past its terminating
/// newline), or `None` when no comment matches there. A comment needs a
/// `%` at `p` and a newline before `end`; a trailing comment with no
/// newline is deliberately not recognized.
pub open spec fn comment_end(s: Seq<u8>, p: int, end: int) -> Option<int> {
    if p < end && s[p] == '%' as u8 {
        match newline_pos(s, p + 1, end) {
            Some(j) => Some(j + 1),
            None => None,
        }
    } else {
        None
    }
}

/// A comment; `content` copies the exact bytes at `span`, leading `%`
/// and trailing newline included.
#[derive(Debug, Clone, PartialEq)]
pub struct Comment {
    pub span: Span,
    pub content: Vec<u8>,
}

/// The lexical shape of a well-formed comment node within a region
/// bounded by `bound`.
pub open spec fn comment_shaped(s: Seq<u8>, c: Comment, bound: int) -> bool {
    let p = c.span.start as int;
    &&& comment_end(s, p, bound) == Some(c.span.end as int)
    &&& c.content@ == s.subrange(p, c.span.end as int)
}

/// Recognizes a comment anchored at `start`, bounded by `end`.
pub fn extract_comment(tex: &str, start: usize, end: usize) -> (r: Option<Comment>)
    requires
        start <= end <= tex.spec_bytes().len(),
    ensures
        ({
            let s = tex.spec_bytes();
            match r {
                Some(c) => {
                    &&& c.span.start == start
                    &&& start < c.span.end <= end
                    &&& comment_shaped(s, c, end as int)
                },
                None => comment_end(s, start as int, end as int) is None,
            }
        }),
{
    let b: &[u8] = tex.as_bytes();
    let ghost s = tex.spec_bytes();
    if start >= end || b[start] != ('%' as u8) {
        return None;
    }
    let mut i: usize = start + 1;
    while i < end && b[i] != ('\n' as u8)
        invariant
            start < i <= end <= s.len(),
            b@ == s,
            newline_pos(s, start as int + 1, end as int) == newline_pos(s, i as int, end as int),
        decreases end - i,
    {
        i = i + 1;
    }
    if i >= end {
        return None;
    }
    let content = vstd::slice::slice_to_vec(&b[start..i + 1]);
    Some(Comment { span: Span { start, end: i + 1 }, content })
}

} // verus!
