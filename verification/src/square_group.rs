//! Square groups: `[ ... ]` on a single line, not nesting-aware.

use vstd::prelude::*;

use vstd::string::StringSliceAdditionalSpecFns;

use crate::error::ParseError;
use crate::node::{square_group_shaped, TexNode};
use crate::span::Span;

verus! {

/// The index of the first `]` or newline at or after `i`, looking no
/// further than `end`. An inner `]` terminates a square group regardless
/// of nesting, and a newline is never spanned.
pub open spec fn square_stop(s: Seq<u8>, i: int, end: int) -> Option<int>
    decreases end - i,
{
    if i >= end {
        None
    } else if s[i] == ']' as u8 || s[i] == '\n' as u8 {
        Some(i)
    } else {
        square_stop(s, i + 1, end)
    }
}

/// The index of the `]` closing a square group opened at `p`, or `None`
/// when none matches there (no `[` at `p`, or a newline or the region
/// end comes first).
pub open spec fn square_close(s: Seq<u8>, p: int, end: int) -> Option<int> {
    if p < end && s[p] == '[' as u8 {
        match square_stop(s, p + 1, end) {
            Some(j) => if s[j] == ']' as u8 {
                Some(j)
            } else {
                None
            },
            None => None,
        }
    } else {
        None
    }
}

/// A square-bracket group; the span includes both brackets, the
/// children cover the interior strictly between them.
#[derive(Debug, PartialEq)]
pub struct SquareGroup {
    pub span: Span,
    pub children: Vec<TexNode>,
}

/// Recognizes a square group anchored at `start`, bounded by `end`:
/// `[`, any run of bytes other than `]` and newline, then `]`. The
/// interior is extracted recursively; its failure aborts the call.
pub fn extract_square_group(tex: &str, start: usize, end: usize) -> (r: Result<
    Option<SquareGroup>,
    ParseError,
>)
    requires
        start <= end <= tex.spec_bytes().len(),
    ensures
        ({
            let s = tex.spec_bytes();
            &&& (match r {
                Ok(Some(q)) => {
                    &&& q.span.start == start
                    &&& start < q.span.end <= end
                    &&& square_group_shaped(s, q, end as int)
                },
                Ok(None) => square_close(s, start as int, end as int) is None,
                Err(_) => square_close(s, start as int, end as int) is Some,
            })
            &&& ((square_close(s, start as int, end as int) matches Some(j) && crate::node::region_parses(
                s,
                start as int + 1,
                j,
            )) ==> r is Ok)
        }),
    decreases end - start, 0int,
{
    let b: &[u8] = tex.as_bytes();
    let ghost s = tex.spec_bytes();
    if start >= end || b[start] != ('[' as u8) {
        return Ok(None);
    }
    let mut j: usize = start + 1;
    while j < end && b[j] != (']' as u8) && b[j] != ('\n' as u8)
        invariant
            start < j <= end <= s.len(),
            s == tex.spec_bytes(),
            b@ == s,
            square_stop(s, start as int + 1, end as int) == square_stop(s, j as int, end as int),
        decreases end - j,
    {
        j = j + 1;
    }
    if j >= end || b[j] != (']' as u8) {
        return Ok(None);
    }
    let children = match crate::node::extract_nodes(tex, start + 1, j) {
        Ok(children) => children,
        Err(e) => {
            return Err(e);
        },
    };
    Ok(Some(SquareGroup { span: Span { start, end: j + 1 }, children }))
}

/// A successful stop scan lands inside the region, at or after its
/// start.
pub proof fn lemma_square_stop_props(s: Seq<u8>, i: int, end: int)
    ensures
        square_stop(s, i, end) matches Some(j) ==> i <= j < end,
    decreases end - i,
{
    if i < end && s[i] != ']' as u8 && s[i] != '\n' as u8 {
        lemma_square_stop_props(s, i + 1, end);
    }
}

} // verus!
