//! Inline mathematics: `$ ... $` with a non-empty interior and no inner
//! dollar sign.

use vstd::prelude::*;

use vstd::string::StringSliceAdditionalSpecFns;

use crate::error::ParseError;
use crate::node::{inline_math_shaped, TexNode};
use crate::span::Span;

verus! {

/// The index of the first `$` at or after `i`, looking no further than
/// `end`.
pub open spec fn dollar_pos(s: Seq<u8>, i: int, end: int) -> Option<int>
    decreases end - i,
{
    if i >= end {
        None
    } else if s[i] == '$' as u8 {
        Some(i)
    } else {
        dollar_pos(s, i + 1, end)
    }
}

/// The index of the `$` closing an inline-math span opened at `p`, or
/// `None` when none matches there. The interior must hold at least one
/// byte, so `$$` is not inline math.
pub open spec fn math_close(s: Seq<u8>, p: int, end: int) -> Option<int> {
    if p < end && s[p] == '$' as u8 {
        match dollar_pos(s, p + 1, end) {
            Some(j) => if j > p + 1 {
                Some(j)
            } else {
                None
            },
            None => None,
        }
    } else {
        None
    }
}

/// An inline-math node; the span includes both dollar signs, the
/// children cover the interior strictly between them.
#[derive(Debug, PartialEq)]
pub struct InlineMath {
    pub span: Span,
    pub children: Vec<TexNode>,
}

/// Recognizes an inline-math span anchored at `start`, bounded by
/// `end`: `$`, one or more bytes other than `$`, then `$`. The interior
/// is extracted recursively; its failure aborts the call. No escaping
/// of `$` is recognized, so nested inline math cannot occur.
pub fn extract_inline_math(tex: &str, start: usize, end: usize) -> (r: Result<
    Option<InlineMath>,
    ParseError,
>)
    requires
        start <= end <= tex.spec_bytes().len(),
    ensures
        ({
            let s = tex.spec_bytes();
            &&& (match r {
                Ok(Some(m)) => {
                    &&& m.span.start == start
                    &&& start < m.span.end <= end
                    &&& inline_math_shaped(s, m, end as int)
                },
                Ok(None) => math_close(s, start as int, end as int) is None,
                Err(_) => math_close(s, start as int, end as int) is Some,
            })
            &&& ((math_close(s, start as int, end as int) matches Some(j) && crate::node::region_parses(
                s,
                start as int + 1,
                j,
            )) ==> r is Ok)
        }),
    decreases end - start, 0int,
{
    let b: &[u8] = tex.as_bytes();
    let ghost s = tex.spec_bytes();
    if start >= end || b[start] != ('$' as u8) {
        return Ok(None);
    }
    let mut j: usize = start + 1;
    while j < end && b[j] != ('$' as u8)
        invariant
            start < j <= end <= s.len(),
            s == tex.spec_bytes(),
            b@ == s,
            dollar_pos(s, start as int + 1, end as int) == dollar_pos(s, j as int, end as int),
        decreases end - j,
    {
        j = j + 1;
    }
    if j >= end || j == start + 1 {
        return Ok(None);
    }
    let children = match crate::node::extract_nodes(tex, start + 1, j) {
        Ok(children) => children,
        Err(e) => {
            return Err(e);
        },
    };
    Ok(Some(InlineMath { span: Span { start, end: j + 1 }, children }))
}

} // verus!
