//! Brace groups: `{ ... }` with balanced nesting, found by a
//! stack-style forward scan.

use vstd::prelude::*;
use vstd::string::StringSliceAdditionalSpecFns;

use crate::error::ParseError;
use crate::node::{group_shaped, TexNode};
use crate::span::Span;

verus! {

/// One past the index of the `}` that closes the braces currently open.
/// `depth` counts the open braces (at least one); the scan walks `s`
/// from `i` up to `end`, opening on `{` and closing on `}`, and returns
/// `None` when the bytes run out first.
pub open spec fn brace_close(s: Seq<u8>, i: int, end: int, depth: nat) -> Option<int>
    decreases end - i,
{
    if i >= end {
        None
    } else if s[i] == '{' as u8 {
        brace_close(s, i + 1, end, depth + 1)
    } else if s[i] == '}' as u8 {
        if depth <= 1 {
            Some(i + 1)
        } else {
            brace_close(s, i + 1, end, (depth - 1) as nat)
        }
    } else {
        brace_close(s, i + 1, end, depth)
    }
}

/// The span of the first brace group found at or after `i`: the scan
/// skips ordinary bytes, fails on a stray `}`, and on a `{` at `a`
/// yields `Some((a, e))` where `e` is one past the matching `}`.
/// `None` is a brace mismatch.
pub open spec fn group_span_spec(s: Seq<u8>, i: int, end: int) -> Option<(int, int)>
    decreases end - i,
{
    if i >= end {
        None
    } else if s[i] == '{' as u8 {
        match brace_close(s, i + 1, end, 1) {
            Some(e) => Some((i, e)),
            None => None,
        }
    } else if s[i] == '}' as u8 {
        None
    } else {
        group_span_spec(s, i + 1, end)
    }
}

/// The group recognizer commits at `p` exactly when an opening brace
/// sits there.
pub open spec fn group_opens(s: Seq<u8>, p: int, end: int) -> bool {
    p < end && s[p] == '{' as u8
}

/// A brace group; the span includes both braces, the children cover the
/// interior strictly between them.
#[derive(Debug, PartialEq)]
pub struct Group {
    pub span: Span,
    pub children: Vec<TexNode>,
}

/// Scans forward from `start` (bounded by `end`) for the first balanced
/// brace group, tracking nesting depth; fails with `GroupMismatch` on a
/// stray `}`, or when the input ends with braces still open or no brace
/// was found at all.
pub fn find_group_span(tex: &str, start: usize, end: usize) -> (r: Result<Span, ParseError>)
    requires
        start <= end <= tex.spec_bytes().len(),
    ensures
        ({
            let s = tex.spec_bytes();
            match r {
                Ok(sp) => {
                    &&& group_span_spec(s, start as int, end as int) == Some(
                        (sp.start as int, sp.end as int),
                    )
                    &&& start <= sp.start
                    &&& sp.start + 2 <= sp.end <= end
                    &&& s[sp.start as int] == '{' as u8
                },
                Err(e) => {
                    &&& e == ParseError::GroupMismatch
                    &&& group_span_spec(s, start as int, end as int) is None
                },
            }
        }),
{
    let b: &[u8] = tex.as_bytes();
    let ghost s = tex.spec_bytes();
    let mut i: usize = start;
    let mut depth: usize = 0;
    let mut open_pos: usize = 0;
    while i < end
        invariant
            start <= i <= end <= s.len(),
            s == tex.spec_bytes(),
            b@ == s,
            depth <= i - start,
            depth > 0 ==> start <= open_pos && open_pos + 1 <= i && s[open_pos as int] == '{' as u8,
            group_span_spec(s, start as int, end as int) == (if depth == 0 {
                group_span_spec(s, i as int, end as int)
            } else {
                match brace_close(s, i as int, end as int, depth as nat) {
                    Some(e) => Some((open_pos as int, e)),
                    None => None,
                }
            }),
        decreases end - i,
    {
        let c = b[i];
        if c == ('{' as u8) {
            if depth == 0 {
                open_pos = i;
            }
            depth = depth + 1;
        } else if c == ('}' as u8) {
            if depth == 0 {
                return Err(ParseError::GroupMismatch);
            } else if depth == 1 {
                return Ok(Span { start: open_pos, end: i + 1 });
            } else {
                depth = depth - 1;
            }
        }
        i = i + 1;
    }
    Err(ParseError::GroupMismatch)
}

/// Recognizes a brace group anchored at `start`, bounded by `end`. The
/// balance scan failing is a `GroupMismatch`; the interior is extracted
/// recursively and its failure aborts the call.
pub fn extract_group(tex: &str, start: usize, end: usize) -> (r: Result<Option<Group>, ParseError>)
    requires
        start <= end <= tex.spec_bytes().len(),
    ensures
        ({
            let s = tex.spec_bytes();
            &&& (match r {
                Ok(Some(g)) => {
                    &&& g.span.start == start
                    &&& start + 2 <= g.span.end <= end
                    &&& group_opens(s, start as int, end as int)
                    &&& group_shaped(s, g, end as int)
                },
                Ok(None) => !group_opens(s, start as int, end as int),
                Err(e) => {
                    &&& group_opens(s, start as int, end as int)
                    &&& (group_span_spec(s, start as int, end as int) is None ==> e
                        == ParseError::GroupMismatch)
                },
            })
            &&& ((group_opens(s, start as int, end as int) && (group_span_spec(
                s,
                start as int,
                end as int,
            ) matches Some((a, e)) && crate::node::region_parses(s, start as int + 1, e - 1)))
                ==> r is Ok)
        }),
    decreases end - start, 0int,
{
    let b: &[u8] = tex.as_bytes();
    let ghost s = tex.spec_bytes();
    if start >= end || b[start] != ('{' as u8) {
        return Ok(None);
    }
    let sp = match find_group_span(tex, start, end) {
        Ok(sp) => sp,
        Err(e) => {
            return Err(e);
        },
    };
    assert(sp.start == start);
    let children = match crate::node::extract_nodes(tex, start + 1, sp.end - 1) {
        Ok(children) => children,
        Err(e) => {
            return Err(e);
        },
    };
    Ok(Some(Group { span: sp, children }))
}

/// The brace excess of `[a, b)`: the count of `{` bytes minus the count
/// of `}` bytes.
pub open spec fn brace_excess(s: Seq<u8>, a: int, b: int) -> int
    decreases b - a,
{
    if a >= b {
        0
    } else {
        (if s[a] == '{' as u8 {
            1int
        } else if s[a] == '}' as u8 {
            -1int
        } else {
            0int
        }) + brace_excess(s, a + 1, b)
    }
}

proof fn lemma_brace_close_balanced(s: Seq<u8>, i: int, end: int, depth: nat)
    requires
        depth >= 1,
        brace_excess(s, i, end) == -(depth as int),
    ensures
        brace_close(s, i, end, depth) is Some,
    decreases end - i,
{
    if i < end {
        if s[i] == '{' as u8 {
            lemma_brace_close_balanced(s, i + 1, end, depth + 1);
        } else if s[i] == '}' as u8 {
            if depth > 1 {
                lemma_brace_close_balanced(s, i + 1, end, (depth - 1) as nat);
            }
        } else {
            lemma_brace_close_balanced(s, i + 1, end, depth);
        }
    }
}

/// Balance, first half: when the opening brace at `start` heads a
/// region whose `{` and `}` counts are equal, the balance scan always
/// finds a matching close — finding the group span never fails.
pub proof fn lemma_balanced_braces_close(s: Seq<u8>, start: int, end: int)
    requires
        start < end,
        s[start] == '{' as u8,
        brace_excess(s, start, end) == 0,
    ensures
        group_span_spec(s, start, end) is Some,
{
    lemma_brace_close_balanced(s, start + 1, end, 1);
}

proof fn lemma_brace_close_open(s: Seq<u8>, i: int, end: int, depth: nat)
    requires
        depth >= 1,
        forall|j: int| i < j <= end ==> (depth as int) + brace_excess(s, i, j) > 0,
    ensures
        brace_close(s, i, end, depth) is None,
    decreases end - i,
{
    if i < end {
        let d2: nat = if s[i] == '{' as u8 {
            depth + 1
        } else if s[i] == '}' as u8 {
            assert((depth as int) + brace_excess(s, i, i + 1) > 0);
            assert(brace_excess(s, i + 1, i + 1) == 0);
            assert(brace_excess(s, i, i + 1) == -1);
            (depth - 1) as nat
        } else {
            depth
        };
        assert forall|j: int|
            #![trigger brace_excess(s, i + 1, j)]
            i + 1 < j <= end implies (d2 as int) + brace_excess(s, i + 1, j) > 0 by {
            assert(brace_excess(s, i, j) == brace_excess(s, i, i + 1) + brace_excess(s, i + 1, j))
                by {
                lemma_brace_excess_split(s, i, j);
            }
        }
        lemma_brace_close_open(s, i + 1, end, d2);
    }
}

proof fn lemma_brace_excess_split(s: Seq<u8>, i: int, j: int)
    requires
        i < j,
    ensures
        brace_excess(s, i, j) == brace_excess(s, i, i + 1) + brace_excess(s, i + 1, j),
{
    assert(brace_excess(s, i + 1, i + 1) == 0);
}

/// Balance, second half: when every non-empty prefix of the region
/// headed by the opening brace at `start` holds strictly more `{` than
/// `}` bytes — an unmatched open brace, as in `{{a}` — finding the
/// group span fails, and so group extraction fails with a brace
/// mismatch.
pub proof fn lemma_unmatched_brace_fails(s: Seq<u8>, start: int, end: int)
    requires
        start < end,
        s[start] == '{' as u8,
        forall|j: int| start < j <= end ==> brace_excess(s, start, j) > 0,
    ensures
        group_span_spec(s, start, end) is None,
{
    assert forall|j: int|
        #![trigger brace_excess(s, start + 1, j)]
        start + 1 < j <= end implies 1 + brace_excess(s, start + 1, j) > 0 by {
        lemma_brace_excess_split(s, start, j);
    }
    lemma_brace_close_open(s, start + 1, end, 1);
}

proof fn lemma_brace_close_bounds(s: Seq<u8>, i: int, end: int, depth: nat)
    ensures
        brace_close(s, i, end, depth) matches Some(e) ==> i < e <= end,
    decreases end - i,
{
    if i < end {
        if s[i] == '{' as u8 {
            lemma_brace_close_bounds(s, i + 1, end, depth + 1);
        } else if s[i] == '}' as u8 {
            if depth > 1 {
                lemma_brace_close_bounds(s, i + 1, end, (depth - 1) as nat);
            }
        } else {
            lemma_brace_close_bounds(s, i + 1, end, depth);
        }
    }
}

/// Facts every successful span scan guarantees: the group opens with a
/// `{` at or after the scan start and closes at least two bytes later,
/// inside the region.
pub proof fn lemma_group_span_props(s: Seq<u8>, i: int, end: int)
    ensures
        group_span_spec(s, i, end) matches Some((a, e)) ==> i <= a && a + 2 <= e <= end && s[a]
            == '{' as u8,
    decreases end - i,
{
    if i < end {
        if s[i] == '{' as u8 {
            lemma_brace_close_bounds(s, i + 1, end, 1);
        } else if s[i] != '}' as u8 {
            lemma_group_span_props(s, i + 1, end);
        }
    }
}

} // verus!
