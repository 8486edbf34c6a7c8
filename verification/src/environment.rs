//! Environments: `\begin{name} ... \end{name}` blocks with balanced,
//! possibly nested, named delimiters.

use vstd::prelude::*;
use vstd::string::StringSliceAdditionalSpecFns;

use crate::arg::Arg;
use crate::error::ParseError;
use crate::scan::{letter_byte, letter_run_len};
use crate::span::Span;
use crate::node::{arg_shaped, environment_shaped, node_at, nodes_cover, TexNode};

verus! {

/// The length of an environment name anchored at `i`: one or more
/// letters plus an optional trailing `*`. Zero when no name sits there.
pub open spec fn env_name_len(s: Seq<u8>, i: int, end: int) -> nat {
    let k = letter_run_len(s, i, end);
    if k > 0 && i + k < end && s[i + k] == '*' as u8 {
        k + 1
    } else {
        k
    }
}

/// `\begin{name}` anchored at `p`: yields the name and one past the
/// closing `}`.
pub open spec fn begin_sym_end(s: Seq<u8>, p: int, end: int) -> Option<(Seq<u8>, int)> {
    if p + 7 <= end && s[p] == '\\' as u8 && s[p + 1] == 'b' as u8 && s[p + 2] == 'e' as u8 && s[p
        + 3] == 'g' as u8 && s[p + 4] == 'i' as u8 && s[p + 5] == 'n' as u8 && s[p + 6]
        == '{' as u8 {
        let nl = env_name_len(s, p + 7, end);
        if nl > 0 && p + 7 + nl < end && s[p + 7 + nl] == '}' as u8 {
            Some((s.subrange(p + 7, p + 7 + nl), p + 8 + nl))
        } else {
            None
        }
    } else {
        None
    }
}

/// `\end{name}` anchored at `p`: yields the name and one past the
/// closing `}`.
pub open spec fn end_sym_end(s: Seq<u8>, p: int, end: int) -> Option<(Seq<u8>, int)> {
    if p + 5 <= end && s[p] == '\\' as u8 && s[p + 1] == 'e' as u8 && s[p + 2] == 'n' as u8 && s[p
        + 3] == 'd' as u8 && s[p + 4] == '{' as u8 {
        let nl = env_name_len(s, p + 5, end);
        if nl > 0 && p + 5 + nl < end && s[p + 5 + nl] == '}' as u8 {
            Some((s.subrange(p + 5, p + 5 + nl), p + 6 + nl))
        } else {
            None
        }
    } else {
        None
    }
}

/// The environment symbol anchored at `p`, if any: `(true, name, end)`
/// for `\begin{name}`, `(false, name, end)` for `\end{name}`.
pub open spec fn env_symbol_at(s: Seq<u8>, p: int, end: int) -> Option<(bool, Seq<u8>, int)> {
    match begin_sym_end(s, p, end) {
        Some((name, se)) => Some((true, name, se)),
        None => match end_sym_end(s, p, end) {
            Some((name, se)) => Some((false, name, se)),
            None => None,
        },
    }
}

/// The environment recognizer commits at `p` exactly when a
/// `\begin{name}` symbol is anchored there.
pub open spec fn env_opens(s: Seq<u8>, p: int, end: int) -> bool {
    begin_sym_end(s, p, end) is Some
}

/// The balance scan over environment symbols, walking `s` byte by byte
/// from `i` up to `end` with a stack of open environment names.
/// `espan_start` and `inner_start` record the outer `\begin`'s position
/// and the interior start fixed when the first symbol was pushed. The
/// result pairs the whole environment span with its interior span;
/// `None` is an environment mismatch: an `\end` that does not name the
/// innermost open `\begin`, an `\end` with nothing open, or input
/// exhausted with the stack non-empty.
pub open spec fn env_scan(
    s: Seq<u8>,
    i: int,
    end: int,
    stack: Seq<Seq<u8>>,
    espan_start: int,
    inner_start: int,
) -> Option<((int, int), (int, int))>
    decreases end - i,
{
    if i >= end {
        None
    } else {
        match env_symbol_at(s, i, end) {
            None => env_scan(s, i + 1, end, stack, espan_start, inner_start),
            Some((is_begin, name, se)) => {
                if se <= i {
                    // a symbol always ends past its start; never taken
                    None
                } else if is_begin {
                    if stack.len() == 0 {
                        env_scan(s, se, end, stack.push(name), i, se)
                    } else {
                        env_scan(s, se, end, stack.push(name), espan_start, inner_start)
                    }
                } else {
                    if stack.len() == 0 {
                        None
                    } else if stack.last() != name {
                        None
                    } else if stack.len() == 1 {
                        Some(((espan_start, se), (inner_start, i)))
                    } else {
                        env_scan(s, se, end, stack.drop_last(), espan_start, inner_start)
                    }
                }
            },
        }
    }
}

/// An environment; `name` is the environment identifier (optional `*`
/// included), `args` the leading groups peeled from the interior, and
/// `children` the remaining interior nodes.
#[derive(Debug, PartialEq)]
pub struct Environment {
    pub span: Span,
    pub name: Vec<u8>,
    pub args: Vec<Arg>,
    pub children: Vec<TexNode>,
}

/// Recognizes the environment symbol anchored at `pos`, bounded by
/// `end`: `Some((is_begin, name, symbol_end))` for `\begin{name}` or
/// `\end{name}`.
pub fn environment_symbol_at(tex: &str, pos: usize, end: usize) -> (r: Option<
    (bool, Vec<u8>, usize),
>)
    requires
        pos <= end <= tex.spec_bytes().len(),
    ensures
        ({
            let s = tex.spec_bytes();
            match r {
                Some((is_begin, name, se)) => {
                    &&& env_symbol_at(s, pos as int, end as int) == Some(
                        (is_begin, name@, se as int),
                    )
                    &&& pos < se <= end
                },
                None => env_symbol_at(s, pos as int, end as int) is None,
            }
        }),
{
    let b: &[u8] = tex.as_bytes();
    let ghost s = tex.spec_bytes();
    if pos >= end || b[pos] != ('\\' as u8) {
        return None;
    }
    // which keyword follows the backslash?
    let is_begin = if end - pos >= 7 && b[pos + 1] == ('b' as u8) && b[pos + 2] == ('e' as u8)
        && b[pos + 3] == ('g' as u8) && b[pos + 4] == ('i' as u8) && b[pos + 5] == ('n' as u8)
        && b[pos + 6] == ('{' as u8) {
        true
    } else if end - pos >= 5 && b[pos + 1] == ('e' as u8) && b[pos + 2] == ('n' as u8) && b[pos + 3]
        == ('d' as u8) && b[pos + 4] == ('{' as u8) {
        false
    } else {
        return None;
    };
    let name_start: usize = if is_begin {
        pos + 7
    } else {
        pos + 5
    };
    let mut k: usize = name_start;
    while k < end && letter_byte(b[k])
        invariant
            name_start <= k <= end <= s.len(),
            s == tex.spec_bytes(),
            b@ == s,
            letter_run_len(s, name_start as int, end as int) == (k - name_start) + letter_run_len(
                s,
                k as int,
                end as int,
            ),
        decreases end - k,
    {
        k = k + 1;
    }
    assert(letter_run_len(s, k as int, end as int) == 0);
    if k == name_start {
        return None;
    }
    let name_end: usize = if k < end && b[k] == ('*' as u8) {
        k + 1
    } else {
        k
    };
    if name_end >= end || b[name_end] != ('}' as u8) {
        return None;
    }
    let name = vstd::slice::slice_to_vec(&b[name_start..name_end]);
    Some((is_begin, name, name_end + 1))
}

/// Compares two byte names for equality.
fn names_equal(a: &Vec<u8>, b: &Vec<u8>) -> (r: bool)
    ensures
        r == (a@ == b@),
{
    if a.len() != b.len() {
        return false;
    }
    let mut i: usize = 0;
    while i < a.len()
        invariant
            i <= a.len() == b.len(),
            forall|k: int| 0 <= k < i ==> a@[k] == b@[k],
        decreases a.len() - i,
    {
        if a[i] != b[i] {
            return false;
        }
        i = i + 1;
    }
    proof {
        assert(a@ =~= b@);
    }
    true
}

/// Scans forward from `start` (bounded by `end`) for the first balanced
/// `\begin{name}` / `\end{name}` pair, tracking a stack of open
/// environment names; fails with `EnvironmentMismatch` as the balance
/// scan does. On success the first span covers the whole environment,
/// delimiters included, and the second its interior strictly between
/// them.
pub fn find_environment_and_inner_nodes_spans(tex: &str, start: usize, end: usize) -> (r: Result<
    (Span, Span),
    ParseError,
>)
    requires
        start <= end <= tex.spec_bytes().len(),
    ensures
        ({
            let s = tex.spec_bytes();
            match r {
                Ok((esp, isp)) => {
                    &&& env_scan(s, start as int, end as int, Seq::empty(), 0, 0) == Some(
                        ((esp.start as int, esp.end as int), (isp.start as int, isp.end as int)),
                    )
                    &&& start <= esp.start
                    &&& esp.start < isp.start <= isp.end
                    &&& isp.end < esp.end <= end
                    &&& (env_symbol_at(s, start as int, end as int) matches Some((ib, n, se)) ==> (
                    ib ==> esp.start == start && isp.start == se))
                },
                Err(e) => {
                    &&& e == ParseError::EnvironmentMismatch
                    &&& env_scan(s, start as int, end as int, Seq::empty(), 0, 0) is None
                },
            }
        }),
{
    let ghost s = tex.spec_bytes();
    let mut i: usize = start;
    let mut stack: Vec<Vec<u8>> = Vec::new();
    let ghost mut gstack: Seq<Seq<u8>> = Seq::empty();
    let mut espan_start: usize = 0;
    let mut inner_start: usize = 0;
    while i < end
        invariant
            start <= i <= end <= s.len(),
            s == tex.spec_bytes(),
            gstack.len() == stack@.len(),
            forall|k: int| 0 <= k < gstack.len() ==> gstack[k] == stack@[k]@,
            env_scan(s, start as int, end as int, Seq::empty(), 0, 0) == env_scan(
                s,
                i as int,
                end as int,
                gstack,
                espan_start as int,
                inner_start as int,
            ),
            stack@.len() > 0 ==> start <= espan_start && espan_start < inner_start && inner_start
                <= i,
            i > start ==> (env_symbol_at(s, start as int, end as int) matches Some(
                (ib, n, se),
            ) ==> (stack@.len() > 0 && (ib ==> espan_start == start && inner_start == se))),
        decreases end - i,
    {
        match environment_symbol_at(tex, i, end) {
            None => {
                i = i + 1;
            },
            Some((is_begin, name, se)) => {
                if is_begin {
                    if stack.len() == 0 {
                        espan_start = i;
                        inner_start = se;
                    }
                    proof {
                        gstack = gstack.push(name@);
                    }
                    stack.push(name);
                } else {
                    if stack.len() == 0 {
                        return Err(ParseError::EnvironmentMismatch);
                    }
                    let top_matches = names_equal(&stack[stack.len() - 1], &name);
                    proof {
                        assert(gstack.last() == stack@[stack@.len() - 1]@);
                    }
                    if !top_matches {
                        return Err(ParseError::EnvironmentMismatch);
                    }
                    if stack.len() == 1 {
                        return Ok(
                            (
                                Span { start: espan_start, end: se },
                                Span { start: inner_start, end: i },
                            ),
                        );
                    }
                    stack.pop().unwrap();
                    proof {
                        gstack = gstack.drop_last();
                    }
                }
                i = se;
            },
        }
    }
    Err(ParseError::EnvironmentMismatch)
}

/// Recognizes an environment anchored at `start`, bounded by `end`: a
/// `\begin{name}` symbol, the balance scan fixing the matching
/// `\end{name}`, recursive extraction of the interior, and peeling of
/// the interior's leading brace groups (mandatory arguments) and square
/// groups (optional arguments); the remaining interior nodes become the
/// children.
pub fn extract_environment(tex: &str, start: usize, end: usize) -> (r: Result<
    Option<Environment>,
    ParseError,
>)
    requires
        start <= end <= tex.spec_bytes().len(),
    ensures
        ({
            let s = tex.spec_bytes();
            &&& (match r {
                Ok(Some(v)) => {
                    &&& v.span.start == start
                    &&& start < v.span.end <= end
                    &&& environment_shaped(s, v, end as int)
                },
                Ok(None) => !env_opens(s, start as int, end as int),
                Err(e) => {
                    &&& env_opens(s, start as int, end as int)
                    &&& (env_scan(s, start as int, end as int, Seq::empty(), 0, 0) is None ==> e
                        == ParseError::EnvironmentMismatch)
                },
            })
            &&& ((env_opens(s, start as int, end as int) && (env_scan(
                s,
                start as int,
                end as int,
                Seq::empty(),
                0,
                0,
            ) matches Some(((a, ee), (ia, ib))) && crate::node::region_parses(s, ia, ib))) ==> r
                is Ok)
        }),
    decreases end - start, 0int,
{
    let ghost s = tex.spec_bytes();
    let (name, bsym_end) = match environment_symbol_at(tex, start, end) {
        Some((true, name, se)) => (name, se),
        _ => {
            return Ok(None);
        },
    };
    let (esp, isp) = match find_environment_and_inner_nodes_spans(tex, start, end) {
        Ok(spans) => spans,
        Err(e) => {
            return Err(e);
        },
    };
    assert(esp.start == start && isp.start == bsym_end);
    let mut nodes = match crate::node::extract_nodes(tex, isp.start, isp.end) {
        Ok(nodes) => nodes,
        Err(e) => {
            return Err(e);
        },
    };
    let ghost ia = isp.start as int;
    let ghost ib = isp.end as int;
    let mut args: Vec<Arg> = Vec::new();
    let ghost mut ends: Seq<int> = Seq::empty();
    while nodes.len() > 0
        invariant
            s == tex.spec_bytes(),
            ends.len() == args@.len(),
            forall|i: int|
                0 <= i < args@.len() ==> arg_shaped(
                    s,
                    #[trigger] args@[i],
                    if i == 0 {
                        ia
                    } else {
                        ends[i - 1]
                    },
                    ends[i],
                    ib,
                ),
            nodes_cover(
                nodes@,
                if ends.len() == 0 {
                    ia
                } else {
                    ends[ends.len() - 1]
                },
                ib,
            ),
            forall|i: int| 0 <= i < nodes@.len() ==> node_at(s, #[trigger] nodes@[i], ib),
        ensures
            ends.len() == args@.len(),
            forall|i: int|
                0 <= i < args@.len() ==> arg_shaped(
                    s,
                    #[trigger] args@[i],
                    if i == 0 {
                        ia
                    } else {
                        ends[i - 1]
                    },
                    ends[i],
                    ib,
                ),
            nodes_cover(
                nodes@,
                if ends.len() == 0 {
                    ia
                } else {
                    ends[ends.len() - 1]
                },
                ib,
            ),
            forall|i: int| 0 <= i < nodes@.len() ==> node_at(s, #[trigger] nodes@[i], ib),
            nodes@.len() > 0 ==> !(nodes@[0] is Group) && !(nodes@[0] is SquareGroup),
        decreases nodes.len(),
    {
        let ghost pre = nodes@;
        let ghost pre_mid: int = if ends.len() == 0 {
            ia
        } else {
            ends[ends.len() - 1]
        };
        let first = nodes.remove(0);
        proof {
            assert(first == pre[0]);
            assert(nodes@ =~= pre.drop_first());
            crate::node::lemma_cover_drop_first(pre, pre_mid, ib);
        }
        let ghost old_args = args@;
        let ghost old_ends = ends;
        match first {
            TexNode::Group(group) => {
                proof {
                    ends = ends.push(group.span.end as int);
                }
                args.push(Arg::Mandatory { children: group.children });
                proof {
                    assert forall|i: int| 0 <= i < args@.len() implies arg_shaped(
                        s,
                        #[trigger] args@[i],
                        if i == 0 {
                            ia
                        } else {
                            ends[i - 1]
                        },
                        ends[i],
                        ib,
                    ) by {
                        if i < old_args.len() {
                            assert(args@[i] == old_args[i]);
                        } else {
                            assert(args@[i] == Arg::Mandatory { children: group.children });
                        }
                    }
                    assert forall|i: int| 0 <= i < nodes@.len() implies node_at(
                        s,
                        #[trigger] nodes@[i],
                        ib,
                    ) by {
                        assert(nodes@[i] == pre[i + 1]);
                    }
                }
            },
            TexNode::SquareGroup(square_group) => {
                proof {
                    ends = ends.push(square_group.span.end as int);
                }
                args.push(Arg::Optional { children: square_group.children });
                proof {
                    assert forall|i: int| 0 <= i < args@.len() implies arg_shaped(
                        s,
                        #[trigger] args@[i],
                        if i == 0 {
                            ia
                        } else {
                            ends[i - 1]
                        },
                        ends[i],
                        ib,
                    ) by {
                        if i < old_args.len() {
                            assert(args@[i] == old_args[i]);
                        } else {
                            assert(args@[i] == Arg::Optional { children: square_group.children });
                        }
                    }
                    assert forall|i: int| 0 <= i < nodes@.len() implies node_at(
                        s,
                        #[trigger] nodes@[i],
                        ib,
                    ) by {
                        assert(nodes@[i] == pre[i + 1]);
                    }
                }
            },
            other => {
                nodes.insert(0, other);
                proof {
                    assert(nodes@ =~= pre);
                }
                break;
            },
        }
    }
    Ok(Some(Environment { span: esp, name, args, children: nodes }))
}

/// Facts every successful balance scan guarantees: the closing symbol
/// lies at or after the scan position, the spans nest inside the
/// region, and with a non-empty stack the recorded outer positions pass
/// through unchanged.
pub proof fn lemma_env_scan_props(
    s: Seq<u8>,
    i: int,
    end: int,
    stack: Seq<Seq<u8>>,
    espan_start: int,
    inner_start: int,
)
    ensures
        env_scan(s, i, end, stack, espan_start, inner_start) matches Some(((a, ee), (ia, ib)))
            ==> {
            &&& i <= ib && ib < ee <= end
            &&& (stack.len() > 0 ==> a == espan_start && ia == inner_start)
            &&& (stack.len() == 0 ==> i <= a && ia <= ib)
        },
    decreases end - i,
{
    if i < end {
        match env_symbol_at(s, i, end) {
            None => {
                lemma_env_scan_props(s, i + 1, end, stack, espan_start, inner_start);
            },
            Some((is_begin, name, se)) => {
                if se > i {
                    if is_begin {
                        if stack.len() == 0 {
                            lemma_env_scan_props(s, se, end, stack.push(name), i, se);
                        } else {
                            lemma_env_scan_props(
                                s,
                                se,
                                end,
                                stack.push(name),
                                espan_start,
                                inner_start,
                            );
                        }
                    } else {
                        if stack.len() > 1 && stack.last() == name {
                            lemma_env_scan_props(
                                s,
                                se,
                                end,
                                stack.drop_last(),
                                espan_start,
                                inner_start,
                            );
                        }
                    }
                }
            },
        }
    }
}

} // verus!
