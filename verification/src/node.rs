//! The node tree, the grammar predicates that pin each node to its
//! source bytes, and the priority dispatcher.

use vstd::prelude::*;
use vstd::string::StringSliceAdditionalSpecFns;

use crate::arg::Arg;
use crate::command::{command_matches, command_name_len, Command};
use crate::comment::{comment_end, comment_shaped, extract_comment, Comment};
use crate::environment::{begin_sym_end, env_opens, env_scan, Environment};
use crate::error::ParseError;
use crate::group::{group_opens, group_span_spec, Group};
use crate::inline_math::{math_close, InlineMath};
use crate::span::Span;
use crate::square_group::{square_close, SquareGroup};
use crate::text::{extract_text, is_text_byte, text_matches, text_run_len, text_shaped, Text};

verus! {

/// One classified unit of the parsed tree.
#[derive(Debug, PartialEq)]
pub enum TexNode {
    Text(Text),
    Comment(Comment),
    InlineMath(InlineMath),
    Group(Group),
    SquareGroup(SquareGroup),
    Command(Command),
    Environment(Environment),
}

impl TexNode {
    /// The span a node of any kind covers.
    pub open spec fn spec_span(&self) -> Span {
        match self {
            TexNode::Text(text) => text.span,
            TexNode::Comment(comment) => comment.span,
            TexNode::InlineMath(inline_math) => inline_math.span,
            TexNode::Group(group) => group.span,
            TexNode::SquareGroup(square_group) => square_group.span,
            TexNode::Command(command) => command.span,
            TexNode::Environment(environment) => environment.span,
        }
    }

    pub fn span(&self) -> (r: Span)
        ensures
            r == self.spec_span(),
    {
        match self {
            TexNode::Text(text) => text.span,
            TexNode::Comment(comment) => comment.span,
            TexNode::InlineMath(inline_math) => inline_math.span,
            TexNode::Group(group) => group.span,
            TexNode::SquareGroup(square_group) => square_group.span,
            TexNode::Command(command) => command.span,
            TexNode::Environment(environment) => environment.span,
        }
    }
}

/// The spans of `ns` tile the region `[a, b)`: the first node starts at
/// `a`, each node starts where the one before it ended, every span is
/// non-empty, and the last node ends at `b`.
pub open spec fn nodes_cover(ns: Seq<TexNode>, a: int, b: int) -> bool
    decreases ns.len(),
{
    if ns.len() == 0 {
        a == b
    } else {
        &&& ns[0].spec_span().start == a
        &&& a < ns[0].spec_span().end
        &&& nodes_cover(ns.drop_first(), ns[0].spec_span().end as int, b)
    }
}

/// A node sequence is a well-formed extraction over `[a, b)` when its
/// spans tile the region and each node is the node the dispatcher
/// recognizes at its own position, within a region bounded by `bound`.
pub open spec fn nodes_at(s: Seq<u8>, ns: Seq<TexNode>, a: int, b: int, bound: int) -> bool {
    &&& nodes_cover(ns, a, b)
    &&& (forall|i: int| 0 <= i < ns.len() ==> node_at(s, #[trigger] ns[i], bound))
}

/// The shape of a well-formed square group within a region bounded by
/// `bound`: the closing bracket is the first `]`-or-newline after the
/// `[`, and the children are a well-formed extraction of the interior,
/// bounded by the interior's end.
pub open spec fn square_group_shaped(s: Seq<u8>, q: SquareGroup, bound: int) -> bool
    decreases q,
{
    let p = q.span.start as int;
    let e = q.span.end as int;
    &&& square_close(s, p, bound) == Some(e - 1)
    &&& nodes_cover(q.children@, p + 1, e - 1)
    &&& (forall|i: int|
        0 <= i < q.children@.len() ==> node_at(s, #[trigger] q.children@[i], e - 1))
}

/// The shape of a well-formed inline-math node: the closing `$` is the
/// first one after the opener, at least one byte sits between them, and
/// the children are a well-formed extraction of the interior.
pub open spec fn inline_math_shaped(s: Seq<u8>, m: InlineMath, bound: int) -> bool
    decreases m,
{
    let p = m.span.start as int;
    let e = m.span.end as int;
    &&& math_close(s, p, bound) == Some(e - 1)
    &&& nodes_cover(m.children@, p + 1, e - 1)
    &&& (forall|i: int|
        0 <= i < m.children@.len() ==> node_at(s, #[trigger] m.children@[i], e - 1))
}

/// The shape of a well-formed brace group: its span is the balanced
/// group found at its start, and the children are a well-formed
/// extraction of the interior.
pub open spec fn group_shaped(s: Seq<u8>, g: Group, bound: int) -> bool
    decreases g,
{
    let p = g.span.start as int;
    let e = g.span.end as int;
    &&& group_span_spec(s, p, bound) == Some((p, e))
    &&& nodes_cover(g.children@, p + 1, e - 1)
    &&& (forall|i: int|
        0 <= i < g.children@.len() ==> node_at(s, #[trigger] g.children@[i], e - 1))
}

/// An absorbed argument occupies `[lo, hi)` as the brace group
/// (`Mandatory`) or square group (`Optional`) that stood there, its
/// children bounded by that group's interior.
pub open spec fn arg_shaped(s: Seq<u8>, arg: Arg, lo: int, hi: int, bound: int) -> bool
    decreases arg,
{
    match arg {
        Arg::Mandatory { children } => {
            &&& group_span_spec(s, lo, bound) == Some((lo, hi))
            &&& nodes_cover(children@, lo + 1, hi - 1)
            &&& (forall|i: int|
                0 <= i < children@.len() ==> node_at(s, #[trigger] children@[i], hi - 1))
        },
        Arg::Optional { children } => {
            &&& square_close(s, lo, bound) == Some(hi - 1)
            &&& nodes_cover(children@, lo + 1, hi - 1)
            &&& (forall|i: int|
                0 <= i < children@.len() ==> node_at(s, #[trigger] children@[i], hi - 1))
        },
    }
}

/// The shape of a well-formed command: a control word at the span
/// start, and arguments that tile `[name_end, span.end)`, each the
/// group or square group extracted there.
pub open spec fn command_shaped(s: Seq<u8>, c: Command, bound: int) -> bool
    decreases c,
{
    let p = c.span.start as int;
    let e = c.span.end as int;
    let nlen = command_name_len(s, p, bound);
    &&& nlen > 0
    &&& c.name@ == s.subrange(p + 1, p + 1 + nlen)
    &&& exists|ends: Seq<int>|
        #![trigger ends.len()]
        {
            &&& ends.len() == c.args@.len()
            &&& (forall|i: int|
                0 <= i < c.args@.len() ==> arg_shaped(
                    s,
                    #[trigger] c.args@[i],
                    if i == 0 {
                        p + 1 + nlen
                    } else {
                        ends[i - 1]
                    },
                    ends[i],
                    bound,
                ))
            &&& (if c.args@.len() == 0 {
                e == p + 1 + nlen
            } else {
                ends[ends.len() - 1] == e
            })
        }
}

/// The shape of a well-formed environment: a `\begin{name}` at the span
/// start, the balance scan fixing the whole span and the interior span,
/// leading groups of the interior peeled into `args`, and the remaining
/// interior nodes as `children` (whose first node, if any, is not a
/// group of either kind).
pub open spec fn environment_shaped(s: Seq<u8>, v: Environment, bound: int) -> bool
    decreases v,
{
    let p = v.span.start as int;
    let e = v.span.end as int;
    let ia = p + 8 + v.name@.len();
    &&& begin_sym_end(s, p, bound) == Some((v.name@, ia))
    &&& (env_scan(s, p, bound, Seq::empty(), 0, 0) matches Some(((a, ee), (ia2, ib)))
        && {
            &&& a == p && ee == e && ia2 == ia
            &&& exists|ends: Seq<int>|
                #![trigger ends.len()]
                {
                    let mid = if ends.len() == 0 {
                        ia
                    } else {
                        ends[ends.len() - 1]
                    };
                    &&& ends.len() == v.args@.len()
                    &&& (forall|i: int|
                        0 <= i < v.args@.len() ==> arg_shaped(
                            s,
                            #[trigger] v.args@[i],
                            if i == 0 {
                                ia
                            } else {
                                ends[i - 1]
                            },
                            ends[i],
                            ib,
                        ))
                    &&& nodes_cover(v.children@, mid, ib)
                    &&& (forall|i: int|
                        0 <= i < v.children@.len() ==> node_at(s, #[trigger] v.children@[i], ib))
                    &&& (v.children@.len() > 0 ==> !(v.children@[0] is Group)
                        && !(v.children@[0] is SquareGroup))
                }
        })
}

/// The node the priority dispatcher recognizes at `n`'s own start
/// position, inside a region bounded by `bound`. The kinds are tried in
/// a fixed order — square group, text, comment, inline math, brace
/// group, environment, command — and each kind here carries the
/// negation of every recognizer tried before it.
pub open spec fn node_at(s: Seq<u8>, n: TexNode, bound: int) -> bool
    decreases n,
{
    let p = n.spec_span().start as int;
    match n {
        TexNode::SquareGroup(q) => square_group_shaped(s, q, bound),
        TexNode::Text(t) => {
            &&& square_close(s, p, bound) is None
            &&& text_shaped(s, t, bound)
        },
        TexNode::Comment(c) => {
            &&& square_close(s, p, bound) is None
            &&& !text_matches(s, p, bound)
            &&& comment_shaped(s, c, bound)
        },
        TexNode::InlineMath(m) => {
            &&& square_close(s, p, bound) is None
            &&& !text_matches(s, p, bound)
            &&& comment_end(s, p, bound) is None
            &&& inline_math_shaped(s, m, bound)
        },
        TexNode::Group(g) => {
            &&& square_close(s, p, bound) is None
            &&& !text_matches(s, p, bound)
            &&& comment_end(s, p, bound) is None
            &&& math_close(s, p, bound) is None
            &&& group_shaped(s, g, bound)
        },
        TexNode::Environment(v) => {
            &&& square_close(s, p, bound) is None
            &&& !text_matches(s, p, bound)
            &&& comment_end(s, p, bound) is None
            &&& math_close(s, p, bound) is None
            &&& !group_opens(s, p, bound)
            &&& environment_shaped(s, v, bound)
        },
        TexNode::Command(c) => {
            &&& square_close(s, p, bound) is None
            &&& !text_matches(s, p, bound)
            &&& comment_end(s, p, bound) is None
            &&& math_close(s, p, bound) is None
            &&& !group_opens(s, p, bound)
            &&& !env_opens(s, p, bound)
            &&& command_shaped(s, c, bound)
        },
    }
}

/// Some recognizer matches at `p` (bounded by `bound`): the position is
/// not an unknown-node failure.
pub open spec fn kind_matches_at(s: Seq<u8>, p: int, bound: int) -> bool {
    ||| square_close(s, p, bound) is Some
    ||| text_matches(s, p, bound)
    ||| comment_end(s, p, bound) is Some
    ||| math_close(s, p, bound) is Some
    ||| group_opens(s, p, bound)
    ||| env_opens(s, p, bound)
    ||| command_matches(s, p, bound)
}

/// Appending a node that starts exactly where the tiled region ended
/// extends the tiling.
pub proof fn lemma_cover_push(ns: Seq<TexNode>, n: TexNode, a: int, b: int)
    requires
        nodes_cover(ns, a, b),
        n.spec_span().start == b,
        b < n.spec_span().end,
    ensures
        nodes_cover(ns.push(n), a, n.spec_span().end as int),
    decreases ns.len(),
{
    let ns2 = ns.push(n);
    assert(ns2.len() == ns.len() + 1);
    if ns.len() == 0 {
        assert(ns2[0] == n);
        assert(ns2.drop_first() =~= Seq::<TexNode>::empty());
        assert(nodes_cover(ns2.drop_first(), n.spec_span().end as int, n.spec_span().end as int));
    } else {
        assert(ns2[0] == ns[0]);
        lemma_cover_push(ns.drop_first(), n, ns[0].spec_span().end as int, b);
        assert(ns2.drop_first() =~= ns.drop_first().push(n));
        assert(nodes_cover(ns2.drop_first(), ns2[0].spec_span().end as int, n.spec_span().end as int));
    }
}

/// Removing the first node of a tiling leaves a tiling of the rest of
/// the region.
pub proof fn lemma_cover_drop_first(ns: Seq<TexNode>, a: int, b: int)
    requires
        nodes_cover(ns, a, b),
        ns.len() > 0,
    ensures
        nodes_cover(ns.drop_first(), ns[0].spec_span().end as int, b),
{
}

/// Every span in a tiling of `[a, b)` is non-empty and lies inside the
/// region, and consecutive spans meet exactly: the quantified reading
/// of [`nodes_cover`].
pub proof fn lemma_cover_chain(ns: Seq<TexNode>, a: int, b: int)
    requires
        nodes_cover(ns, a, b),
    ensures
        a <= b,
        ns.len() == 0 <==> a == b,
        ns.len() > 0 ==> ns[0].spec_span().start == a && ns[ns.len() - 1].spec_span().end == b,
        forall|i: int|
            0 <= i < ns.len() ==> a <= (#[trigger] ns[i].spec_span()).start
                < ns[i].spec_span().end <= b,
        forall|i: int|
            0 <= i < ns.len() - 1 ==> (#[trigger] ns[i].spec_span()).end == ns[i
                + 1].spec_span().start,
    decreases ns.len(),
{
    if ns.len() > 0 {
        lemma_cover_chain(ns.drop_first(), ns[0].spec_span().end as int, b);
        assert forall|i: int|
            0 <= i < ns.len() implies a <= (#[trigger] ns[i].spec_span()).start
            < ns[i].spec_span().end <= b by {
            if i > 0 {
                assert(ns[i] == ns.drop_first()[i - 1]);
            }
        }
        assert forall|i: int|
            0 <= i < ns.len() - 1 implies (#[trigger] ns[i].spec_span()).end == ns[i
            + 1].spec_span().start by {
            if i > 0 {
                assert(ns[i] == ns.drop_first()[i - 1]);
                assert(ns[i + 1] == ns.drop_first()[i]);
            } else {
                assert(ns[1] == ns.drop_first()[0]);
            }
        }
        if ns.len() > 1 {
            assert(ns[ns.len() - 1] == ns.drop_first()[ns.len() - 2]);
        }
    }
}

/// Tries each node kind at `start` in the fixed priority order — square
/// group, text, comment, inline math, brace group, environment, command
/// — and returns the first kind whose recognizer matches there. A
/// recognizer that matches commits: a later failure inside it is fatal
/// and is not retried with a later kind. When nothing matches, the
/// error carries the unmatched remainder of the region.
pub fn extract_node(tex: &str, start: usize, end: usize) -> (r: Result<TexNode, ParseError>)
    requires
        start <= end <= tex.spec_bytes().len(),
    ensures
        ({
            let s = tex.spec_bytes();
            &&& (match r {
                Ok(n) => {
                    &&& n.spec_span().start == start
                    &&& start < n.spec_span().end <= end
                    &&& node_at(s, n, end as int)
                },
                Err(_) => true,
            })
            &&& (!kind_matches_at(s, start as int, end as int) ==> (r matches Err(
                ParseError::UnknownTexNode(rem),
            ) && rem@ == s.subrange(start as int, end as int)))
            &&& (group_opens(s, start as int, end as int) && group_span_spec(
                s,
                start as int,
                end as int,
            ) is None ==> r == Err::<TexNode, ParseError>(ParseError::GroupMismatch))
            &&& (env_opens(s, start as int, end as int) && env_scan(
                s,
                start as int,
                end as int,
                Seq::empty(),
                0,
                0,
            ) is None ==> r == Err::<TexNode, ParseError>(ParseError::EnvironmentMismatch))
            &&& (extractable_at(s, start as int, end as int) ==> r is Ok)
        }),
    decreases end - start, 1int,
{
    match crate::square_group::extract_square_group(tex, start, end) {
        Ok(Some(square_group)) => {
            return Ok(TexNode::SquareGroup(square_group));
        },
        Err(e) => {
            return Err(e);
        },
        Ok(None) => {},
    }
    if let Some(text) = extract_text(tex, start, end) {
        return Ok(TexNode::Text(text));
    }
    if let Some(comment) = extract_comment(tex, start, end) {
        return Ok(TexNode::Comment(comment));
    }
    match crate::inline_math::extract_inline_math(tex, start, end) {
        Ok(Some(inline_math)) => {
            return Ok(TexNode::InlineMath(inline_math));
        },
        Err(e) => {
            return Err(e);
        },
        Ok(None) => {},
    }
    match crate::group::extract_group(tex, start, end) {
        Ok(Some(group)) => {
            return Ok(TexNode::Group(group));
        },
        Err(e) => {
            return Err(e);
        },
        Ok(None) => {},
    }
    match crate::environment::extract_environment(tex, start, end) {
        Ok(Some(environment)) => {
            return Ok(TexNode::Environment(environment));
        },
        Err(e) => {
            return Err(e);
        },
        Ok(None) => {},
    }
    if let Some(command) = crate::command::extract_command(tex, start, end) {
        return Ok(TexNode::Command(command));
    }
    let b: &[u8] = tex.as_bytes();
    Err(ParseError::UnknownTexNode(vstd::slice::slice_to_vec(&b[start..end])))
}

/// Repeatedly extracts the node at the current position, starting at
/// `start` and stopping at `end`, so that the returned nodes tile
/// `[start, end)` in order. The first failure aborts the whole call: no
/// partial sequence is ever returned.
pub fn extract_nodes(tex: &str, start: usize, end: usize) -> (r: Result<Vec<TexNode>, ParseError>)
    requires
        start <= end <= tex.spec_bytes().len(),
    ensures
        ({
            let s = tex.spec_bytes();
            &&& (match r {
                Ok(nodes) => nodes_at(s, nodes@, start as int, end as int, end as int),
                Err(_) => true,
            })
            &&& (start == end ==> r is Ok)
            &&& (region_parses(s, start as int, end as int) ==> r is Ok)
        }),
    decreases end - start, 2int,
{
    let ghost s = tex.spec_bytes();
    let mut nodes: Vec<TexNode> = Vec::new();
    let mut pos: usize = start;
    while pos < end
        invariant
            start <= pos <= end <= s.len(),
            s == tex.spec_bytes(),
            nodes_cover(nodes@, start as int, pos as int),
            forall|i: int| 0 <= i < nodes@.len() ==> node_at(s, #[trigger] nodes@[i], end as int),
            region_parses(s, start as int, end as int) ==> region_parses(
                s,
                pos as int,
                end as int,
            ),
        decreases end - pos,
    {
        match extract_node(tex, pos, end) {
            Ok(node) => {
                proof {
                    lemma_cover_push(nodes@, node, start as int, pos as int);
                    if region_parses(s, start as int, end as int) {
                        lemma_step_preserves_parse(s, node, pos as int, end as int);
                    }
                }
                let sp = node.span();
                nodes.push(node);
                pos = sp.end;
            },
            Err(e) => {
                proof {
                    if region_parses(s, start as int, end as int) {
                        let ns = choose|ns: Seq<TexNode>|
                            #![trigger nodes_at(s, ns, pos as int, end as int, end as int)]
                            nodes_at(s, ns, pos as int, end as int, end as int);
                        assert(ns.len() > 0);
                        lemma_node_extractable(s, ns[0], end as int);
                        assert(false);
                    }
                }
                return Err(e);
            },
        }
    }
    Ok(nodes)
}

/// The source text of a tiling: each node's bytes, concatenated in
/// order.
pub open spec fn concat_node_texts(s: Seq<u8>, ns: Seq<TexNode>) -> Seq<u8>
    decreases ns.len(),
{
    if ns.len() == 0 {
        Seq::empty()
    } else {
        s.subrange(ns[0].spec_span().start as int, ns[0].spec_span().end as int)
            + concat_node_texts(s, ns.drop_first())
    }
}

/// Round trip: concatenating the source text of every node of a tiling
/// of `[a, b)`, in order, yields exactly the text of `[a, b)`. Applied
/// to the children of a group, square group, inline-math node or
/// environment, whose ensures give such a tiling of the interior, this
/// says the children's texts reassemble the delimiter-stripped
/// interior.
pub proof fn lemma_round_trip(s: Seq<u8>, ns: Seq<TexNode>, a: int, b: int)
    requires
        nodes_cover(ns, a, b),
        0 <= a,
        b <= s.len(),
    ensures
        concat_node_texts(s, ns) == s.subrange(a, b),
    decreases ns.len(),
{
    if ns.len() == 0 {
        assert(s.subrange(a, a) =~= Seq::<u8>::empty());
    } else {
        let e0 = ns[0].spec_span().end as int;
        lemma_cover_chain(ns.drop_first(), e0, b);
        lemma_round_trip(s, ns.drop_first(), e0, b);
        assert(s.subrange(a, b) =~= s.subrange(a, e0) + s.subrange(e0, b));
    }
}

/// Priority: wherever the square-group recognizer matches, the node
/// standing there is a square group — never a text node, even though
/// `[`, the interior bytes and `]` all lie in the text character set.
pub proof fn lemma_square_group_priority(s: Seq<u8>, n: TexNode, bound: int)
    requires
        node_at(s, n, bound),
        square_close(s, n.spec_span().start as int, bound) is Some,
    ensures
        n is SquareGroup,
{
}

/// Arg-peeling idempotence: an environment that peeled no arguments
/// keeps the entire interior node sequence as its children.
pub proof fn lemma_environment_no_args(s: Seq<u8>, v: Environment, bound: int)
    requires
        environment_shaped(s, v, bound),
        v.args@.len() == 0,
    ensures
        env_scan(s, v.span.start as int, bound, Seq::empty(), 0, 0) matches Some(
            ((a, e), (ia, ib)),
        ) && nodes_cover(v.children@, ia, ib),
{
    let p = v.span.start as int;
    let e = v.span.end as int;
    let ia = p + 8 + v.name@.len();
    let ends = choose|ends: Seq<int>|
        #![trigger ends.len()]
        {
            let mid = if ends.len() == 0 {
                ia
            } else {
                ends[ends.len() - 1]
            };
            &&& ends.len() == v.args@.len()
            &&& (forall|i: int|
                0 <= i < v.args@.len() ==> arg_shaped(
                    s,
                    #[trigger] v.args@[i],
                    if i == 0 {
                        ia
                    } else {
                        ends[i - 1]
                    },
                    ends[i],
                    env_scan(s, p, bound, Seq::empty(), 0, 0)->Some_0.1.1,
                ))
            &&& nodes_cover(v.children@, mid, env_scan(s, p, bound, Seq::empty(), 0, 0)->Some_0.1.1)
            &&& (forall|i: int|
                0 <= i < v.children@.len() ==> node_at(
                    s,
                    #[trigger] v.children@[i],
                    env_scan(s, p, bound, Seq::empty(), 0, 0)->Some_0.1.1,
                ))
            &&& (v.children@.len() > 0 ==> !(v.children@[0] is Group) && !(v.children@[0]
                is SquareGroup))
        };
    assert(ends.len() == 0);
}

/// The region `[a, b)` parses: some node sequence tiles it, each node
/// the dispatcher's choice at its own position, recognizers bounded by
/// the region's end.
pub open spec fn region_parses(s: Seq<u8>, a: int, b: int) -> bool {
    exists|ns: Seq<TexNode>| #![trigger nodes_at(s, ns, a, b, b)] nodes_at(s, ns, a, b, b)
}

/// A brace group or square group stands complete at `p`: its delimiter
/// scan succeeds and its interior parses, so the node extracted there
/// would be a group or a square group.
pub open spec fn group_or_square_extractable(s: Seq<u8>, p: int, bound: int) -> bool {
    ||| (square_close(s, p, bound) matches Some(j) && region_parses(s, p + 1, j))
    ||| {
        &&& group_opens(s, p, bound)
        &&& (group_span_spec(s, p, bound) matches Some((a, e)) && region_parses(s, p + 1, e - 1))
    }
}

/// The dispatcher owes a node at `p`: the first recognizer in the
/// priority order that matches there can complete, every interior it
/// needs parsing in turn.
pub open spec fn extractable_at(s: Seq<u8>, p: int, bound: int) -> bool {
    ||| (square_close(s, p, bound) matches Some(j) && region_parses(s, p + 1, j))
    ||| {
        &&& square_close(s, p, bound) is None
        &&& text_matches(s, p, bound)
    }
    ||| {
        &&& square_close(s, p, bound) is None
        &&& !text_matches(s, p, bound)
        &&& comment_end(s, p, bound) is Some
    }
    ||| {
        &&& square_close(s, p, bound) is None
        &&& !text_matches(s, p, bound)
        &&& comment_end(s, p, bound) is None
        &&& (math_close(s, p, bound) matches Some(j) && region_parses(s, p + 1, j))
    }
    ||| {
        &&& square_close(s, p, bound) is None
        &&& !text_matches(s, p, bound)
        &&& comment_end(s, p, bound) is None
        &&& math_close(s, p, bound) is None
        &&& group_opens(s, p, bound)
        &&& (group_span_spec(s, p, bound) matches Some((a, e)) && region_parses(s, p + 1, e - 1))
    }
    ||| {
        &&& square_close(s, p, bound) is None
        &&& !text_matches(s, p, bound)
        &&& comment_end(s, p, bound) is None
        &&& math_close(s, p, bound) is None
        &&& !group_opens(s, p, bound)
        &&& env_opens(s, p, bound)
        &&& (env_scan(s, p, bound, Seq::empty(), 0, 0) matches Some(((a, ee), (ia, ib)))
            && region_parses(s, ia, ib))
    }
    ||| {
        &&& square_close(s, p, bound) is None
        &&& !text_matches(s, p, bound)
        &&& comment_end(s, p, bound) is None
        &&& math_close(s, p, bound) is None
        &&& !group_opens(s, p, bound)
        &&& !env_opens(s, p, bound)
        &&& command_matches(s, p, bound)
    }
}

/// Concatenating a tiling of `[a, m)` and one of `[m, b)` tiles
/// `[a, b)`.
pub proof fn lemma_cover_append(xs: Seq<TexNode>, ys: Seq<TexNode>, a: int, m: int, b: int)
    requires
        nodes_cover(xs, a, m),
        nodes_cover(ys, m, b),
    ensures
        nodes_cover(xs + ys, a, b),
    decreases xs.len(),
{
    if xs.len() == 0 {
        assert(xs + ys =~= ys);
    } else {
        lemma_cover_append(xs.drop_first(), ys, xs[0].spec_span().end as int, m, b);
        assert((xs + ys)[0] == xs[0]);
        assert((xs + ys).drop_first() =~= xs.drop_first() + ys);
    }
}

/// Where a square group's scan closes, the only well-formed node is
/// that square group; where an opening brace sits (and no square group
/// closes), only the brace group the scan finds.
proof fn lemma_head_forced(s: Seq<u8>, n: TexNode, bound: int)
    requires
        node_at(s, n, bound),
    ensures
        square_close(s, n.spec_span().start as int, bound) matches Some(j) ==> n is SquareGroup
            && n.spec_span().end == j + 1,
        square_close(s, n.spec_span().start as int, bound) is None && group_opens(
            s,
            n.spec_span().start as int,
            bound,
        ) ==> n is Group && group_span_spec(s, n.spec_span().start as int, bound) == Some(
            (n.spec_span().start as int, n.spec_span().end as int),
        ),
{
    let p = n.spec_span().start as int;
    match n {
        TexNode::Text(t) => {
            assert(group_opens(s, p, bound) ==> !is_text_byte(s[p]));
        },
        TexNode::Comment(c) => {
            assert(comment_end(s, p, bound) is Some ==> s[p] == '%' as u8);
        },
        TexNode::InlineMath(m) => {
            assert(math_close(s, p, bound) is Some ==> s[p] == '$' as u8);
        },
        _ => {},
    }
}

/// A chain of absorbed arguments followed by a tiling of the rest of
/// the region together witness that the whole region parses: each
/// argument is put back as the group node it came from.
proof fn lemma_chain_region(
    s: Seq<u8>,
    args: Seq<Arg>,
    ends: Seq<int>,
    lo: int,
    tail: Seq<TexNode>,
    b: int,
)
    requires
        0 <= lo,
        b <= usize::MAX as int,
        ends.len() == args.len(),
        forall|i: int|
            0 <= i < args.len() ==> arg_shaped(
                s,
                #[trigger] args[i],
                if i == 0 {
                    lo
                } else {
                    ends[i - 1]
                },
                ends[i],
                b,
            ),
        nodes_at(
            s,
            tail,
            if args.len() == 0 {
                lo
            } else {
                ends[ends.len() - 1]
            },
            b,
            b,
        ),
    ensures
        region_parses(s, lo, b),
    decreases args.len(),
{
    if args.len() == 0 {
        assert(nodes_at(s, tail, lo, b, b));
    } else {
        let h0 = ends[0];
        assert(arg_shaped(s, args[0], lo, h0, b));
        let n0: TexNode = match args[0] {
            Arg::Mandatory { children } => {
                crate::group::lemma_group_span_props(s, lo, b);
                TexNode::Group(
                    Group { span: Span { start: lo as usize, end: h0 as usize }, children },
                )
            },
            Arg::Optional { children } => {
                crate::square_group::lemma_square_stop_props(s, lo + 1, b);
                TexNode::SquareGroup(
                    SquareGroup { span: Span { start: lo as usize, end: h0 as usize }, children },
                )
            },
        };
        assert(lo + 2 <= h0 <= b);
        assert(node_at(s, n0, b));
        assert forall|i: int| 0 <= i < args.drop_first().len() implies arg_shaped(
            s,
            #[trigger] args.drop_first()[i],
            if i == 0 {
                h0
            } else {
                ends.drop_first()[i - 1]
            },
            ends.drop_first()[i],
            b,
        ) by {
            assert(args.drop_first()[i] == args[i + 1]);
            assert(ends.drop_first()[i] == ends[i + 1]);
            if i > 0 {
                assert(ends.drop_first()[i - 1] == ends[i]);
            }
        }
        if args.len() > 1 {
            assert(ends.drop_first()[ends.drop_first().len() - 1] == ends[ends.len() - 1]);
        }
        lemma_chain_region(s, args.drop_first(), ends.drop_first(), h0, tail, b);
        let ns2 = choose|ns: Seq<TexNode>| #![trigger nodes_at(s, ns, h0, b, b)] nodes_at(
            s,
            ns,
            h0,
            b,
            b,
        );
        let one = seq![n0];
        assert(h0 <= b);
        assert(nodes_cover(Seq::<TexNode>::empty(), h0, h0));
        assert(one.len() == 1 && one[0] == n0);
        assert(n0.spec_span().start == lo as usize && n0.spec_span().end == h0 as usize);
        assert(one.drop_first() =~= Seq::<TexNode>::empty());
        assert(nodes_cover(one.drop_first(), h0, h0));
        assert(nodes_cover(one, lo, h0));
        lemma_cover_append(one, ns2, lo, h0, b);
        assert forall|i: int| 0 <= i < (one + ns2).len() implies node_at(
            s,
            #[trigger] (one + ns2)[i],
            b,
        ) by {
            if i == 0 {
                assert((one + ns2)[0] == n0);
            } else {
                assert((one + ns2)[i] == ns2[i - 1]);
            }
        }
        assert(nodes_at(s, one + ns2, lo, b, b));
    }
}

/// Walking an argument chain along a tiling of the same region: the
/// tiling is forced to begin with exactly the chain's groups, so the
/// nodes after the chain tile the rest of the region.
proof fn lemma_cmd_align(
    s: Seq<u8>,
    args: Seq<Arg>,
    ends: Seq<int>,
    lo: int,
    cend: int,
    ns: Seq<TexNode>,
    b: int,
)
    requires
        ends.len() == args.len(),
        forall|i: int|
            0 <= i < args.len() ==> arg_shaped(
                s,
                #[trigger] args[i],
                if i == 0 {
                    lo
                } else {
                    ends[i - 1]
                },
                ends[i],
                b,
            ),
        cend == (if args.len() == 0 {
            lo
        } else {
            ends[ends.len() - 1]
        }),
        nodes_at(s, ns, lo, b, b),
    ensures
        region_parses(s, cend, b),
    decreases args.len(),
{
    if args.len() == 0 {
        assert(nodes_at(s, ns, cend, b, b));
    } else {
        let h0 = ends[0];
        assert(arg_shaped(s, args[0], lo, h0, b));
        match args[0] {
            Arg::Mandatory { children } => {
                crate::group::lemma_group_span_props(s, lo, b);
            },
            Arg::Optional { children } => {
                crate::square_group::lemma_square_stop_props(s, lo + 1, b);
            },
        }
        assert(lo < b);
        assert(ns.len() > 0);
        lemma_head_forced(s, ns[0], b);
        assert(ns[0].spec_span().end == h0);
        lemma_cover_drop_first(ns, lo, b);
        assert forall|i: int| 0 <= i < ns.drop_first().len() implies node_at(
            s,
            #[trigger] ns.drop_first()[i],
            b,
        ) by {
            assert(ns.drop_first()[i] == ns[i + 1]);
        }
        assert forall|i: int| 0 <= i < args.drop_first().len() implies arg_shaped(
            s,
            #[trigger] args.drop_first()[i],
            if i == 0 {
                h0
            } else {
                ends.drop_first()[i - 1]
            },
            ends.drop_first()[i],
            b,
        ) by {
            assert(args.drop_first()[i] == args[i + 1]);
            assert(ends.drop_first()[i] == ends[i + 1]);
            if i > 0 {
                assert(ends.drop_first()[i - 1] == ends[i]);
            }
        }
        if args.len() > 1 {
            assert(ends.drop_first()[ends.drop_first().len() - 1] == ends[ends.len() - 1]);
        }
        lemma_cmd_align(s, args.drop_first(), ends.drop_first(), h0, cend, ns.drop_first(), b);
    }
}

/// Every well-formed node witnesses that the dispatcher can extract at
/// its position: the node's own scans succeed and its interiors parse.
proof fn lemma_node_extractable(s: Seq<u8>, n: TexNode, bound: int)
    requires
        node_at(s, n, bound),
        bound <= usize::MAX as int,
    ensures
        extractable_at(s, n.spec_span().start as int, bound),
{
    let p = n.spec_span().start as int;
    match n {
        TexNode::SquareGroup(q) => {
            let e = q.span.end as int;
            assert(nodes_at(s, q.children@, p + 1, e - 1, e - 1));
        },
        TexNode::Text(t) => {},
        TexNode::Comment(c) => {},
        TexNode::InlineMath(m) => {
            let e = m.span.end as int;
            assert(nodes_at(s, m.children@, p + 1, e - 1, e - 1));
        },
        TexNode::Group(g) => {
            let e = g.span.end as int;
            crate::group::lemma_group_span_props(s, p, bound);
            assert(nodes_at(s, g.children@, p + 1, e - 1, e - 1));
        },
        TexNode::Environment(v) => {
            let e = v.span.end as int;
            let ia = p + 8 + v.name@.len();
            crate::environment::lemma_env_scan_props(s, p, bound, Seq::empty(), 0, 0);
            let scan = env_scan(s, p, bound, Seq::empty(), 0, 0);
            let ib = scan->Some_0.1.1;
            let ends = choose|ends: Seq<int>|
                #![trigger ends.len()]
                {
                    let mid = if ends.len() == 0 {
                        ia
                    } else {
                        ends[ends.len() - 1]
                    };
                    &&& ends.len() == v.args@.len()
                    &&& (forall|i: int|
                        0 <= i < v.args@.len() ==> arg_shaped(
                            s,
                            #[trigger] v.args@[i],
                            if i == 0 {
                                ia
                            } else {
                                ends[i - 1]
                            },
                            ends[i],
                            ib,
                        ))
                    &&& nodes_cover(v.children@, mid, ib)
                    &&& (forall|i: int| 0 <= i < v.children@.len() ==> node_at(s, #[trigger] v.children@[i], ib))
                    &&& (v.children@.len() > 0 ==> !(v.children@[0] is Group) && !(v.children@[0]
                        is SquareGroup))
                };
            assert(nodes_at(s, v.children@, if ends.len() == 0 { ia } else { ends[ends.len() - 1] }, ib, ib));
            lemma_chain_region(s, v.args@, ends, ia, v.children@, ib);
        },
        TexNode::Command(c) => {},
    }
}

/// A node that is neither a brace group nor a square group stands where
/// no group of either kind can complete.
pub proof fn lemma_nonabsorbable(s: Seq<u8>, n: TexNode, bound: int)
    requires
        node_at(s, n, bound),
        !(n is Group),
        !(n is SquareGroup),
    ensures
        !group_or_square_extractable(s, n.spec_span().start as int, bound),
{
    let p = n.spec_span().start as int;
    match n {
        TexNode::Text(t) => {
            assert(group_opens(s, p, bound) ==> !is_text_byte(s[p]));
        },
        TexNode::Comment(c) => {
            assert(comment_end(s, p, bound) is Some ==> s[p] == '%' as u8);
        },
        TexNode::InlineMath(m) => {
            assert(math_close(s, p, bound) is Some ==> s[p] == '$' as u8);
        },
        _ => {},
    }
}

/// Determinism of recognition: two well-formed nodes standing at one
/// position are commands together or not at all, and when they are
/// not, their spans agree -- every kind but a command has its span end
/// fixed by its own delimiter scan. (A command's end is fixed by its
/// absorbed arguments; the extraction functions pin it through their
/// absorption-maximality clause.)
pub proof fn lemma_node_end_agrees(s: Seq<u8>, n1: TexNode, n2: TexNode, bound: int)
    requires
        node_at(s, n1, bound),
        node_at(s, n2, bound),
        n1.spec_span().start == n2.spec_span().start,
    ensures
        n1 is Command <==> n2 is Command,
        !(n1 is Command) ==> n1.spec_span().end == n2.spec_span().end,
{
    let p = n1.spec_span().start as int;
    let q = n2.spec_span().start as int;
    assert(q == p);
    crate::group::lemma_group_span_props(s, p, bound);

    assert(n1 is Text ==> square_close(s, p, bound) is None && text_matches(s, p, bound)
        && n1.spec_span().end == p + text_run_len(s, p, bound));
    assert(n1 is Comment ==> square_close(s, p, bound) is None && !text_matches(s, p, bound)
        && comment_end(s, p, bound) == Some(n1.spec_span().end as int));
    assert(n1 is InlineMath ==> square_close(s, p, bound) is None && !text_matches(s, p, bound)
        && comment_end(s, p, bound) is None && math_close(s, p, bound) == Some(
        n1.spec_span().end as int - 1,
    ));
    assert(n1 is Group ==> square_close(s, p, bound) is None && !text_matches(s, p, bound)
        && comment_end(s, p, bound) is None && math_close(s, p, bound) is None && group_span_spec(
        s,
        p,
        bound,
    ) == Some((p, n1.spec_span().end as int)));
    assert(n1 is SquareGroup ==> square_close(s, p, bound) == Some(n1.spec_span().end as int - 1));
    assert(n1 is Environment ==> square_close(s, p, bound) is None && !text_matches(s, p, bound)
        && comment_end(s, p, bound) is None && math_close(s, p, bound) is None && !group_opens(
        s,
        p,
        bound,
    ) && begin_sym_end(s, p, bound) is Some && (env_scan(s, p, bound, Seq::empty(), 0, 0) matches Some(
        ((a, ee), (ia, ib)),
    ) && ee == n1.spec_span().end as int));
    assert(n1 is Command ==> square_close(s, p, bound) is None && !text_matches(s, p, bound)
        && comment_end(s, p, bound) is None && math_close(s, p, bound) is None && !group_opens(
        s,
        p,
        bound,
    ) && !env_opens(s, p, bound) && command_matches(s, p, bound));

    assert(n2 is Text ==> square_close(s, q, bound) is None && text_matches(s, q, bound)
        && n2.spec_span().end == q + text_run_len(s, q, bound));
    assert(n2 is Comment ==> square_close(s, q, bound) is None && !text_matches(s, q, bound)
        && comment_end(s, q, bound) == Some(n2.spec_span().end as int));
    assert(n2 is InlineMath ==> square_close(s, q, bound) is None && !text_matches(s, q, bound)
        && comment_end(s, q, bound) is None && math_close(s, q, bound) == Some(
        n2.spec_span().end as int - 1,
    ));
    assert(n2 is Group ==> square_close(s, q, bound) is None && !text_matches(s, q, bound)
        && comment_end(s, q, bound) is None && math_close(s, q, bound) is None && group_span_spec(
        s,
        q,
        bound,
    ) == Some((q, n2.spec_span().end as int)));
    assert(n2 is SquareGroup ==> square_close(s, q, bound) == Some(n2.spec_span().end as int - 1));
    assert(n2 is Environment ==> square_close(s, q, bound) is None && !text_matches(s, q, bound)
        && comment_end(s, q, bound) is None && math_close(s, q, bound) is None && !group_opens(
        s,
        q,
        bound,
    ) && begin_sym_end(s, q, bound) is Some && (env_scan(s, q, bound, Seq::empty(), 0, 0) matches Some(
        ((a, ee), (ia, ib)),
    ) && ee == n2.spec_span().end as int));
    assert(n2 is Command ==> square_close(s, q, bound) is None && !text_matches(s, q, bound)
        && comment_end(s, q, bound) is None && math_close(s, q, bound) is None && !group_opens(
        s,
        q,
        bound,
    ) && !env_opens(s, q, bound) && command_matches(s, q, bound));
}
/// One extraction step keeps the rest of the region parseable: the
/// node the dispatcher returns lines up with the head of any tiling of
/// the region, whole absorbed arguments included, so what remains past
/// its span is tiled by the witness's remaining nodes.
proof fn lemma_step_preserves_parse(s: Seq<u8>, node: TexNode, pos: int, end: int)
    requires
        node_at(s, node, end),
        node.spec_span().start == pos,
        pos < end,
        end <= usize::MAX as int,
        region_parses(s, pos, end),
    ensures
        region_parses(s, node.spec_span().end as int, end),
{
    let ns = choose|ns: Seq<TexNode>| #![trigger nodes_at(s, ns, pos, end, end)] nodes_at(
        s,
        ns,
        pos,
        end,
        end,
    );
    assert(ns.len() > 0);
    lemma_node_end_agrees(s, node, ns[0], end);
    lemma_cover_drop_first(ns, pos, end);
    assert forall|i: int| 0 <= i < ns.drop_first().len() implies node_at(
        s,
        #[trigger] ns.drop_first()[i],
        end,
    ) by {
        assert(ns.drop_first()[i] == ns[i + 1]);
    }
    if !(node is Command) {
        assert(nodes_at(s, ns.drop_first(), node.spec_span().end as int, end, end));
    } else {
        let c = node->Command_0;
        let m = ns[0]->Command_0;
        let p = pos;
        let nlen = command_name_len(s, p, end);
        let name_end = p + 1 + nlen;
        let ec = choose|ends: Seq<int>|
            #![trigger ends.len()]
            {
                &&& ends.len() == c.args@.len()
                &&& (forall|i: int|
                    0 <= i < c.args@.len() ==> arg_shaped(
                        s,
                        #[trigger] c.args@[i],
                        if i == 0 {
                            name_end
                        } else {
                            ends[i - 1]
                        },
                        ends[i],
                        end,
                    ))
                &&& (if c.args@.len() == 0 {
                    c.span.end == name_end
                } else {
                    ends[ends.len() - 1] == c.span.end
                })
            };
        let em = choose|ends: Seq<int>|
            #![trigger ends.len()]
            {
                &&& ends.len() == m.args@.len()
                &&& (forall|i: int|
                    0 <= i < m.args@.len() ==> arg_shaped(
                        s,
                        #[trigger] m.args@[i],
                        if i == 0 {
                            name_end
                        } else {
                            ends[i - 1]
                        },
                        ends[i],
                        end,
                    ))
                &&& (if m.args@.len() == 0 {
                    m.span.end == name_end
                } else {
                    ends[ends.len() - 1] == m.span.end
                })
            };
        assert(nodes_at(s, ns.drop_first(), m.span.end as int, end, end));
        lemma_chain_region(s, m.args@, em, name_end, ns.drop_first(), end);
        let ns3 = choose|ns3: Seq<TexNode>| #[trigger] nodes_at(s, ns3, name_end, end, end);
        lemma_cmd_align(s, c.args@, ec, name_end, c.span.end as int, ns3, end);
    }
}

/// A complete group or square group at `p` is something the dispatcher
/// can extract there: a brace opens no other kind, so the priority
/// negations come along for free.
pub proof fn lemma_gs_extractable(s: Seq<u8>, p: int, bound: int)
    ensures
        group_or_square_extractable(s, p, bound) ==> extractable_at(s, p, bound),
{
}

} // verus!
