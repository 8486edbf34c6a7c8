//! Commands: a control word `\name` (letters, optional trailing `*`)
//! that greedily absorbs following groups as arguments.

use vstd::prelude::*;

use vstd::string::StringSliceAdditionalSpecFns;

use crate::arg::Arg;
use crate::node::{
    arg_shaped, command_shaped, group_or_square_extractable, lemma_gs_extractable,
    lemma_nonabsorbable, node_at, TexNode,
};
use crate::scan::{letter_byte, letter_run_len};
use crate::span::Span;

verus! {

/// The length of the command name starting right after a `\` at `p`:
/// one or more letters plus an optional trailing `*`. Zero when no
/// control word is anchored at `p`.
pub open spec fn command_name_len(s: Seq<u8>, p: int, end: int) -> nat {
    if p < end && s[p] == '\\' as u8 {
        let k = letter_run_len(s, p + 1, end);
        if k == 0 {
            0
        } else if p + 1 + k < end && s[p + 1 + k] == '*' as u8 {
            k + 1
        } else {
            k
        }
    } else {
        0
    }
}

/// The command recognizer matches at `p` exactly when a control word is
/// anchored there.
pub open spec fn command_matches(s: Seq<u8>, p: int, end: int) -> bool {
    command_name_len(s, p, end) > 0
}

/// A command; `name` is the control word without its leading `\`, and
/// the span runs from the `\` to the end of the last absorbed argument
/// (or of the name, when no argument was absorbed).
#[derive(Debug, PartialEq)]
pub struct Command {
    pub span: Span,
    pub name: Vec<u8>,
    pub args: Vec<Arg>,
}

/// Recognizes a command anchored at `start`, bounded by `end`: a
/// control word, then an absorption loop that extracts the node at the
/// running span end and consumes it while it is a brace group
/// (a mandatory argument) or a square group (an optional argument).
/// Any other node, or any extraction failure there, stops the
/// absorption and is left for the caller.
pub fn extract_command(tex: &str, start: usize, end: usize) -> (r: Option<Command>)
    requires
        start <= end <= tex.spec_bytes().len(),
    ensures
        ({
            let s = tex.spec_bytes();
            match r {
                Some(c) => {
                    &&& c.span.start == start
                    &&& start < c.span.end <= end
                    &&& command_shaped(s, c, end as int)
                    &&& !group_or_square_extractable(s, c.span.end as int, end as int)
                },
                None => !command_matches(s, start as int, end as int),
            }
        }),
    decreases end - start, 0int,
{
    let b: &[u8] = tex.as_bytes();
    let ghost s = tex.spec_bytes();
    if start >= end || b[start] != ('\\' as u8) {
        return None;
    }
    let mut k: usize = start + 1;
    while k < end && letter_byte(b[k])
        invariant
            start + 1 <= k <= end <= s.len(),
            s == tex.spec_bytes(),
            b@ == s,
            letter_run_len(s, start as int + 1, end as int) == (k - (start + 1)) + letter_run_len(
                s,
                k as int,
                end as int,
            ),
        decreases end - k,
    {
        k = k + 1;
    }
    assert(letter_run_len(s, k as int, end as int) == 0);
    if k == start + 1 {
        return None;
    }
    let name_end: usize = if k < end && b[k] == ('*' as u8) {
        k + 1
    } else {
        k
    };
    assert(command_name_len(s, start as int, end as int) == name_end - (start + 1));
    let name = vstd::slice::slice_to_vec(&b[start + 1..name_end]);
    let mut span = Span { start, end: name_end };
    let mut args: Vec<Arg> = Vec::new();
    let ghost mut ends: Seq<int> = Seq::empty();
    while span.end < end
        invariant
            s == tex.spec_bytes(),
            start + 1 < name_end <= span.end <= end <= s.len(),
            span.start == start,
            command_name_len(s, start as int, end as int) == name_end - (start + 1),
            name@ == s.subrange(start as int + 1, name_end as int),
            ends.len() == args@.len(),
            forall|i: int|
                0 <= i < args@.len() ==> arg_shaped(
                    s,
                    #[trigger] args@[i],
                    if i == 0 {
                        name_end as int
                    } else {
                        ends[i - 1]
                    },
                    ends[i],
                    end as int,
                ),
            if args@.len() == 0 {
                span.end == name_end
            } else {
                ends[ends.len() - 1] == span.end
            },
        ensures
            ends.len() == args@.len(),
            forall|i: int|
                0 <= i < args@.len() ==> arg_shaped(
                    s,
                    #[trigger] args@[i],
                    if i == 0 {
                        name_end as int
                    } else {
                        ends[i - 1]
                    },
                    ends[i],
                    end as int,
                ),
            if args@.len() == 0 {
                span.end == name_end
            } else {
                ends[ends.len() - 1] == span.end
            },
            span.start == start,
            name_end <= span.end <= end,
            span.end == end || !group_or_square_extractable(s, span.end as int, end as int),
        decreases end - span.end,
    {
        let ghost old_args = args@;
        let ghost old_ends = ends;
        let ghost old_end = span.end as int;
        match crate::node::extract_node(tex, span.end, end) {
            Ok(TexNode::Group(group)) => {
                let group_end = group.span.end;
                proof {
                    ends = ends.push(group_end as int);
                }
                args.push(Arg::Mandatory { children: group.children });
                span.end = group_end;
                proof {
                    assert forall|i: int| 0 <= i < args@.len() implies arg_shaped(
                        s,
                        #[trigger] args@[i],
                        if i == 0 {
                            name_end as int
                        } else {
                            ends[i - 1]
                        },
                        ends[i],
                        end as int,
                    ) by {
                        if i < old_args.len() {
                            assert(args@[i] == old_args[i]);
                        } else {
                            assert(args@[i] == Arg::Mandatory { children: group.children });
                        }
                    }
                }
            },
            Ok(TexNode::SquareGroup(square_group)) => {
                let square_end = square_group.span.end;
                proof {
                    ends = ends.push(square_end as int);
                }
                args.push(Arg::Optional { children: square_group.children });
                span.end = square_end;
                proof {
                    assert forall|i: int| 0 <= i < args@.len() implies arg_shaped(
                        s,
                        #[trigger] args@[i],
                        if i == 0 {
                            name_end as int
                        } else {
                            ends[i - 1]
                        },
                        ends[i],
                        end as int,
                    ) by {
                        if i < old_args.len() {
                            assert(args@[i] == old_args[i]);
                        } else {
                            assert(args@[i] == Arg::Optional { children: square_group.children });
                        }
                    }
                }
            },
            Ok(node) => {
                proof {
                    lemma_nonabsorbable(s, node, end as int);
                }
                break;
            },
            Err(_) => {
                proof {
                    lemma_gs_extractable(s, span.end as int, end as int);
                }
                break;
            },
        }
    }
    proof {
        if span.end == end {
            assert(!group_or_square_extractable(s, end as int, end as int));
        }
    }
    Some(Command { span, name, args })
}

} // verus!
