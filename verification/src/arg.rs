//! Command and environment arguments.

use vstd::prelude::*;

use crate::node::TexNode;

verus! {

/// One absorbed argument: `Mandatory` comes from a following brace
/// group, `Optional` from a following square group. The argument keeps
/// only the group's children; the group's own span is discarded once it
/// is classified as an argument.
#[derive(Debug, PartialEq)]
pub enum Arg {
    Mandatory { children: Vec<TexNode> },
    Optional { children: Vec<TexNode> },
}

} // verus!
