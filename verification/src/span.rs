//! Half-open byte-offset ranges into a source buffer.

use vstd::prelude::*;

verus! {

/// A half-open byte range `[start, end)` into one source buffer.
#[derive(Debug, Clone, Copy, PartialEq, Eq, Structural)]
pub struct Span {
    pub start: usize,
    pub end: usize,
}

impl Default for Span {
    /// The default span is the empty range at offset zero.
    fn default() -> (r: Span)
        ensures
            r.start == 0 && r.end == 0,
    {
        Span { start: 0, end: 0 }
    }
}

} // verus!
