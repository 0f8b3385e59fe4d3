//! Source spans attached to parsed declarations.

use vstd::prelude::*;

verus! {

/// A byte range `[start, end)` in a source document.
#[derive(Debug, Clone, Copy, PartialEq, Eq, Structural)]
pub struct Span {
    pub start: usize,
    pub end: usize,
}

/// `over` when present, otherwise `base` (`Option::or`).
pub fn span_or(over: Option<Span>, base: Option<Span>) -> (r: Option<Span>)
    ensures
        r == (if over is Some {
            over
        } else {
            base
        }),
{
    match over {
        Some(s) => Some(s),
        None => base,
    }
}

} // verus!
