use vstd::prelude::*;

verus! {

/// A span of the source text, in bytes: from `start` up to `end`.
#[derive(Debug, Clone, Copy, PartialEq, Eq, Structural)]
pub struct Location {
    pub start: usize,
    pub end: usize,
}

/// A node of the parse tree together with the span it was read from.
#[derive(Debug, Clone)]
pub struct Located<T> {
    pub location: Location,
    pub inner: T,
}

} // verus!
