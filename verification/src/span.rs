use vstd::prelude::*;

verus! {

/// A half-open byte range `start..end` into a source text.
#[derive(Clone, Copy, Debug, PartialEq, Eq, Hash, Structural)]
pub struct Span {
    pub start: usize,
    pub end: usize,
}

impl Span {
    /// Build a span from its two byte offsets.
    pub fn new(start: usize, end: usize) -> (s: Span)
        ensures
            s.start == start,
            s.end == end,
    {
        Span { start, end }
    }

    /// The placeholder span used where no source location exists.
    pub fn dummy() -> (s: Span)
        ensures
            s.start == 0,
            s.end == 0,
    {
        Span { start: 0, end: 0 }
    }

    /// A span is well formed for a text of `len` bytes when it is ordered and in bounds.
    pub open spec fn within(self, len: int) -> bool {
        self.start <= self.end && self.end <= len
    }
}

/// Identifies a source file among those a session reads.
#[derive(Clone, Copy, Debug, PartialEq, Eq, Hash, Structural)]
pub struct FileId(pub u32);

} // verus!
