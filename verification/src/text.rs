//! Text ranges measured in `u32` offsets.

use vstd::prelude::*;

verus! {

/// A half-open range `[start, end)` of text offsets, measured relative to
/// some enclosing context (here: a node's own start).
#[derive(Clone, Copy, PartialEq, Eq, Hash, Debug, Structural)]
pub struct TextRange {
    pub start: u32,
    pub end: u32,
}

impl TextRange {
    /// A range is well formed when it does not end before it starts.
    pub open spec fn wf(self) -> bool {
        self.start <= self.end
    }

    /// `other` lies wholly inside `self` (an empty `other` on the edge of
    /// `self` counts as inside).
    pub open spec fn spec_contains_range(self, other: TextRange) -> bool {
        self.start <= other.start && other.end <= self.end
    }

    pub open spec fn spec_len(self) -> int {
        self.end - self.start
    }

    pub open spec fn is_empty(self) -> bool {
        self.start == self.end
    }

    pub fn new(start: u32, end: u32) -> (r: TextRange)
        requires
            start <= end,
        ensures
            r.start == start,
            r.end == end,
            r.wf(),
    {
        TextRange { start, end }
    }

    /// The range of length `len` starting at `offset`.
    pub fn at(offset: u32, len: u32) -> (r: TextRange)
        requires
            offset + len <= u32::MAX,
        ensures
            r.start == offset,
            r.end == offset + len,
            r.wf(),
    {
        TextRange { start: offset, end: offset + len }
    }

    pub fn start(&self) -> (r: u32)
        ensures
            r == self.start,
    {
        self.start
    }

    pub fn end(&self) -> (r: u32)
        ensures
            r == self.end,
    {
        self.end
    }

    pub fn contains_range(&self, other: TextRange) -> (r: bool)
        ensures
            r == self.spec_contains_range(other),
    {
        self.start <= other.start && other.end <= self.end
    }
}

} // verus!
