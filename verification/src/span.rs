//! Half-open byte ranges into a source buffer.

use vstd::prelude::*;

verus! {

/// A half-open range `[start, end)` of byte offsets into the source text.
#[derive(Clone, Copy, Debug, PartialEq, Eq, Structural, Hash)]
pub struct Span {
    pub start: usize,
    pub end: usize,
}

impl Span {
    /// A span is well formed when it does not end before it starts.
    pub open spec fn wf(self) -> bool {
        self.start <= self.end
    }

    /// The number of bytes the span covers.
    pub open spec fn spec_len(self) -> nat {
        if self.start <= self.end {
            (self.end - self.start) as nat
        } else {
            0
        }
    }

    /// The bytes of `src` that the span selects.
    pub open spec fn text(self, src: Seq<u8>) -> Seq<u8>
        recommends
            self.wf(),
            self.end <= src.len(),
    {
        src.subrange(self.start as int, self.end as int)
    }

    pub fn new(start: usize, end: usize) -> (s: Span)
        ensures
            s.start == start,
            s.end == end,
    {
        Span { start, end }
    }

    /// The empty span sitting at `offset`.
    pub fn empty_at(offset: usize) -> (s: Span)
        ensures
            s.start == offset,
            s.end == offset,
            s.wf(),
    {
        Span { start: offset, end: offset }
    }

    pub fn len(&self) -> (n: usize)
        ensures
            n == self.spec_len(),
    {
        if self.start <= self.end {
            self.end - self.start
        } else {
            0
        }
    }

    pub fn is_empty(&self) -> (b: bool)
        ensures
            b == (self.spec_len() == 0),
    {
        self.start >= self.end
    }
}

} // verus!
