//! Source file ids and byte-offset spans.

use vstd::prelude::*;

verus! {

/// Stable id assigned by `SourceManager` when a source file is loaded.
#[derive(Clone, Copy, Debug, PartialEq, Eq, Hash, Structural)]
pub struct FileId(pub u32);

/// Half-open source span `[start, end)` in a file.
#[derive(Clone, Copy, Debug, PartialEq, Eq, Hash, Structural)]
pub struct SourceSpan {
    /// Source file containing the span.
    pub file_id: FileId,
    /// Start byte offset.
    pub start: usize,
    /// End byte offset.
    pub end: usize,
}

impl SourceSpan {
    /// Creates a source span from file id and byte offsets.
    pub fn new(file_id: FileId, start: usize, end: usize) -> (span: Self)
        ensures
            span == (SourceSpan { file_id, start, end }),
    {
        SourceSpan { file_id, start, end }
    }

    /// The number of bytes covered; a span that ends before it starts covers none.
    pub open spec fn spec_len(self) -> nat {
        if self.start <= self.end {
            (self.end - self.start) as nat
        } else {
            0
        }
    }

    /// Returns the byte length of the span.
    pub fn len(&self) -> (n: usize)
        ensures
            n == self.spec_len(),
    {
        self.end.saturating_sub(self.start)
    }

    /// Returns true when the span has no byte width.
    pub fn is_empty(&self) -> (empty: bool)
        ensures
            empty == (self.spec_len() == 0),
    {
        self.start >= self.end
    }
}

} // verus!
