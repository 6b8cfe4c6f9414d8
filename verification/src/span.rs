//! Source locations: which file, and which bytes of it.
use vstd::prelude::*;

verus! {

/// Identity of one source file within a compilation.
pub type FileId = usize;

/// A half-open byte range `[start, end)` inside one source file.
#[derive(Debug, Clone, Copy, PartialEq, Eq, Hash, Structural)]
pub struct Span {
    pub file_id: FileId,
    pub start: usize,
    pub end: usize,
}

impl Span {
    /// Number of bytes the range covers.
    pub open spec fn width(self) -> int {
        self.end - self.start
    }
}

} // verus!
