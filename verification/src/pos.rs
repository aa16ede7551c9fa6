//! Cursor positions inside a byte buffer, tracked as byte offset plus
//! 0-based line and column for error reporting.

use vstd::prelude::*;

verus! {

/// A position inside a buffer: absolute byte offset plus the 0-based
/// line and column it corresponds to.
///
/// The line and column never exceed the byte offset, which keeps all
/// position arithmetic free of overflow as long as the byte offset
/// stays within the buffer.
#[derive(Copy, Clone, Debug, PartialEq, Eq, Structural)]
pub struct FilePosition {
    /// 0-based line of this position.
    pub line: usize,
    /// 0-based column of this position.
    pub col: usize,
    /// The byte offset this position points at.
    pub byte: usize,
}

impl FilePosition {
    /// True when line and column are consistent with the byte offset:
    /// both count at most one step per byte consumed.
    pub open spec fn wf(self) -> bool {
        self.line <= self.byte && self.col <= self.byte
    }

    /// The position at the start of a buffer.
    pub fn new() -> (r: FilePosition)
        ensures
            r == (FilePosition { line: 0, col: 0, byte: 0 }),
    {
        FilePosition { line: 0, col: 0, byte: 0 }
    }

    /// Move `bytes` bytes forward within the current line.
    pub fn advance(&mut self, bytes: usize)
        requires
            old(self).byte + bytes <= usize::MAX,
            old(self).wf(),
        ensures
            *final(self) == old(self).spec_advanced(bytes as int),
            final(self).wf(),
    {
        self.byte = self.byte + bytes;
        self.col = self.col + bytes;
    }

    /// The position `bytes` bytes further within the current line.
    pub open spec fn spec_advanced(self, bytes: int) -> FilePosition {
        FilePosition {
            line: self.line,
            col: (self.col + bytes) as usize,
            byte: (self.byte + bytes) as usize,
        }
    }

    /// Pure variant of `advance`: returns the moved position.
    pub fn advanced(&self, bytes: usize) -> (r: FilePosition)
        requires
            self.byte + bytes <= usize::MAX,
            self.wf(),
        ensures
            r == self.spec_advanced(bytes as int),
            r.wf(),
    {
        FilePosition { line: self.line, col: self.col + bytes, byte: self.byte + bytes }
    }

    /// The position after consuming a line terminator of width `bytes`
    /// (0 means no terminator was consumed and the position is unchanged).
    pub open spec fn spec_next_line(self, bytes: int) -> FilePosition {
        if bytes > 0 {
            FilePosition {
                line: (self.line + 1) as usize,
                col: 0,
                byte: (self.byte + bytes) as usize,
            }
        } else {
            self
        }
    }

    /// Move past a line terminator of width `bytes`: the column resets
    /// and the line count grows.  A width of 0 leaves the position as is.
    pub fn next_line(&mut self, bytes: usize)
        requires
            old(self).byte + bytes <= usize::MAX,
            old(self).wf(),
        ensures
            *final(self) == old(self).spec_next_line(bytes as int),
            final(self).wf(),
    {
        if bytes > 0 {
            self.byte = self.byte + bytes;
            self.col = 0;
            self.line = self.line + 1;
        }
    }
}

} // verus!
