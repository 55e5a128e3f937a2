//! Line/column bookkeeping for the scanner.
//!
//! Positions are 1-based. The scanner advances the column for every
//! character it consumes; a newline additionally increments the line and
//! resets the column first, so the position directly after a newline has
//! column 2 (the newline itself counted as the first column of its line).

use vstd::prelude::*;

verus! {

/// The scanner's current place in the source text, updated as characters
/// are consumed.
pub struct Position {
    pub line: usize,
    pub column: usize,
}

impl Position {
    /// The position before anything has been consumed: line 1, column 1.
    pub fn new() -> (p: Position)
        ensures
            p.line == 1,
            p.column == 1,
    {
        Position { line: 1, column: 1 }
    }

    /// Move to the start of the next line.
    pub fn increment_line(&mut self)
        requires
            old(self).line < usize::MAX,
        ensures
            final(self).line == old(self).line + 1,
            final(self).column == 1,
    {
        self.line = self.line + 1;
        self.column = 1;
    }

    /// Move one column to the right on the current line.
    pub fn increment_column(&mut self)
        requires
            old(self).column < usize::MAX,
        ensures
            final(self).line == old(self).line,
            final(self).column == old(self).column + 1,
    {
        self.column = self.column + 1;
    }
}

} // verus!
