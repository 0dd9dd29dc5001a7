use vstd::prelude::*;

verus! {

/// Represents a code position.
#[derive(Debug, PartialEq, Eq, PartialOrd, Ord, Clone, Copy, Structural)]
pub struct CodePos {
    pub line: usize,
    pub column: usize,
}

impl CodePos {
    /// Creates a new `CodePos`.
    pub fn new(line: usize, column: usize) -> (pos: Self)
        ensures
            pos.line == line,
            pos.column == column,
    {
        CodePos { line, column }
    }

    /// Advances a line: the line grows by one and the column returns to 1.
    pub fn advance_line(&mut self)
        requires
            old(self).line < usize::MAX,
        ensures
            final(self).line == old(self).line + 1,
            final(self).column == 1,
    {
        self.line = self.line + 1;
        self.column = 1;
    }

    /// Advances a column: the column grows by one, the line stays.
    pub fn advance_column(&mut self)
        requires
            old(self).column < usize::MAX,
        ensures
            final(self).line == old(self).line,
            final(self).column == old(self).column + 1,
    {
        self.column = self.column + 1;
    }
}

} // verus!
