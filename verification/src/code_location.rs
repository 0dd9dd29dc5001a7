use vstd::prelude::*;

use crate::text::{decimal, push_decimal, push_str};

verus! {

/// Represents a code location.
#[derive(Debug, PartialEq, Eq, PartialOrd, Ord, Clone, Copy, Structural)]
pub struct CodeLocation {
    /// The line number (1-indexed).
    pub line: usize,
    /// The column number (1-indexed).
    pub column: usize,
}

/// The text `[Ln {line}, Col {column}]`.
pub open spec fn location_text(line: nat, column: nat) -> Seq<char> {
    "[Ln "@ + decimal(line) + ", Col "@ + decimal(column) + "]"@
}

impl CodeLocation {
    /// Creates a new [`CodeLocation`].
    pub fn new(line: usize, column: usize) -> (loc: Self)
        ensures
            loc.line == line,
            loc.column == column,
    {
        CodeLocation { line, column }
    }

    /// Formats the location as `[Ln {line}, Col {column}]`.
    pub fn to_string(&self) -> (s: String)
        ensures
            s@ == location_text(self.line as nat, self.column as nat),
    {
        let mut s = String::new();
        push_str(&mut s, "[Ln ");
        push_decimal(&mut s, self.line);
        push_str(&mut s, ", Col ");
        push_decimal(&mut s, self.column);
        push_str(&mut s, "]");
        s
    }
}

} // verus!
