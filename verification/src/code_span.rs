use vstd::prelude::*;

use crate::code_location::CodeLocation;
use crate::text::{decimal, push_decimal, push_str};

verus! {

/// Represents a code span.
#[derive(Debug, PartialEq, Eq, PartialOrd, Ord, Clone, Copy, Structural)]
pub struct CodeSpan {
    /// The start location of the span (inclusive).
    pub start: CodeLocation,
    /// The end location of the span (exclusive).
    pub end: CodeLocation,
}

/// `[Ln {l}, Col {c1}-{c2}]` when the span stays on one line,
/// `[Ln {l1}, Col {c1} - Ln {l2}, Col {c2}]` otherwise.
pub open spec fn span_text(span: CodeSpan) -> Seq<char> {
    let (l1, c1, l2, c2) = (
        span.start.line as nat,
        span.start.column as nat,
        span.end.line as nat,
        span.end.column as nat,
    );
    if l1 == l2 {
        "[Ln "@ + decimal(l1) + ", Col "@ + decimal(c1) + "-"@ + decimal(c2) + "]"@
    } else {
        "[Ln "@ + decimal(l1) + ", Col "@ + decimal(c1) + " - Ln "@ + decimal(l2) + ", Col "@
            + decimal(c2) + "]"@
    }
}

impl CodeSpan {
    /// Creates a new [`CodeSpan`].
    pub fn new(start: CodeLocation, end: CodeLocation) -> (span: Self)
        ensures
            span.start == start,
            span.end == end,
    {
        CodeSpan { start, end }
    }

    /// Formats the span, see [`span_text`].
    pub fn to_string(&self) -> (s: String)
        ensures
            s@ == span_text(*self),
    {
        let mut s = String::new();
        push_str(&mut s, "[Ln ");
        push_decimal(&mut s, self.start.line);
        push_str(&mut s, ", Col ");
        push_decimal(&mut s, self.start.column);
        if self.start.line == self.end.line {
            push_str(&mut s, "-");
            push_decimal(&mut s, self.end.column);
        } else {
            push_str(&mut s, " - Ln ");
            push_decimal(&mut s, self.end.line);
            push_str(&mut s, ", Col ");
            push_decimal(&mut s, self.end.column);
        }
        push_str(&mut s, "]");
        s
    }
}

} // verus!
