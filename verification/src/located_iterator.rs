use vstd::prelude::*;

use crate::code_location::CodeLocation;

verus! {

/// The line and column (both 1-indexed) of the character at index `n` of `s`,
/// or of the end of the text when `n == s.len()`: every `'\n'` before it starts
/// a new line at column 1, every other character moves one column to the right.
pub open spec fn line_col_at(s: Seq<char>, n: int) -> (nat, nat)
    decreases n,
{
    if n <= 0 {
        (1, 1)
    } else {
        let (line, column) = line_col_at(s, n - 1);
        if s[n - 1] == '\n' {
            (line + 1, 1)
        } else {
            (line, column + 1)
        }
    }
}

/// [`line_col_at`] as a [`CodeLocation`].
pub open spec fn location_at(s: Seq<char>, n: int) -> CodeLocation {
    CodeLocation { line: line_col_at(s, n).0 as usize, column: line_col_at(s, n).1 as usize }
}

/// Neither the line nor the column can run ahead of the number of characters read.
pub proof fn lemma_line_col_bound(s: Seq<char>, n: int)
    requires
        0 <= n,
    ensures
        1 <= line_col_at(s, n).0,
        1 <= line_col_at(s, n).1,
        line_col_at(s, n).0 + line_col_at(s, n).1 <= n + 2,
    decreases n,
{
    if n > 0 {
        lemma_line_col_bound(s, n - 1);
    }
}

/// The longest input that a [`LocatedIterator`] takes: a `Vec<char>` can hold
/// at most `isize::MAX` bytes, that is `usize::MAX / 8` characters.
pub open spec fn max_input_len() -> nat {
    (usize::MAX / 8) as nat
}

/// An iterator over the characters of a text which gives each character with
/// its [`CodeLocation`].
#[derive(Debug, Clone)]
pub struct LocatedIterator {
    chars: Vec<char>,
    pos: usize,
    location: CodeLocation,
}

impl LocatedIterator {
    /// The whole text.
    pub closed spec fn input(&self) -> Seq<char> {
        self.chars@
    }

    /// The number of characters already taken.
    pub closed spec fn position(&self) -> nat {
        self.pos as nat
    }

    pub closed spec fn wf(&self) -> bool {
        &&& self.chars@.len() <= max_input_len()
        &&& self.pos <= self.chars@.len()
        &&& self.location == location_at(self.chars@, self.pos as int)
    }

    /// A well-formed iterator has not gone past the end of a text of bounded length.
    pub proof fn lemma_wf(&self)
        requires
            self.wf(),
        ensures
            self.position() <= self.input().len(),
            self.input().len() <= max_input_len(),
    {
    }

    /// Creates an iterator positioned at the first character, at line 1, column 1.
    pub fn new(chars: Vec<char>) -> (it: Self)
        requires
            chars@.len() <= max_input_len(),
        ensures
            it.wf(),
            it.input() == chars@,
            it.position() == 0,
    {
        LocatedIterator { chars, pos: 0, location: CodeLocation { line: 1, column: 1 } }
    }

    /// The number of characters already taken.
    pub fn offset(&self) -> (n: usize)
        ensures
            n == self.position(),
    {
        self.pos
    }

    /// The location of the next character (the end of the text once all are taken).
    pub fn location(&self) -> (loc: CodeLocation)
        requires
            self.wf(),
        ensures
            loc == location_at(self.input(), self.position() as int),
    {
        self.location
    }

    /// The next character, without taking it.
    pub fn peek(&self) -> (c: Option<char>)
        requires
            self.wf(),
        ensures
            self.position() < self.input().len() ==> c == Some(self.input()[self.position() as int]),
            self.position() >= self.input().len() ==> c is None,
    {
        if self.pos < self.chars.len() {
            Some(self.chars[self.pos])
        } else {
            None
        }
    }

    /// Takes the next character together with its location.
    pub fn next(&mut self) -> (item: Option<(CodeLocation, char)>)
        requires
            old(self).wf(),
        ensures
            final(self).wf(),
            final(self).input() == old(self).input(),
            old(self).position() < old(self).input().len() ==> {
                &&& item == Some(
                    (
                        location_at(old(self).input(), old(self).position() as int),
                        old(self).input()[old(self).position() as int],
                    ),
                )
                &&& final(self).position() == old(self).position() + 1
            },
            old(self).position() >= old(self).input().len() ==> {
                &&& item is None
                &&& final(self).position() == old(self).position()
            },
    {
        if self.pos < self.chars.len() {
            let ch = self.chars[self.pos];
            let loc = self.location;
            proof {
                lemma_line_col_bound(self.chars@, self.pos as int + 1);
            }
            if ch == '\n' {
                self.location = CodeLocation { line: loc.line + 1, column: 1 };
            } else {
                self.location = CodeLocation { line: loc.line, column: loc.column + 1 };
            }
            self.pos = self.pos + 1;
            Some((loc, ch))
        } else {
            None
        }
    }
}

} // verus!
