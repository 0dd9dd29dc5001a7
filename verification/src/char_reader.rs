use vstd::prelude::*;

verus! {

/// The line buffer of a reader that hands out the characters of a text one
/// line at a time: it gives out the buffered characters in order, and once the
/// buffer is exhausted the owner reads the next line and refills it.
#[derive(Debug, Clone)]
pub struct CharReader {
    line: Vec<char>,
    curr_pos: usize,
}

impl CharReader {
    /// The characters of the current line.
    pub closed spec fn line(&self) -> Seq<char> {
        self.line@
    }

    /// How many characters of the current line were already given out.
    pub closed spec fn consumed(&self) -> nat {
        self.curr_pos as nat
    }

    pub closed spec fn wf(&self) -> bool {
        self.curr_pos <= self.line@.len()
    }

    /// Creates a reader with an empty buffer.
    pub fn new() -> (r: Self)
        ensures
            r.wf(),
            r.line() == Seq::<char>::empty(),
            r.consumed() == 0,
    {
        CharReader { line: Vec::new(), curr_pos: 0 }
    }

    /// Whether every buffered character was given out, so that the next line must be read.
    pub fn needs_line(&self) -> (b: bool)
        requires
            self.wf(),
        ensures
            b == (self.consumed() == self.line().len()),
    {
        self.curr_pos == self.line.len()
    }

    /// Replaces the buffer with a freshly read line.
    pub fn refill(&mut self, line: Vec<char>)
        ensures
            final(self).wf(),
            final(self).line() == line@,
            final(self).consumed() == 0,
    {
        self.line = line;
        self.curr_pos = 0;
    }

    /// Gives out the next buffered character, or `None` when the buffer is exhausted.
    pub fn take_char(&mut self) -> (c: Option<char>)
        requires
            old(self).wf(),
        ensures
            final(self).wf(),
            final(self).line() == old(self).line(),
            old(self).consumed() < old(self).line().len() ==> {
                &&& c == Some(old(self).line()[old(self).consumed() as int])
                &&& final(self).consumed() == old(self).consumed() + 1
            },
            old(self).consumed() == old(self).line().len() ==> {
                &&& c is None
                &&& final(self).consumed() == old(self).consumed()
            },
    {
        if self.curr_pos < self.line.len() {
            let ch = self.line[self.curr_pos];
            self.curr_pos = self.curr_pos + 1;
            Some(ch)
        } else {
            None
        }
    }
}

} // verus!
