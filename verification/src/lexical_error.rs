use vstd::prelude::*;

use crate::code_location::CodeLocation;

verus! {

/// Represents a kind of lexical error by [`Lexer`](crate::Lexer).
#[derive(Debug, PartialEq, Eq, Clone, Copy, Structural)]
pub enum LexicalErrorKind {
    /// Unexpected character was found.
    UnexpectedChar,
    /// Unquoted string was found.
    UnquotedString,
    /// String was not terminated by a closing `"`.
    UnterminatedString,
    /// Number has a leading zero before integer component digits.
    NumberContainsLeadingZero,
    /// Number was missing integer digits.
    NumberMissingIntegerDigits,
    /// Number has a decimal point but no fraction digits.
    NumberMissingFractionDigits,
    /// Number has an exponent indicator but no exponent digits.
    NumberMissingExponentDigits,
    /// String contains an unescaped control character.
    StringContainsUnescapedControlChar,
    /// String contains an invalid escape sequence.
    StringContainsInvalidEscapeSequence,
    /// String contains a `\u` escape that is not followed by four hexadecimal digits.
    StringContainsInvalidUnicodeEscape,
}

/// Represents a lexical error by [`Lexer`](crate::Lexer).
#[derive(Debug, PartialEq, Clone)]
pub struct LexicalError {
    /// The kind of the error.
    pub kind: LexicalErrorKind,
    /// The substring of the JSON source text related to the error, stored as-is.
    pub string: String,
    /// The starting location of the error.
    pub location: CodeLocation,
}

/// The mathematical model of a [`LexicalError`].
pub struct SpecLexicalError {
    pub kind: LexicalErrorKind,
    pub string: Seq<char>,
    pub location: CodeLocation,
}

impl View for LexicalError {
    type V = SpecLexicalError;

    open spec fn view(&self) -> SpecLexicalError {
        SpecLexicalError { kind: self.kind, string: self.string@, location: self.location }
    }
}

impl LexicalError {
    /// Creates a new [`LexicalError`].
    pub fn new(kind: LexicalErrorKind, string: String, location: CodeLocation) -> (e: Self)
        ensures
            e.kind == kind,
            e.string == string,
            e.location == location,
    {
        LexicalError { kind, string, location }
    }
}

} // verus!
