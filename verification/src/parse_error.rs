use vstd::prelude::*;

use crate::code_location::CodeLocation;
use crate::lexical_error::LexicalErrorKind;
use crate::token::{Delimiter, Literal};

verus! {

/// A parse error described by what went wrong and where, with named
/// locations for errors that concern a whole array, object or member.
#[derive(Debug, PartialEq, Clone)]
pub enum ParseError {
    /// Lexical error occurred at [`CodeLocation`].
    LexicalError(LexicalErrorKind, String, CodeLocation),
    /// The input was empty.
    EmptyInput,
    /// Unexpected trailing token at [`CodeLocation`] after the end of the JSON input.
    TrailingToken(CodeLocation),
    /// Unexpected delimiter encountered at [`CodeLocation`].
    UnexpectedDelimiter(Delimiter, CodeLocation),
    /// Array was missing its closing `]`.
    UnclosedArray { array_start: CodeLocation, error_at: CodeLocation },
    /// Object was missing its closing `}`.
    UnclosedObject { object_start: CodeLocation, error_at: CodeLocation },
    /// Array was missing `,` separator between array elements.
    ArrayMissingSeparator { array_start: CodeLocation, error_at: CodeLocation },
    /// Object was missing `,` separator between object members.
    ObjectMissingSeparator { object_start: CodeLocation, error_at: CodeLocation },
    /// Object member name was not a string: the offending literal and its location.
    ObjectMemberNameNotString(Literal, CodeLocation),
    /// Object member was missing `:` separator after the member name.
    ObjectMemberMissingSeparator { member_start: CodeLocation, error_at: CodeLocation },
    /// Object member was missing value after `:` separator.
    ObjectMemberMissingValue { member_start: CodeLocation, error_at: CodeLocation },
    /// Maximum nesting depth exceeded at [`CodeLocation`]: the root value is at
    /// depth 0 and each nested array or object adds one.
    NestingDepthExceeded(CodeLocation),
}

} // verus!
