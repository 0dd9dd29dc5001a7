use vstd::prelude::*;

use crate::code_location::CodeLocation;
use crate::token::{Delimiter, Literal};

verus! {

/// Represents a parser error.
#[derive(Debug, PartialEq, Clone)]
pub enum ParserError {
    /// There was no token where a value was expected.
    NoToken,
    /// An invalid token, with its text and location.
    InvalidToken(String, CodeLocation),
    /// A delimiter where it may not stand.
    DelimiterInWrongPlace(Delimiter, CodeLocation),
    /// An array without its closing `]`.
    UnfinishedArray(CodeLocation, CodeLocation),
    /// An object without its closing `}`.
    UnfinishedObject(CodeLocation, CodeLocation),
    /// An object member name that is not a string.
    NameOfObjectMemberIsNotString(Literal, CodeLocation),
    /// An object member without `:` after its name.
    ObjectMemberLacksSeparator(CodeLocation, CodeLocation),
    /// An object member without a value after `:`.
    ObjectMemberLacksValue(CodeLocation, CodeLocation),
    /// A token after the end of the JSON value.
    ExtraTokenAtTheEnd(CodeLocation),
}

} // verus!
