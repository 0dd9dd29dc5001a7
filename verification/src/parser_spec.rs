//! What the parser produces, stated over the sequence of lexer results.
use vstd::prelude::*;

use crate::code_location::CodeLocation;
use crate::code_span::CodeSpan;
use crate::lexical_error::SpecLexicalError;
use crate::token::{Delimiter, SpecLiteral, SpecToken, SpecTokenKind};
use crate::value::{SpecValue, SpecValueKind};

verus! {

/// The model of a [`ParseError`](crate::ParseError).
pub enum SpecParseError {
    NoToken,
    InvalidToken(Seq<char>, CodeLocation),
    DelimiterInWrongPlace(Delimiter, CodeLocation),
    UnfinishedArray(CodeLocation, CodeLocation),
    UnfinishedObject(CodeLocation, CodeLocation),
    ArrayLacksSeparator(CodeLocation, CodeLocation),
    ObjectLacksSeparator(CodeLocation, CodeLocation),
    NameOfObjectMemberIsNotString(SpecLiteral, CodeLocation),
    ObjectMemberLacksSeparator(CodeLocation, CodeLocation),
    ObjectMemberLacksValue(CodeLocation, CodeLocation),
    ExtraTokenAtTheEnd(CodeLocation),
    NestingDepthExceeded(CodeLocation),
}

/// One result of the lexer, as the parser sees it.
pub type SpecTokenResult = Result<SpecToken, SpecLexicalError>;

/// A member of an object: its name, the span of the name, and its value.
pub type SpecMember = ((Seq<char>, CodeSpan), SpecValue);

/// Where a lexer result starts.
pub open spec fn result_start(t: SpecTokenResult) -> CodeLocation {
    match t {
        Ok(tok) => tok.span.start,
        Err(e) => e.location,
    }
}

/// Where a lexer result ends (for an error, where it starts).
pub open spec fn result_end(t: SpecTokenResult) -> CodeLocation {
    match t {
        Ok(tok) => tok.span.end,
        Err(e) => e.location,
    }
}

/// The error that an invalid token gives.
pub open spec fn invalid_token(e: SpecLexicalError) -> SpecParseError {
    SpecParseError::InvalidToken(e.string, e.location)
}

/// A value read at `i` when the nesting depth is `d`: the value, the span of
/// its last token and the index after it; or the error and the index at which
/// reading stopped.
///
/// A literal is a value; `[` and `{` start an array and an object; any other
/// delimiter or an invalid token is an error, and so is running out of tokens.
/// A value whose depth exceeds `max_depth` is an error at its first token.
pub open spec fn parse_value_at(t: Seq<SpecTokenResult>, i: int, d: int, max_depth: int) -> Result<
    (SpecValue, CodeSpan, int),
    (SpecParseError, int),
>
    decreases t.len() - i, 0int,
{
    if i < 0 || i >= t.len() {
        Err((SpecParseError::NoToken, i))
    } else {
        match t[i] {
            Err(e) => Err((invalid_token(e), i + 1)),
            Ok(tok) => match tok.kind {
                SpecTokenKind::Delimiter(Delimiter::LeftBracket) => if d > max_depth {
                    Err((SpecParseError::NestingDepthExceeded(tok.span.start), i + 1))
                } else {
                    parse_array_rest(t, i + 1, d, max_depth, tok.span, Seq::empty(), tok.span)
                },
                SpecTokenKind::Delimiter(Delimiter::LeftBrace) => if d > max_depth {
                    Err((SpecParseError::NestingDepthExceeded(tok.span.start), i + 1))
                } else {
                    parse_object_rest(t, i + 1, d, max_depth, tok.span, Seq::empty(), tok.span)
                },
                SpecTokenKind::Delimiter(delim) => Err(
                    (SpecParseError::DelimiterInWrongPlace(delim, tok.span.start), i + 1),
                ),
                SpecTokenKind::Literal(lit) => if d > max_depth {
                    Err((SpecParseError::NestingDepthExceeded(tok.span.start), i + 1))
                } else {
                    Ok(
                        (
                            SpecValue { kind: SpecValueKind::Literal(lit), span: tok.span },
                            tok.span,
                            i + 1,
                        ),
                    )
                },
            },
        }
    }
}

/// The rest of an array that began with the token spanning `begin`, read at
/// `i` with the `items` read so far, `last` being the span of the last token
/// read.  Items are separated by `,` and the array ends with `]`.
pub open spec fn parse_array_rest(
    t: Seq<SpecTokenResult>,
    i: int,
    d: int,
    max_depth: int,
    begin: CodeSpan,
    items: Seq<SpecValue>,
    last: CodeSpan,
) -> Result<(SpecValue, CodeSpan, int), (SpecParseError, int)>
    decreases t.len() - i, 1int,
{
    if i < 0 || i >= t.len() {
        Err((SpecParseError::UnfinishedArray(begin.start, last.end), i))
    } else {
        let next = t[i];
        let is_end = next matches Ok(tok) && tok.kind == SpecTokenKind::Delimiter(
            Delimiter::RightBracket,
        );
        let is_comma = next matches Ok(tok) && tok.kind == SpecTokenKind::Delimiter(
            Delimiter::Comma,
        );
        if is_end {
            let end_span = next->Ok_0.span;
            Ok(
                (
                    SpecValue {
                        kind: SpecValueKind::Array(items),
                        span: CodeSpan { start: begin.start, end: end_span.end },
                    },
                    end_span,
                    i + 1,
                ),
            )
        } else if is_comma && items.len() == 0 {
            Err((SpecParseError::DelimiterInWrongPlace(Delimiter::Comma, result_start(next)), i))
        } else if !is_comma && items.len() > 0 {
            Err((SpecParseError::ArrayLacksSeparator(begin.start, last.end), i))
        } else {
            let vi = if is_comma { i + 1 } else { i };
            match parse_value_at(t, vi, d + 1, max_depth) {
                Err((SpecParseError::NoToken, j)) => Err(
                    (SpecParseError::UnfinishedArray(begin.start, result_end(next)), j),
                ),
                Err(err) => Err(err),
                Ok((item, item_last, j)) => if i < j <= t.len() {
                    parse_array_rest(t, j, d, max_depth, begin, items.push(item), item_last)
                } else {
                    // a value always takes at least one token
                    Err((SpecParseError::NoToken, j))
                },
            }
        }
    }
}

/// The rest of an object that began with the token spanning `begin`, read at
/// `i` with the `members` read so far, `last` being the span of the last token
/// read.  Members are separated by `,` and the object ends with `}`.
pub open spec fn parse_object_rest(
    t: Seq<SpecTokenResult>,
    i: int,
    d: int,
    max_depth: int,
    begin: CodeSpan,
    members: Seq<SpecMember>,
    last: CodeSpan,
) -> Result<(SpecValue, CodeSpan, int), (SpecParseError, int)>
    decreases t.len() - i, 2int,
{
    if i < 0 || i >= t.len() {
        Err((SpecParseError::UnfinishedObject(begin.start, last.end), i))
    } else {
        let next = t[i];
        let is_end = next matches Ok(tok) && tok.kind == SpecTokenKind::Delimiter(
            Delimiter::RightBrace,
        );
        let is_comma = next matches Ok(tok) && tok.kind == SpecTokenKind::Delimiter(
            Delimiter::Comma,
        );
        if is_end {
            let end_span = next->Ok_0.span;
            Ok(
                (
                    SpecValue {
                        kind: SpecValueKind::Object(members),
                        span: CodeSpan { start: begin.start, end: end_span.end },
                    },
                    end_span,
                    i + 1,
                ),
            )
        } else if is_comma && members.len() == 0 {
            Err((SpecParseError::DelimiterInWrongPlace(Delimiter::Comma, result_start(next)), i))
        } else if !is_comma && members.len() > 0 {
            Err((SpecParseError::ObjectLacksSeparator(begin.start, last.end), i))
        } else {
            let mi = if is_comma { i + 1 } else { i };
            match parse_member_at(t, mi, d, max_depth, begin, result_end(next)) {
                Err(err) => Err(err),
                Ok((member, member_last, j)) => if i < j <= t.len() {
                    parse_object_rest(
                        t,
                        j,
                        d,
                        max_depth,
                        begin,
                        members.push(member),
                        member_last,
                    )
                } else {
                    // a member always takes at least three tokens
                    Err((SpecParseError::NoToken, j))
                },
            }
        }
    }
}

/// A member `"name": value` of the object that began with the token spanning
/// `begin`, read at `i`; `after` is where the token before it ends.
pub open spec fn parse_member_at(
    t: Seq<SpecTokenResult>,
    i: int,
    d: int,
    max_depth: int,
    begin: CodeSpan,
    after: CodeLocation,
) -> Result<(SpecMember, CodeSpan, int), (SpecParseError, int)>
    decreases t.len() - i, 1int,
{
    if i < 0 || i >= t.len() {
        Err((SpecParseError::UnfinishedObject(begin.start, after), i))
    } else {
        match t[i] {
            Err(e) => Err((invalid_token(e), i + 1)),
            Ok(name_tok) => match name_tok.kind {
                SpecTokenKind::Delimiter(delim) => Err(
                    (SpecParseError::DelimiterInWrongPlace(delim, name_tok.span.start), i + 1),
                ),
                SpecTokenKind::Literal(SpecLiteral::String(name)) => {
                    if i + 1 >= t.len() {
                        Err(
                            (
                                SpecParseError::ObjectMemberLacksSeparator(
                                    begin.start,
                                    name_tok.span.end,
                                ),
                                i + 1,
                            ),
                        )
                    } else {
                        match t[i + 1] {
                            Err(e) => Err((invalid_token(e), i + 2)),
                            Ok(colon) => if colon.kind != SpecTokenKind::Delimiter(Delimiter::Colon) {
                                Err(
                                    (
                                        SpecParseError::ObjectMemberLacksSeparator(
                                            begin.start,
                                            colon.span.start,
                                        ),
                                        i + 2,
                                    ),
                                )
                            } else {
                                match parse_value_at(t, i + 2, d + 1, max_depth) {
                                    Err((SpecParseError::NoToken, j)) => Err(
                                        (
                                            SpecParseError::ObjectMemberLacksValue(
                                                begin.start,
                                                colon.span.end,
                                            ),
                                            j,
                                        ),
                                    ),
                                    Err(err) => Err(err),
                                    Ok((v, v_last, j)) => Ok(
                                        (((name, name_tok.span), v), v_last, j),
                                    ),
                                }
                            },
                        }
                    }
                },
                SpecTokenKind::Literal(lit) => Err(
                    (
                        SpecParseError::NameOfObjectMemberIsNotString(lit, name_tok.span.start),
                        i + 1,
                    ),
                ),
            },
        }
    }
}

/// Parsing the tokens from `i` on: one value at depth 0, after which no token
/// may be left.  Gives the result and the index at which reading stopped.
pub open spec fn parse_tokens(t: Seq<SpecTokenResult>, i: int, max_depth: int) -> (
    Result<SpecValue, SpecParseError>,
    int,
) {
    match parse_value_at(t, i, 0, max_depth) {
        Err((e, j)) => (Err(e), j),
        Ok((v, _, j)) => if 0 <= j < t.len() {
            (Err(SpecParseError::ExtraTokenAtTheEnd(result_start(t[j]))), j + 1)
        } else {
            (Ok(v), j)
        },
    }
}

} // verus!
