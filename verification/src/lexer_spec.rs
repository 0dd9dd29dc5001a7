//! What the lexer produces, stated over the characters of the input.
use vstd::prelude::*;

use crate::code_location::CodeLocation;
use crate::code_span::CodeSpan;
use crate::lexical_error::{LexicalErrorKind, SpecLexicalError};
use crate::located_iterator::location_at;
use crate::text::{is_alpha, is_digit, is_forbidden_control, is_hex, is_word_char, is_ws};
use crate::token::{
    delimiter_of, false_text, null_text, true_text, SpecLiteral, SpecToken, SpecTokenKind,
};

verus! {

/// The first index at or after `i` that does not hold JSON whitespace
/// (`s.len()` when there is none).
pub open spec fn skip_ws(s: Seq<char>, i: int) -> int
    decreases s.len() - i,
{
    if 0 <= i < s.len() && is_ws(s[i]) {
        skip_ws(s, i + 1)
    } else {
        i
    }
}

pub proof fn lemma_skip_ws_bounds(s: Seq<char>, i: int)
    requires
        0 <= i <= s.len(),
    ensures
        i <= skip_ws(s, i) <= s.len(),
    decreases s.len() - i,
{
    if 0 <= i < s.len() && is_ws(s[i]) {
        lemma_skip_ws_bounds(s, i + 1);
    }
}

/// The end of the longest run of characters satisfying `p` that starts at `i`.
pub open spec fn run_end(s: Seq<char>, i: int, p: spec_fn(char) -> bool) -> int
    decreases s.len() - i,
{
    if 0 <= i < s.len() && p(s[i]) {
        run_end(s, i + 1, p)
    } else {
        i
    }
}

pub proof fn lemma_run_end_bounds(s: Seq<char>, i: int, p: spec_fn(char) -> bool)
    requires
        0 <= i <= s.len(),
    ensures
        i <= run_end(s, i, p) <= s.len(),
        forall|k: int| i <= k < run_end(s, i, p) ==> #[trigger] p(s[k]),
        run_end(s, i, p) < s.len() ==> !p(s[run_end(s, i, p)]),
    decreases s.len() - i,
{
    if 0 <= i < s.len() && p(s[i]) {
        lemma_run_end_bounds(s, i + 1, p);
    }
}

pub open spec fn digits() -> spec_fn(char) -> bool {
    |c: char| is_digit(c)
}

pub open spec fn word_chars() -> spec_fn(char) -> bool {
    |c: char| is_word_char(c)
}

/// The number of hexadecimal digits at `i`, counting at most `n`.
pub open spec fn hex_prefix(s: Seq<char>, i: int, n: nat) -> nat
    decreases n,
{
    if n > 0 && 0 <= i < s.len() && is_hex(s[i]) {
        1 + hex_prefix(s, i + 1, (n - 1) as nat)
    } else {
        0
    }
}

/// Of two errors found one after the other, the later one is reported.
pub open spec fn later_error(
    first: Option<LexicalErrorKind>,
    later: Option<LexicalErrorKind>,
) -> Option<LexicalErrorKind> {
    if later is Some {
        later
    } else {
        first
    }
}

/// A number that starts at `q` (with `-` or a digit): its end and the error it
/// carries, if any.  A number is a sign or digit, more digits, an optional
/// fraction `.` digits and an optional exponent `e`/`E`, optional `+`/`-`,
/// digits; the text read is as long as that shape allows, and of the errors
/// found the one found last is reported.
pub open spec fn scan_number(s: Seq<char>, q: int) -> (int, Option<LexicalErrorKind>) {
    let first = s[q];
    let i0 = q + 1;
    let i1 = run_end(s, i0, digits());
    let int_err = if first == '-' && i1 == i0 {
        Some(LexicalErrorKind::NumberMissingIntegerDigits)
    } else if (first == '0' && i1 > i0) || (first == '-' && i1 - i0 >= 2 && s[i0] == '0') {
        Some(LexicalErrorKind::NumberContainsLeadingZero)
    } else {
        None
    };
    let has_frac = i1 < s.len() && s[i1] == '.';
    let i2 = if has_frac { run_end(s, i1 + 1, digits()) } else { i1 };
    let frac_err = if has_frac && i2 == i1 + 1 {
        Some(LexicalErrorKind::NumberMissingFractionDigits)
    } else {
        None
    };
    let has_exp = i2 < s.len() && (s[i2] == 'e' || s[i2] == 'E');
    let has_sign = has_exp && i2 + 1 < s.len() && (s[i2 + 1] == '+' || s[i2 + 1] == '-');
    let i3 = if has_sign { i2 + 2 } else if has_exp { i2 + 1 } else { i2 };
    let i4 = if has_exp { run_end(s, i3, digits()) } else { i2 };
    let exp_err = if has_exp && i4 == i3 {
        Some(LexicalErrorKind::NumberMissingExponentDigits)
    } else {
        None
    };
    (i4, later_error(later_error(int_err, frac_err), exp_err))
}

/// The escapes that need nothing after the escaped character.
pub open spec fn is_simple_escape(c: char) -> bool {
    c == '"' || c == '\\' || c == '/' || c == 'b' || c == 'f' || c == 'n' || c == 'r' || c == 't'
}

pub proof fn lemma_hex_prefix_bound(s: Seq<char>, i: int, n: nat)
    requires
        0 <= i,
    ensures
        hex_prefix(s, i, n) <= n,
        i + hex_prefix(s, i, n) <= s.len() || hex_prefix(s, i, n) == 0,
    decreases n,
{
    if n > 0 && 0 <= i < s.len() && is_hex(s[i]) {
        lemma_hex_prefix_bound(s, i + 1, (n - 1) as nat);
    }
}

/// The body of a quoted string read from `i` (just after the opening quote):
/// the index of the closing quote (`s.len()` when there is none), whether the
/// closing quote was found, and the last error found on the way.
pub open spec fn scan_string(s: Seq<char>, i: int) -> (int, bool, Option<LexicalErrorKind>)
    decreases s.len() - i,
{
    if i < 0 || i >= s.len() {
        (s.len() as int, false, None)
    } else if s[i] == '"' {
        (i, true, None)
    } else if s[i] == '\\' {
        if i + 1 >= s.len() {
            (s.len() as int, false, None)
        } else if is_simple_escape(s[i + 1]) {
            scan_string(s, i + 2)
        } else if s[i + 1] == 'u' {
            let k = hex_prefix(s, i + 2, 4);
            proof {
                lemma_hex_prefix_bound(s, i + 2, 4);
            }
            let rest = scan_string(s, i + 2 + k);
            let here = if k < 4 {
                Some(LexicalErrorKind::StringContainsInvalidUnicodeEscape)
            } else {
                None
            };
            (rest.0, rest.1, later_error(here, rest.2))
        } else {
            let rest = scan_string(s, i + 2);
            (
                rest.0,
                rest.1,
                later_error(Some(LexicalErrorKind::StringContainsInvalidEscapeSequence), rest.2),
            )
        }
    } else if is_forbidden_control(s[i]) {
        let rest = scan_string(s, i + 1);
        (
            rest.0,
            rest.1,
            later_error(Some(LexicalErrorKind::StringContainsUnescapedControlChar), rest.2),
        )
    } else {
        scan_string(s, i + 1)
    }
}

pub proof fn lemma_scan_number_bounds(s: Seq<char>, q: int)
    requires
        0 <= q < s.len(),
    ensures
        q < scan_number(s, q).0 <= s.len(),
{
    let i0 = q + 1;
    lemma_run_end_bounds(s, i0, digits());
    let i1 = run_end(s, i0, digits());
    if i1 < s.len() && s[i1] == '.' {
        lemma_run_end_bounds(s, i1 + 1, digits());
    }
    let i2 = if i1 < s.len() && s[i1] == '.' { run_end(s, i1 + 1, digits()) } else { i1 };
    if i2 < s.len() && (s[i2] == 'e' || s[i2] == 'E') {
        if i2 + 1 < s.len() && (s[i2 + 1] == '+' || s[i2 + 1] == '-') {
            lemma_run_end_bounds(s, i2 + 2, digits());
        } else {
            lemma_run_end_bounds(s, i2 + 1, digits());
        }
    }
}

pub proof fn lemma_scan_string_bounds(s: Seq<char>, i: int)
    requires
        0 <= i,
    ensures
        i <= scan_string(s, i).0 <= s.len() || (i > s.len() && scan_string(s, i).0 == s.len()),
        scan_string(s, i).1 ==> scan_string(s, i).0 < s.len(),
        scan_string(s, i).1 ==> s[scan_string(s, i).0] == '"',
    decreases s.len() - i,
{
    if i < s.len() {
        if s[i] == '"' {
        } else if s[i] == '\\' {
            if i + 1 >= s.len() {
            } else if is_simple_escape(s[i + 1]) {
                lemma_scan_string_bounds(s, i + 2);
            } else if s[i + 1] == 'u' {
                lemma_hex_prefix_bound(s, i + 2, 4);
                lemma_scan_string_bounds(s, i + 2 + hex_prefix(s, i + 2, 4));
            } else {
                lemma_scan_string_bounds(s, i + 2);
            }
        } else {
            lemma_scan_string_bounds(s, i + 1);
        }
    }
}

/// The token whose text starts at `start` and is `len` characters long.
pub open spec fn spec_token(kind: SpecTokenKind, start: CodeLocation, len: int) -> SpecToken {
    SpecToken {
        kind,
        span: CodeSpan {
            start,
            end: CodeLocation { line: start.line, column: (start.column + len) as usize },
        },
    }
}

pub open spec fn spec_lex_error(
    kind: LexicalErrorKind,
    string: Seq<char>,
    location: CodeLocation,
) -> SpecLexicalError {
    SpecLexicalError { kind, string, location }
}

/// The result of reading one token at `i`, with the index at which reading
/// stopped; `None` when only whitespace is left.
///
/// After whitespace, the first character decides:
/// - a delimiter character is that delimiter;
/// - a letter or `_` starts a word of letters, digits and `_`, which is
///   `true`, `false` or `null`, or else an unquoted-string error;
/// - `-` or a digit starts a number (see [`scan_number`]);
/// - `"` starts a quoted string (see [`scan_string`]); its token keeps the
///   body as written and is as long as the body plus the two quotes;
/// - any other character is an unexpected-character error.
///
/// A token's span ends on the line where it starts, as many characters to the
/// right of its start as the token's text is long; an error carries the start of the text it was found in.
pub open spec fn lex_next(s: Seq<char>, i: int) -> Option<
    (Result<SpecToken, SpecLexicalError>, int),
> {
    let q = skip_ws(s, i);
    if q < 0 || q >= s.len() {
        None
    } else {
        let c = s[q];
        let start = location_at(s, q);
        Some(
            if delimiter_of(c) is Some {
                (
                    Ok(spec_token(SpecTokenKind::Delimiter(delimiter_of(c).unwrap()), start, 1)),
                    q + 1,
                )
            } else if is_alpha(c) || c == '_' {
                let e = run_end(s, q + 1, word_chars());
                let w = s.subrange(q, e);
                (
                    if w == true_text() {
                        Ok(spec_token(SpecTokenKind::Literal(SpecLiteral::Boolean(true)), start, 4))
                    } else if w == false_text() {
                        Ok(
                            spec_token(
                                SpecTokenKind::Literal(SpecLiteral::Boolean(false)),
                                start,
                                5,
                            ),
                        )
                    } else if w == null_text() {
                        Ok(spec_token(SpecTokenKind::Literal(SpecLiteral::Null), start, 4))
                    } else {
                        Err(spec_lex_error(LexicalErrorKind::UnquotedString, w, start))
                    },
                    e,
                )
            } else if c == '-' || is_digit(c) {
                let (e, err) = scan_number(s, q);
                let text = s.subrange(q, e);
                (
                    match err {
                        Some(kind) => Err(spec_lex_error(kind, text, start)),
                        None => Ok(
                            spec_token(
                                SpecTokenKind::Literal(SpecLiteral::Number(text)),
                                start,
                                text.len() as int,
                            ),
                        ),
                    },
                    e,
                )
            } else if c == '"' {
                let (end, terminated, err) = scan_string(s, q + 1);
                let body = s.subrange(q + 1, end);
                if !terminated {
                    (
                        Err(
                            spec_lex_error(
                                LexicalErrorKind::UnterminatedString,
                                seq!['"'] + body,
                                start,
                            ),
                        ),
                        end,
                    )
                } else {
                    (
                        match err {
                            Some(kind) => Err(
                                spec_lex_error(kind, seq!['"'] + body + seq!['"'], start),
                            ),
                            None => Ok(
                                spec_token(
                                    SpecTokenKind::Literal(SpecLiteral::String(body)),
                                    start,
                                    (body.len() + 2) as int,
                                ),
                            ),
                        },
                        end + 1,
                    )
                }
            } else {
                (Err(spec_lex_error(LexicalErrorKind::UnexpectedChar, seq![c], start)), q + 1)
            },
        )
    }
}

} // verus!

verus! {

/// Every token, and every error, takes at least one character.
pub proof fn lemma_lex_next_progress(s: Seq<char>, i: int)
    requires
        0 <= i <= s.len(),
    ensures
        lex_next(s, i) matches Some((_, p)) ==> i < p <= s.len(),
        lex_next(s, i) is None ==> skip_ws(s, i) == s.len(),
{
    lemma_skip_ws_bounds(s, i);
    let q = skip_ws(s, i);
    if q < s.len() {
        lemma_run_end_bounds(s, q + 1, word_chars());
        lemma_scan_number_bounds(s, q);
        lemma_scan_string_bounds(s, q + 1);
    }
}

/// All the results that the lexer gives from index `i` on, in order.
pub open spec fn lex_all(s: Seq<char>, i: int) -> Seq<Result<SpecToken, SpecLexicalError>>
    decreases s.len() - i,
{
    if 0 <= i <= s.len() {
        match lex_next(s, i) {
            None => Seq::empty(),
            Some((r, p)) => {
                proof {
                    lemma_lex_next_progress(s, i);
                }
                seq![r] + lex_all(s, p)
            },
        }
    } else {
        Seq::empty()
    }
}

} // verus!
