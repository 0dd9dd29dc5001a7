use vstd::prelude::*;

use crate::code_location::CodeLocation;
use crate::code_span::CodeSpan;
use crate::lexer_spec::{
    digits, hex_prefix, lemma_hex_prefix_bound, lemma_run_end_bounds, later_error, lex_next,
    lemma_scan_number_bounds, lemma_scan_string_bounds, lemma_skip_ws_bounds, run_end, scan_number, scan_string, skip_ws, spec_lex_error, spec_token,
    word_chars,
};
use crate::lexical_error::{LexicalError, LexicalErrorKind, SpecLexicalError};
use crate::located_iterator::{lemma_line_col_bound, location_at, max_input_len, LocatedIterator};
use crate::text::{
    alpha, digit, forbidden_control, hex, is_alpha, is_digit, push_str, word_char, ws,
};
use crate::token::{
    delimiter_of, false_text, null_text, true_text, Delimiter, Literal, SpecLiteral, SpecToken,
    SpecTokenKind, Token, TokenKind,
};

verus! {

/// The model of one result of the lexer.
pub open spec fn lex_result_view(r: Result<Token, LexicalError>) -> Result<
    SpecToken,
    SpecLexicalError,
> {
    match r {
        Ok(t) => Ok(t@),
        Err(e) => Err(e@),
    }
}

/// The model of a token read from `start`, given its kind and length, or of
/// an error found there, given its kind and text.
pub open spec fn assemble(
    r: Result<(TokenKind, usize), (LexicalErrorKind, String)>,
    start: CodeLocation,
) -> Result<SpecToken, SpecLexicalError> {
    match r {
        Ok((kind, len)) => Ok(spec_token(kind@, start, len as int)),
        Err((k, text)) => Err(spec_lex_error(k, text@, start)),
    }
}

/// The states of the leading-zero detection while reading the integer digits of a number.
#[derive(PartialEq, Eq, Structural)]
enum DigitsState {
    Initial,
    FirstCharIsZero,
    LeadingZeroDetected,
    LeadingZeroNotDetected,
}

/// Represents a JSON lexer.
///
/// [`Lexer`] is created with [`Lexer::new`] from the characters of a JSON
/// text, and [`Lexer::next`] hands out its tokens one after the other:
///
/// - `Some(Ok(Token))`: a [`Token`] was read.
/// - `Some(Err(LexicalError))`: a [`LexicalError`] was found; reading may go on.
/// - `None`: only whitespace, or nothing, is left.
#[derive(Debug, Clone)]
pub struct Lexer {
    chars: LocatedIterator,
}

impl Lexer {
    /// The whole text.
    pub closed spec fn input(&self) -> Seq<char> {
        self.chars.input()
    }

    /// The number of characters already read.
    pub closed spec fn position(&self) -> nat {
        self.chars.position()
    }

    pub closed spec fn wf(&self) -> bool {
        &&& self.chars.wf()
        &&& self.chars.position() <= self.chars.input().len()
        &&& self.chars.input().len() <= max_input_len()
    }

    /// A well-formed lexer has not gone past the end of its text.
    pub proof fn lemma_wf(&self)
        requires
            self.wf(),
        ensures
            self.position() <= self.input().len(),
            self.input().len() <= max_input_len(),
    {
    }

    /// Takes the next character, keeping the lexer well formed.
    fn take(&mut self) -> (item: Option<(CodeLocation, char)>)
        requires
            old(self).wf(),
        ensures
            final(self).wf(),
            final(self).input() == old(self).input(),
            old(self).position() < old(self).input().len() ==> {
                &&& item == Some(
                    (
                        location_at(old(self).input(), old(self).position() as int),
                        old(self).input()[old(self).position() as int],
                    ),
                )
                &&& final(self).position() == old(self).position() + 1
            },
            old(self).position() >= old(self).input().len() ==> {
                &&& item is None
                &&& final(self).position() == old(self).position()
            },
    {
        let item = self.chars.next();
        proof {
            self.chars.lemma_wf();
        }
        item
    }

    /// The next character, without taking it.
    fn peek(&self) -> (c: Option<char>)
        requires
            self.wf(),
        ensures
            self.position() < self.input().len() ==> c == Some(self.input()[self.position() as int]),
            self.position() >= self.input().len() ==> c is None,
    {
        self.chars.peek()
    }

    /// Creates a new [`Lexer`] over the characters of a JSON text.
    pub fn new(chars: Vec<char>) -> (lexer: Self)
        requires
            chars@.len() <= max_input_len(),
        ensures
            lexer.wf(),
            lexer.input() == chars@,
            lexer.position() == 0,
    {
        let it = LocatedIterator::new(chars);
        proof {
            it.lemma_wf();
        }
        Lexer { chars: it }
    }

    /// Reads and drops whitespace, then takes the first other character.
    fn skip_whitespace(&mut self) -> (r: Option<(CodeLocation, char)>)
        requires
            old(self).wf(),
        ensures
            final(self).wf(),
            final(self).input() == old(self).input(),
            ({
                let s = old(self).input();
                let q = skip_ws(s, old(self).position() as int);
                if q < s.len() {
                    &&& r == Some((location_at(s, q), s[q]))
                    &&& final(self).position() == q + 1
                } else {
                    &&& r is None
                    &&& final(self).position() == s.len()
                }
            }),
    {
        let ghost s = self.input();
        let ghost start = self.position() as int;
        loop
            invariant
                self.wf(),
                s == old(self).input(),
                start == old(self).position(),
                self.input() == s,
                self.position() <= s.len(),
                skip_ws(s, start) == skip_ws(s, self.position() as int),
            decreases s.len() - self.position(),
        {
            match self.take() {
                None => {
                    return None;
                },
                Some((loc, ch)) => {
                    if !ws(ch) {
                        return Some((loc, ch));
                    }
                },
            }
        }
    }

    /// Reads the rest of a word whose first character `first` was just read.
    fn read_unquoted_string(&mut self, first: char) -> (buf: String)
        requires
            old(self).wf(),
            1 <= old(self).position() <= old(self).input().len(),
            old(self).input()[old(self).position() - 1] == first,
        ensures
            final(self).wf(),
            final(self).input() == old(self).input(),
            final(self).position() == run_end(
                old(self).input(),
                old(self).position() as int,
                word_chars(),
            ),
            buf@ == old(self).input().subrange(
                old(self).position() - 1,
                final(self).position() as int,
            ),
    {
        let ghost s = self.input();
        let ghost start = self.position() as int;
        let mut buf = String::new();
        buf.push(first);
        loop
            invariant
                self.wf(),
                s == old(self).input(),
                start == old(self).position(),
                self.input() == s,
                start <= self.position() <= s.len(),
                1 <= start,
                run_end(s, start, word_chars()) == run_end(s, self.position() as int, word_chars()),
                buf@ == s.subrange(start - 1, self.position() as int),
            decreases s.len() - self.position(),
        {
            match self.peek() {
                Some(ch) => {
                    if word_char(ch) {
                        self.take();
                        buf.push(ch);
                        assert(buf@ =~= s.subrange(start - 1, self.position() as int));
                    } else {
                        return buf;
                    }
                },
                None => {
                    return buf;
                },
            }
        }
    }

    /// Reads digits onto `buf`; gives their number and whether they start with
    /// `0` followed by another digit.
    fn read_digits(&mut self, buf: &mut String) -> (r: (usize, bool))
        requires
            old(self).wf(),
        ensures
            final(self).wf(),
            final(self).input() == old(self).input(),
            final(self).position() == run_end(
                old(self).input(),
                old(self).position() as int,
                digits(),
            ),
            final(buf)@ == old(buf)@ + old(self).input().subrange(
                old(self).position() as int,
                final(self).position() as int,
            ),
            r.0 == final(self).position() - old(self).position(),
            r.1 == (r.0 >= 2 && old(self).input()[old(self).position() as int] == '0'),
    {
        let ghost s = self.input();
        let ghost start = self.position() as int;
        let ghost buf0 = buf@;
        let mut len: usize = 0;
        let mut state = DigitsState::Initial;
        loop
            invariant
                self.wf(),
                s == old(self).input(),
                start == old(self).position(),
                self.input() == s,
                start <= self.position() <= s.len(),
                len == self.position() - start,
                run_end(s, start, digits()) == run_end(s, self.position() as int, digits()),
                buf@ == buf0 + s.subrange(start, self.position() as int),
                len == 0 ==> state == DigitsState::Initial,
                len == 1 && s[start] == '0' ==> state == DigitsState::FirstCharIsZero,
                len >= 2 && s[start] == '0' ==> state == DigitsState::LeadingZeroDetected,
                len >= 1 && s[start] != '0' ==> state == DigitsState::LeadingZeroNotDetected,
            ensures
                self.position() == run_end(s, start, digits()),
            decreases s.len() - self.position(),
        {
            match self.peek() {
                Some(ch) => {
                    if digit(ch) {
                        self.take();
                        buf.push(ch);
                        assert(buf@ =~= buf0 + s.subrange(start, self.position() as int));
                        state =
                            match state {
                                DigitsState::Initial => {
                                    if ch == '0' {
                                        DigitsState::FirstCharIsZero
                                    } else {
                                        DigitsState::LeadingZeroNotDetected
                                    }
                                },
                                DigitsState::FirstCharIsZero => DigitsState::LeadingZeroDetected,
                                other => other,
                            };
                        len = len + 1;
                    } else {
                        break ;
                    }
                },
                None => {
                    break ;
                },
            }
        }
        (len, state == DigitsState::LeadingZeroDetected)
    }

    /// The number of characters already read.
    fn offset(&self) -> (n: usize)
        requires
            self.wf(),
        ensures
            n == self.position(),
    {
        self.chars.offset()
    }

    /// Reads a word that should be the keyword `expected_str`, standing for `expected_literal`.
    fn read_unquoted_string_known(
        &mut self,
        expected_literal: Literal,
        expected_str: &str,
        firstchar: char,
    ) -> (r: Result<(TokenKind, usize), (LexicalErrorKind, String)>)
        requires
            old(self).wf(),
            1 <= old(self).position() <= old(self).input().len(),
            old(self).input()[old(self).position() - 1] == firstchar,
            expected_str@.len() <= 5,
        ensures
            final(self).wf(),
            final(self).input() == old(self).input(),
            final(self).position() == run_end(
                old(self).input(),
                old(self).position() as int,
                word_chars(),
            ),
            ({
                let w = old(self).input().subrange(
                    old(self).position() - 1,
                    final(self).position() as int,
                );
                &&& w == expected_str@ ==> r == Ok::<(TokenKind, usize), (LexicalErrorKind, String)>(
                    (TokenKind::Literal(expected_literal), expected_str@.len() as usize),
                )
                &&& w != expected_str@ ==> (r matches Err((k, b)) && k
                    == LexicalErrorKind::UnquotedString && b@ == w)
            }),
    {
        let s = self.read_unquoted_string(firstchar);
        let expected = String::from_str(expected_str);
        if s == expected {
            Ok((TokenKind::Literal(expected_literal), expected_str.unicode_len()))
        } else {
            Err((LexicalErrorKind::UnquotedString, s))
        }
    }

    /// Reads a word that is no keyword: always an unquoted-string error.
    fn read_unquoted_string_unknown(&mut self, firstchar: char) -> (r: (LexicalErrorKind, String))
        requires
            old(self).wf(),
            1 <= old(self).position() <= old(self).input().len(),
            old(self).input()[old(self).position() - 1] == firstchar,
        ensures
            final(self).wf(),
            final(self).input() == old(self).input(),
            final(self).position() == run_end(
                old(self).input(),
                old(self).position() as int,
                word_chars(),
            ),
            r.0 == LexicalErrorKind::UnquotedString,
            r.1@ == old(self).input().subrange(
                old(self).position() - 1,
                final(self).position() as int,
            ),
    {
        let s = self.read_unquoted_string(firstchar);
        (LexicalErrorKind::UnquotedString, s)
    }

    /// Reads an optional fraction `.` digits onto `buf`; tells whether the
    /// fraction is there without digits.
    fn read_fraction(&mut self, buf: &mut String) -> (missing: bool)
        requires
            old(self).wf(),
        ensures
            final(self).wf(),
            final(self).input() == old(self).input(),
            ({
                let s = old(self).input();
                let i1 = old(self).position() as int;
                let has_frac = i1 < s.len() && s[i1] == '.';
                let i2 = if has_frac { run_end(s, i1 + 1, digits()) } else { i1 };
                &&& final(self).position() == i2
                &&& missing == (has_frac && i2 == i1 + 1)
                &&& final(buf)@ == old(buf)@ + s.subrange(i1, i2)
            }),
    {
        let ghost s = self.input();
        let ghost i1 = self.position() as int;
        let ghost buf0 = buf@;
        if let Some(ch) = self.peek() {
            if ch == '.' {
                self.take();
                buf.push(ch);
                let ghost buf1 = buf@;
                let (len, _) = self.read_digits(buf);
                assert(buf@ =~= buf0 + s.subrange(i1, self.position() as int));
                return len == 0;
            }
        }
        assert(buf@ =~= buf0 + s.subrange(i1, self.position() as int));
        false
    }

    /// Reads an optional exponent `e`/`E`, optional `+`/`-`, digits onto
    /// `buf`; tells whether the exponent is there without digits.
    fn read_exponent(&mut self, buf: &mut String) -> (missing: bool)
        requires
            old(self).wf(),
        ensures
            final(self).wf(),
            final(self).input() == old(self).input(),
            ({
                let s = old(self).input();
                let i2 = old(self).position() as int;
                let has_exp = i2 < s.len() && (s[i2] == 'e' || s[i2] == 'E');
                let has_sign = has_exp && i2 + 1 < s.len() && (s[i2 + 1] == '+' || s[i2 + 1]
                    == '-');
                let i3 = if has_sign { i2 + 2 } else if has_exp { i2 + 1 } else { i2 };
                let i4 = if has_exp { run_end(s, i3, digits()) } else { i2 };
                &&& final(self).position() == i4
                &&& missing == (has_exp && i4 == i3)
                &&& final(buf)@ == old(buf)@ + s.subrange(i2, i4)
            }),
    {
        let ghost s = self.input();
        let ghost i2 = self.position() as int;
        let ghost buf0 = buf@;
        if let Some(ch) = self.peek() {
            if ch == 'e' || ch == 'E' {
                self.take();
                buf.push(ch);
                if let Some(ch) = self.peek() {
                    if ch == '+' || ch == '-' {
                        self.take();
                        buf.push(ch);
                    }
                }
                let (len, _) = self.read_digits(buf);
                assert(buf@ =~= buf0 + s.subrange(i2, self.position() as int));
                return len == 0;
            }
        }
        assert(buf@ =~= buf0 + s.subrange(i2, self.position() as int));
        false
    }

    /// Reads the rest of a number whose first character `firstchar` was just read.
    fn read_number(&mut self, firstchar: char) -> (r: Result<
        (TokenKind, usize),
        (LexicalErrorKind, String),
    >)
        requires
            old(self).wf(),
            1 <= old(self).position() <= old(self).input().len(),
            old(self).input()[old(self).position() - 1] == firstchar,
            firstchar == '-' || is_digit(firstchar),
        ensures
            final(self).wf(),
            final(self).input() == old(self).input(),
            ({
                let s = old(self).input();
                let q = old(self).position() - 1;
                let (e, err) = scan_number(s, q);
                let text = s.subrange(q, e);
                &&& final(self).position() == e
                &&& match r {
                    Ok((kind, len)) => {
                        &&& err is None
                        &&& kind@ == SpecTokenKind::Literal(SpecLiteral::Number(text))
                        &&& len == text.len()
                    },
                    Err((k, b)) => err == Some(k) && b@ == text,
                }
            }),
    {
        let ghost s = self.input();
        let ghost q = self.position() - 1;
        let start = self.offset() - 1;
        let mut buf = String::new();
        buf.push(firstchar);
        assert(buf@ =~= s.subrange(q, q + 1));
        let mut error: Option<LexicalErrorKind> = None;
        let (len, leading_zero_detected) = self.read_digits(&mut buf);
        if firstchar == '-' && len == 0 {
            error = Some(LexicalErrorKind::NumberMissingIntegerDigits);
        } else if (firstchar == '0' && len > 0) || (firstchar == '-' && leading_zero_detected) {
            error = Some(LexicalErrorKind::NumberContainsLeadingZero);
        }
        assert(buf@ =~= s.subrange(q, self.position() as int));
        let ghost i1 = self.position() as int;
        let ghost b1 = buf@;
        proof {
            lemma_run_end_bounds(s, q + 1, digits());
        }
        let frac_missing = self.read_fraction(&mut buf);
        let ghost i2 = self.position() as int;
        proof {
            if i1 < s.len() && s[i1] == '.' {
                lemma_run_end_bounds(s, i1 + 1, digits());
            }
            assert(buf@ =~= s.subrange(q, i2));
        }
        if frac_missing {
            error = Some(LexicalErrorKind::NumberMissingFractionDigits);
        }
        let exp_missing = self.read_exponent(&mut buf);
        proof {
            if i2 < s.len() && (s[i2] == 'e' || s[i2] == 'E') {
                if i2 + 1 < s.len() && (s[i2 + 1] == '+' || s[i2 + 1] == '-') {
                    lemma_run_end_bounds(s, i2 + 2, digits());
                } else {
                    lemma_run_end_bounds(s, i2 + 1, digits());
                }
            }
        }
        if exp_missing {
            error = Some(LexicalErrorKind::NumberMissingExponentDigits);
        }
        assert(buf@ =~= s.subrange(q, self.position() as int));
        match error {
            Some(kind) => Err((kind, buf)),
            None => {
                let len = self.offset() - start;
                Ok((TokenKind::Literal(Literal::Number(buf)), len))
            },
        }
    }

    /// Reads up to four hexadecimal digits after `\u` onto `buf`; tells whether
    /// fewer than four were found.
    fn read_unicode_escape_digits(&mut self, buf: &mut String) -> (short: bool)
        requires
            old(self).wf(),
        ensures
            final(self).wf(),
            final(self).input() == old(self).input(),
            ({
                let s = old(self).input();
                let i = old(self).position() as int;
                let k = hex_prefix(s, i, 4);
                &&& final(self).position() == i + k
                &&& short == (k < 4)
                &&& final(buf)@ == old(buf)@ + s.subrange(i, i + k)
            }),
    {
        let ghost s = self.input();
        let ghost i = self.position() as int;
        let ghost buf0 = buf@;
        let mut k: usize = 0;
        while k < 4
            invariant
                s == old(self).input(),
                i == old(self).position(),
                buf0 == old(buf)@,
                self.wf(),
                self.input() == s,
                k <= 4,
                self.position() == i + k,
                hex_prefix(s, i, 4) == k + hex_prefix(s, i + k, (4 - k) as nat),
                buf@ == buf0 + s.subrange(i, i + k),
            decreases 4 - k,
        {
            match self.peek() {
                Some(ch) => {
                    if hex(ch) {
                        self.take();
                        buf.push(ch);
                        k = k + 1;
                        assert(buf@ =~= buf0 + s.subrange(i, i + k));
                    } else {
                        return true;
                    }
                },
                None => {
                    return true;
                },
            }
        }
        false
    }

    /// Reads the rest of a quoted string whose opening `"` was just read.
    fn read_quoted_string(&mut self) -> (r: Result<(TokenKind, usize), (LexicalErrorKind, String)>)
        requires
            old(self).wf(),
            1 <= old(self).position() <= old(self).input().len(),
            old(self).input()[old(self).position() - 1] == '"',
        ensures
            final(self).wf(),
            final(self).input() == old(self).input(),
            ({
                let s = old(self).input();
                let i = old(self).position() as int;
                let (end, terminated, err) = scan_string(s, i);
                let body = s.subrange(i, end);
                &&& final(self).position() == (if terminated { end + 1 } else { end })
                &&& !terminated ==> (r matches Err((k, b)) && k == LexicalErrorKind::UnterminatedString
                    && b@ == seq!['"'] + body)
                &&& terminated && err is Some ==> (r matches Err((k, b)) && err == Some(k) && b@
                    == seq!['"'] + body + seq!['"'])
                &&& terminated && err is None ==> (r matches Ok((kind, n)) && kind@
                    == SpecTokenKind::Literal(SpecLiteral::String(body)) && n == body.len() + 2)
            }),
    {
        let ghost s = self.input();
        let ghost i0 = self.position() as int;
        let mut buf = String::new();
        let mut error: Option<LexicalErrorKind> = None;
        let mut terminated = false;
        let start = self.offset();
        loop
            invariant_except_break
                !terminated,
                s == old(self).input(),
                i0 == old(self).position(),
                1 <= i0,
                start == i0,
                self.wf(),
                self.input() == s,
                i0 <= self.position() <= s.len(),
                buf@ == s.subrange(i0, self.position() as int),
                ({
                    let whole = scan_string(s, i0);
                    let rest = scan_string(s, self.position() as int);
                    whole == (rest.0, rest.1, later_error(error, rest.2))
                }),
            ensures
                start == i0,
                self.wf(),
                self.input() == s,
                buf@.len() <= s.len(),
                scan_string(s, i0).1 == terminated,
                terminated ==> scan_string(s, i0).0 + 1 == self.position(),
                terminated ==> scan_string(s, i0).2 == error,
                !terminated ==> scan_string(s, i0).0 == self.position(),
                0 <= i0 <= scan_string(s, i0).0 <= s.len(),
                buf@ == s.subrange(i0, scan_string(s, i0).0),
            decreases s.len() - self.position(),
        {
            let ghost p = self.position() as int;
            match self.take() {
                None => {
                    break ;
                },
                Some((_, ch)) => {
                    if ch == '"' {
                        terminated = true;
                        break ;
                    } else if ch == '\\' {
                        buf.push(ch);
                        match self.take() {
                            None => {
                                assert(buf@ =~= s.subrange(i0, self.position() as int));
                                break ;
                            },
                            Some((_, ch)) => {
                                buf.push(ch);
                                assert(buf@ =~= s.subrange(i0, self.position() as int));
                                if ch == '"' || ch == '\\' || ch == '/' || ch == 'b' || ch == 'f'
                                    || ch == 'n' || ch == 'r' || ch == 't' {
                                } else if ch == 'u' {
                                    proof {
                                        lemma_hex_prefix_bound(s, p + 2, 4);
                                    }
                                    let short = self.read_unicode_escape_digits(&mut buf);
                                    assert(buf@ =~= s.subrange(i0, self.position() as int));
                                    if short {
                                        error = Some(LexicalErrorKind::StringContainsInvalidUnicodeEscape);
                                    }
                                } else {
                                    error = Some(LexicalErrorKind::StringContainsInvalidEscapeSequence);
                                }
                            },
                        }
                    } else if forbidden_control(ch) {
                        buf.push(ch);
                        assert(buf@ =~= s.subrange(i0, self.position() as int));
                        error = Some(LexicalErrorKind::StringContainsUnescapedControlChar);
                    } else {
                        buf.push(ch);
                        assert(buf@ =~= s.subrange(i0, self.position() as int));
                    }
                },
            }
        }
        if !terminated {
            let mut text = String::new();
            text.push('"');
            push_str(&mut text, buf.as_str());
            Err((LexicalErrorKind::UnterminatedString, text))
        } else {
            match error {
                Some(kind) => {
                    let mut text = String::new();
                    text.push('"');
                    push_str(&mut text, buf.as_str());
                    text.push('"');
                    Err((kind, text))
                },
                None => Ok((TokenKind::Literal(Literal::String(buf)), self.offset() - start + 1)),
            }
        }
    }

    /// Advances the lexer and returns the next result: a token, a lexical
    /// error, or `None` when only whitespace is left; see [`lex_next`].
    pub fn next(&mut self) -> (r: Option<Result<Token, LexicalError>>)
        requires
            old(self).wf(),
        ensures
            final(self).wf(),
            final(self).input() == old(self).input(),
            (match lex_next(old(self).input(), old(self).position() as int) {
                None => r is None && final(self).position() == old(self).input().len(),
                Some((res, p)) => {
                    &&& r matches Some(x) && lex_result_view(x) == res
                    &&& final(self).position() == p
                },
            }),
    {
        let ghost s = self.input();
        let ghost i = self.position() as int;
        let ghost q = skip_ws(s, i);
        proof {
            lemma_skip_ws_bounds(s, i);
        }
        let (loc_start, firstchar) = match self.skip_whitespace() {
            None => {
                return None;
            },
            Some(item) => item,
        };
        proof {
            lemma_line_col_bound(s, q);
            reveal_strlit("true");
            reveal_strlit("false");
            reveal_strlit("null");
            assert("true"@ =~= true_text());
            assert("false"@ =~= false_text());
            assert("null"@ =~= null_text());
        }
        let ghost expected = lex_next(s, i).unwrap();
        let result: Result<(TokenKind, usize), (LexicalErrorKind, String)> = match Delimiter::from_char(
            firstchar,
        ) {
            Some(delim) => Ok((TokenKind::Delimiter(delim), 1)),
            None => {
                if firstchar == 't' {
                    self.read_unquoted_string_known(Literal::Boolean(true), "true", firstchar)
                } else if firstchar == 'f' {
                    self.read_unquoted_string_known(Literal::Boolean(false), "false", firstchar)
                } else if firstchar == 'n' {
                    self.read_unquoted_string_known(Literal::Null, "null", firstchar)
                } else if firstchar == '"' {
                    self.read_quoted_string()
                } else if firstchar == '-' || digit(firstchar) {
                    self.read_number(firstchar)
                } else if alpha(firstchar) || firstchar == '_' {
                    Err(self.read_unquoted_string_unknown(firstchar))
                } else {
                    let mut text = String::new();
                    text.push(firstchar);
                    Err((LexicalErrorKind::UnexpectedChar, text))
                }
            },
        };
        proof {
            lemma_run_end_bounds(s, q + 1, word_chars());
            lemma_scan_number_bounds(s, q);
            lemma_scan_string_bounds(s, q + 1);
            let e = run_end(s, q + 1, word_chars());
            let w = s.subrange(q, e);
            assert(w[0] == firstchar);
            if delimiter_of(firstchar) is Some {
                assert(assemble(result, loc_start) == expected.0);
            } else if firstchar == 't' || firstchar == 'f' || firstchar == 'n' {
                assert(w != true_text() || firstchar == 't');
                assert(w != false_text() || firstchar == 'f');
                assert(w != null_text() || firstchar == 'n');
                assert(assemble(result, loc_start) == expected.0);
            } else if firstchar == '"' {
                assert(assemble(result, loc_start) == expected.0);
            } else if firstchar == '-' || is_digit(firstchar) {
                assert(assemble(result, loc_start) == expected.0);
            } else if is_alpha(firstchar) || firstchar == '_' {
                assert(w != true_text() && w != false_text() && w != null_text());
                assert(assemble(result, loc_start) == expected.0);
            } else {
                assert(assemble(result, loc_start) == expected.0);
            }
            assert(self.position() == expected.1);
            assert((result matches Ok((_, len)) ==> len <= 4 * s.len() + 2));
        }
        match result {
            Ok((kind, len)) => {
                let loc_end = CodeLocation::new(loc_start.line, loc_start.column + len);
                Some(Ok(Token::new(kind, CodeSpan::new(loc_start, loc_end))))
            },
            Err((kind, text)) => Some(Err(LexicalError::new(kind, text, loc_start))),
        }
    }
}

} // verus!
