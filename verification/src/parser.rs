use vstd::prelude::*;

use crate::code_location::CodeLocation;
use crate::code_span::CodeSpan;
use crate::lexer::{lex_result_view, Lexer};
use crate::lexer_spec::{lemma_lex_next_progress, lex_all};
use crate::lexical_error::LexicalError;
use crate::parser_spec::{
    parse_array_rest, parse_member_at, parse_object_rest, parse_tokens, parse_value_at,
    result_end, result_start,
    SpecMember, SpecParseError, SpecTokenResult,
};
use crate::token::{Delimiter, Literal, SpecTokenKind, Token, TokenKind};
use crate::value::{SpecValue, Value, ValueKind};

verus! {

/// Represents a parse error by [`Parser`].
#[derive(Debug, PartialEq, Clone)]
pub enum ParseError {
    /// There was no token where a value was expected.
    NoToken,
    /// An invalid token (a lexical error), with its text and location.
    InvalidToken(String, CodeLocation),
    /// A delimiter where it may not stand.
    DelimiterInWrongPlace(Delimiter, CodeLocation),
    /// An array without its closing `]`: where it starts and where the tokens ran out.
    UnfinishedArray(CodeLocation, CodeLocation),
    /// An object without its closing `}`: where it starts and where the tokens ran out.
    UnfinishedObject(CodeLocation, CodeLocation),
    /// Two array items without a `,` between them.
    ArrayLacksSeparator(CodeLocation, CodeLocation),
    /// Two object members without a `,` between them.
    ObjectLacksSeparator(CodeLocation, CodeLocation),
    /// An object member name that is not a string.
    NameOfObjectMemberIsNotString(Literal, CodeLocation),
    /// An object member without `:` after its name.
    ObjectMemberLacksSeparator(CodeLocation, CodeLocation),
    /// An object member without a value after `:`.
    ObjectMemberLacksValue(CodeLocation, CodeLocation),
    /// A token after the end of the JSON value.
    ExtraTokenAtTheEnd(CodeLocation),
    /// A value nested deeper than the parser's maximum depth.
    NestingDepthExceeded(CodeLocation),
}

impl View for ParseError {
    type V = SpecParseError;

    open spec fn view(&self) -> SpecParseError {
        match self {
            ParseError::NoToken => SpecParseError::NoToken,
            ParseError::InvalidToken(s, l) => SpecParseError::InvalidToken(s@, *l),
            ParseError::DelimiterInWrongPlace(d, l) => SpecParseError::DelimiterInWrongPlace(*d, *l),
            ParseError::UnfinishedArray(a, b) => SpecParseError::UnfinishedArray(*a, *b),
            ParseError::UnfinishedObject(a, b) => SpecParseError::UnfinishedObject(*a, *b),
            ParseError::ArrayLacksSeparator(a, b) => SpecParseError::ArrayLacksSeparator(*a, *b),
            ParseError::ObjectLacksSeparator(a, b) => SpecParseError::ObjectLacksSeparator(*a, *b),
            ParseError::NameOfObjectMemberIsNotString(lit, l) => {
                SpecParseError::NameOfObjectMemberIsNotString(lit@, *l)
            },
            ParseError::ObjectMemberLacksSeparator(a, b) => {
                SpecParseError::ObjectMemberLacksSeparator(*a, *b)
            },
            ParseError::ObjectMemberLacksValue(a, b) => SpecParseError::ObjectMemberLacksValue(*a, *b),
            ParseError::ExtraTokenAtTheEnd(l) => SpecParseError::ExtraTokenAtTheEnd(*l),
            ParseError::NestingDepthExceeded(l) => SpecParseError::NestingDepthExceeded(*l),
        }
    }
}

/// The model of the result of [`Parser::parse`].
pub open spec fn parse_result_view(r: Result<Value, ParseError>) -> Result<SpecValue, SpecParseError> {
    match r {
        Ok(v) => Ok(v@),
        Err(e) => Err(e@),
    }
}

/// The nesting depth up to which a [`Parser`] reads values.
pub open spec fn default_max_depth() -> nat {
    512
}

/// Represents a JSON parser, reading the tokens of a [`Lexer`].
#[derive(Debug, Clone)]
pub struct Parser {
    lexer: Lexer,
    /// Results given before those of `lexer`, the next one last.
    pending: Vec<Result<Token, LexicalError>>,
    peeked: Option<Result<Token, LexicalError>>,
    max_depth: usize,
}

/// The models of a sequence of lexer results, in order.
pub open spec fn results_view(v: Seq<Result<Token, LexicalError>>) -> Seq<SpecTokenResult> {
    Seq::new(v.len(), |k: int| lex_result_view(v[k]))
}

impl Parser {
    /// The lexer results that the parser has not read yet.
    #[verifier::opaque]
    pub closed spec fn remaining(&self) -> Seq<SpecTokenResult> {
        let front = match self.peeked {
            Some(r) => seq![lex_result_view(r)],
            None => Seq::empty(),
        };
        front + results_view(self.pending@).reverse() + lex_all(
            self.lexer.input(),
            self.lexer.position() as int,
        )
    }

    /// The deepest nesting at which a value may stand: the root value is at
    /// depth 0, and each array or object puts its items one deeper.
    pub closed spec fn max_depth(&self) -> nat {
        self.max_depth as nat
    }

    pub closed spec fn wf(&self) -> bool {
        &&& self.lexer.wf()
        &&& self.max_depth < usize::MAX
    }

    /// Creates a new [`Parser`] reading the tokens of `lexer`.
    pub fn new(lexer: Lexer) -> (parser: Self)
        requires
            lexer.wf(),
        ensures
            parser.wf(),
            parser.remaining() == lex_all(lexer.input(), lexer.position() as int),
            parser.max_depth() == default_max_depth(),
    {
        let parser = Parser { lexer, pending: Vec::new(), peeked: None, max_depth: 512 };
        reveal(Parser::remaining);
        assert(parser.remaining() =~= lex_all(parser.lexer.input(), parser.lexer.position() as int));
        parser
    }

    /// Creates a new [`Parser`] reading the lexer results `results`, in order.
    pub fn from_results(results: Vec<Result<Token, LexicalError>>) -> (parser: Self)
        ensures
            parser.wf(),
            parser.remaining() == results_view(results@),
            parser.max_depth() == default_max_depth(),
    {
        let ghost all = results_view(results@);
        let mut results = results;
        let mut pending: Vec<Result<Token, LexicalError>> = Vec::new();
        while results.len() > 0
            invariant
                results_view(results@) + results_view(pending@).reverse() == all,
            decreases results.len(),
        {
            let ghost before = results@;
            let ghost pend = pending@;
            match results.pop() {
                Some(r) => {
                    pending.push(r);
                    assert(results_view(before) =~= results_view(results@) + seq![lex_result_view(r)]);
                    assert(results_view(pending@).reverse() =~= seq![lex_result_view(r)]
                        + results_view(pend).reverse());
                },
                None => {},
            }
        }
        let lexer = Lexer::new(Vec::new());
        let parser = Parser { lexer, pending, peeked: None, max_depth: 512 };
        reveal(Parser::remaining);
        assert(lex_all(parser.lexer.input(), 0) =~= Seq::empty());
        assert(results_view(results@) =~= Seq::empty());
        assert(parser.remaining() =~= all);
        parser
    }

    /// Makes sure that the next lexer result, if any, is in `peeked`.
    fn fill(&mut self)
        requires
            old(self).wf(),
        ensures
            final(self).wf(),
            final(self).max_depth == old(self).max_depth,
            final(self).remaining() == old(self).remaining(),
            final(self).peeked is Some <==> final(self).remaining().len() > 0,
            final(self).peeked matches Some(r) ==> lex_result_view(r) == final(self).remaining()[0],
    {
        reveal(Parser::remaining);
        if self.peeked.is_none() && self.pending.len() > 0 {
            let ghost pend = self.pending@;
            self.peeked = self.pending.pop();
            assert(results_view(pend).reverse() =~= seq![lex_result_view(pend.last())]
                + results_view(self.pending@).reverse());
            assert(self.remaining() =~= old(self).remaining());
        } else if self.peeked.is_none() {
            let ghost s = self.lexer.input();
            let ghost p = self.lexer.position() as int;
            proof {
                self.lexer.lemma_wf();
                lemma_lex_next_progress(s, p);
            }
            self.peeked = self.lexer.next();
            proof {
                self.lexer.lemma_wf();
            }
            assert(self.remaining() =~= old(self).remaining());
        }
    }

    /// Takes the next lexer result, if any.
    fn next_token(&mut self) -> (r: Option<Result<Token, LexicalError>>)
        requires
            old(self).wf(),
        ensures
            final(self).wf(),
            final(self).max_depth == old(self).max_depth,
            old(self).remaining().len() == 0 ==> r is None && final(self).remaining() == old(
                self,
            ).remaining(),
            old(self).remaining().len() > 0 ==> {
                &&& r matches Some(x) && lex_result_view(x) == old(self).remaining()[0]
                &&& final(self).remaining() == old(self).remaining().drop_first()
            },
    {
        self.fill();
        reveal(Parser::remaining);
        let r = self.peeked.take();
        assert(self.remaining() =~= old(self).remaining().drop_first() || r is None);
        r
    }

    /// Parses one value at nesting depth `depth`; the tokens not read yet are
    /// `t` from index `i` on.  Gives the value and the span of its last token.
    fn parse_value(
        &mut self,
        depth: usize,
        Ghost(t): Ghost<Seq<SpecTokenResult>>,
        Ghost(i): Ghost<int>,
    ) -> (r: Result<(Value, CodeSpan), ParseError>)
        requires
            old(self).wf(),
            0 <= i <= t.len(),
            old(self).remaining() == t.subrange(i, t.len() as int),
            depth <= old(self).max_depth + 1,
        ensures
            final(self).wf(),
            final(self).max_depth == old(self).max_depth,
            (match parse_value_at(t, i, depth as int, old(self).max_depth as int) {
                Ok((v, last, j)) => {
                    &&& r matches Ok((x, l)) && x@ == v && l == last
                    &&& final(self).remaining() == t.subrange(j, t.len() as int)
                    &&& i < j <= t.len()
                },
                Err((e, j)) => {
                    &&& r matches Err(x) && x@ == e
                    &&& final(self).remaining() == t.subrange(j, t.len() as int)
                    &&& i <= j <= t.len()
                },
            }),
        decreases t.len() - i, 0int,
    {
        let ghost before = self.remaining();
        match self.next_token() {
            None => Err(ParseError::NoToken),
            Some(Err(e)) => {
                assert(self.remaining() =~= t.subrange(i + 1, t.len() as int));
                Err(ParseError::InvalidToken(e.string, e.location))
            },
            Some(Ok(token)) => {
                assert(self.remaining() =~= t.subrange(i + 1, t.len() as int));
                assert(t[i] == before[0]);
                let span = token.span;
                match token.kind {
                    TokenKind::Delimiter(Delimiter::LeftBracket) => {
                        if depth > self.max_depth {
                            Err(ParseError::NestingDepthExceeded(span.start))
                        } else {
                            self.parse_rest_of_array(depth, span, Ghost(t), Ghost(i + 1))
                        }
                    },
                    TokenKind::Delimiter(Delimiter::LeftBrace) => {
                        if depth > self.max_depth {
                            Err(ParseError::NestingDepthExceeded(span.start))
                        } else {
                            self.parse_rest_of_object(depth, span, Ghost(t), Ghost(i + 1))
                        }
                    },
                    TokenKind::Delimiter(delim) => {
                        Err(ParseError::DelimiterInWrongPlace(delim, span.start))
                    },
                    TokenKind::Literal(lit) => {
                        if depth > self.max_depth {
                            Err(ParseError::NestingDepthExceeded(span.start))
                        } else {
                            Ok((Value::new(ValueKind::Literal(lit), span), span))
                        }
                    },
                }
            },
        }
    }

    /// Parses the rest of an array whose `[` spans `begin`.
    fn parse_rest_of_array(
        &mut self,
        depth: usize,
        begin: CodeSpan,
        Ghost(t): Ghost<Seq<SpecTokenResult>>,
        Ghost(i): Ghost<int>,
    ) -> (r: Result<(Value, CodeSpan), ParseError>)
        requires
            old(self).wf(),
            0 <= i <= t.len(),
            old(self).remaining() == t.subrange(i, t.len() as int),
            depth <= old(self).max_depth,
        ensures
            final(self).wf(),
            final(self).max_depth == old(self).max_depth,
            (match parse_array_rest(
                t,
                i,
                depth as int,
                old(self).max_depth as int,
                begin,
                Seq::empty(),
                begin,
            ) {
                Ok((v, last, j)) => {
                    &&& r matches Ok((x, l)) && x@ == v && l == last
                    &&& final(self).remaining() == t.subrange(j, t.len() as int)
                    &&& i < j <= t.len()
                },
                Err((e, j)) => {
                    &&& r matches Err(x) && x@ == e
                    &&& final(self).remaining() == t.subrange(j, t.len() as int)
                    &&& i <= j <= t.len()
                },
            }),
        decreases t.len() - i, 1int,
    {
        let ghost maxd = self.max_depth as int;
        let ghost whole = parse_array_rest(t, i, depth as int, maxd, begin, Seq::empty(), begin);
        let mut buf: Vec<Box<Value>> = Vec::new();
        let mut last = begin;
        let ghost mut k: int = i;
        let ghost mut items: Seq<SpecValue> = Seq::empty();
        loop
            invariant
                self.wf(),
                self.max_depth == old(self).max_depth,
                maxd == self.max_depth,
                depth <= self.max_depth,
                0 <= i <= k <= t.len(),
                self.remaining() == t.subrange(k, t.len() as int),
                whole == parse_array_rest(t, i, depth as int, maxd, begin, Seq::empty(), begin),
                whole == parse_array_rest(t, k, depth as int, maxd, begin, items, last),
                buf@.len() == items.len(),
                forall|j: int| 0 <= j < items.len() ==> (*buf@[j])@ == items[j],
            decreases t.len() - k,
        {
            self.fill();
            // 0: `]`, 1: `,`, 2: anything else
            let (category, next_start, next_end): (u8, CodeLocation, CodeLocation) = match &self.peeked {
                None => {
                    return Err(ParseError::UnfinishedArray(begin.start, last.end));
                },
                Some(Ok(token)) => {
                    match token.kind {
                        TokenKind::Delimiter(Delimiter::RightBracket) => (0, token.span.start, token.span.end),
                        TokenKind::Delimiter(Delimiter::Comma) => (1, token.span.start, token.span.end),
                        _ => (2, token.span.start, token.span.end),
                    }
                },
                Some(Err(e)) => (2, e.location, e.location),
            };
            proof {
                assert(self.remaining().len() == t.len() - k);
                assert(k < t.len());
                assert(self.remaining()[0] == t[k]);
                assert(next_start == result_start(t[k]));
                assert(next_end == result_end(t[k]));
                assert((category == 0) == (t[k] matches Ok(tok) && tok.kind == SpecTokenKind::Delimiter(
                    Delimiter::RightBracket,
                )));
                assert((category == 1) == (t[k] matches Ok(tok) && tok.kind == SpecTokenKind::Delimiter(
                    Delimiter::Comma,
                )));
            }
            if category == 0 {
                let end_token = self.next_token();
                let span = CodeSpan::new(next_start, next_end);
                let value = Value::new(ValueKind::Array(buf), CodeSpan::new(begin.start, next_end));
                proof {
                    assert(value@.kind->Array_0 =~= items);
                }
                return Ok((value, span));
            }
            let value_index: Ghost<int>;
            if category == 1 {
                if buf.len() == 0 {
                    return Err(ParseError::DelimiterInWrongPlace(Delimiter::Comma, next_start));
                }
                self.next_token();
                assert(self.remaining() =~= t.subrange(k + 1, t.len() as int));
                value_index = Ghost(k + 1);
            } else {
                if buf.len() > 0 {
                    return Err(ParseError::ArrayLacksSeparator(begin.start, last.end));
                }
                value_index = Ghost(k);
            }
            match self.parse_value(depth + 1, Ghost(t), value_index) {
                Err(ParseError::NoToken) => {
                    return Err(ParseError::UnfinishedArray(begin.start, next_end));
                },
                Err(e) => {
                    return Err(e);
                },
                Ok((item, item_last)) => {
                    proof {
                        items = items.push(item@);
                        k = match parse_value_at(t, value_index@, depth + 1, maxd) {
                            Ok((_, _, j)) => j,
                            Err(_) => k,
                        };
                    }
                    buf.push(Box::new(item));
                    last = item_last;
                },
            }
        }
    }

    /// Parses the rest of an object whose `{` spans `begin`.
    fn parse_rest_of_object(
        &mut self,
        depth: usize,
        begin: CodeSpan,
        Ghost(t): Ghost<Seq<SpecTokenResult>>,
        Ghost(i): Ghost<int>,
    ) -> (r: Result<(Value, CodeSpan), ParseError>)
        requires
            old(self).wf(),
            0 <= i <= t.len(),
            old(self).remaining() == t.subrange(i, t.len() as int),
            depth <= old(self).max_depth,
        ensures
            final(self).wf(),
            final(self).max_depth == old(self).max_depth,
            (match parse_object_rest(
                t,
                i,
                depth as int,
                old(self).max_depth as int,
                begin,
                Seq::empty(),
                begin,
            ) {
                Ok((v, last, j)) => {
                    &&& r matches Ok((x, l)) && x@ == v && l == last
                    &&& final(self).remaining() == t.subrange(j, t.len() as int)
                    &&& i < j <= t.len()
                },
                Err((e, j)) => {
                    &&& r matches Err(x) && x@ == e
                    &&& final(self).remaining() == t.subrange(j, t.len() as int)
                    &&& i <= j <= t.len()
                },
            }),
        decreases t.len() - i, 2int,
    {
        let ghost maxd = self.max_depth as int;
        let ghost whole = parse_object_rest(t, i, depth as int, maxd, begin, Seq::empty(), begin);
        let mut buf: Vec<((String, CodeSpan), Box<Value>)> = Vec::new();
        let mut last = begin;
        let ghost mut k: int = i;
        let ghost mut members: Seq<SpecMember> = Seq::empty();
        loop
            invariant
                self.wf(),
                self.max_depth == old(self).max_depth,
                maxd == self.max_depth,
                depth <= self.max_depth,
                0 <= i <= k <= t.len(),
                self.remaining() == t.subrange(k, t.len() as int),
                whole == parse_object_rest(t, i, depth as int, maxd, begin, Seq::empty(), begin),
                whole == parse_object_rest(t, k, depth as int, maxd, begin, members, last),
                buf@.len() == members.len(),
                forall|j: int|
                    0 <= j < members.len() ==> buf@[j].0.0@ == members[j].0.0 && buf@[j].0.1
                        == members[j].0.1 && (*buf@[j].1)@ == members[j].1,
            decreases t.len() - k,
        {
            self.fill();
            // 0: `}`, 1: `,`, 2: anything else
            let (category, next_start, next_end): (u8, CodeLocation, CodeLocation) = match &self.peeked {
                None => {
                    return Err(ParseError::UnfinishedObject(begin.start, last.end));
                },
                Some(Ok(token)) => {
                    match token.kind {
                        TokenKind::Delimiter(Delimiter::RightBrace) => (0, token.span.start, token.span.end),
                        TokenKind::Delimiter(Delimiter::Comma) => (1, token.span.start, token.span.end),
                        _ => (2, token.span.start, token.span.end),
                    }
                },
                Some(Err(e)) => (2, e.location, e.location),
            };
            proof {
                assert(self.remaining() == t.subrange(k, t.len() as int));
                assert(self.remaining().len() == t.len() - k);
                assert(k < t.len());
                assert(self.remaining()[0] == t[k]);
                assert(next_start == result_start(t[k]));
                assert(next_end == result_end(t[k]));
                assert((category == 0) == (t[k] matches Ok(tok) && tok.kind == SpecTokenKind::Delimiter(
                    Delimiter::RightBrace,
                )));
                assert((category == 1) == (t[k] matches Ok(tok) && tok.kind == SpecTokenKind::Delimiter(
                    Delimiter::Comma,
                )));
            }
            if category == 0 {
                let end_token = self.next_token();
                let span = CodeSpan::new(next_start, next_end);
                let value = Value::new(ValueKind::Object(buf), CodeSpan::new(begin.start, next_end));
                proof {
                    assert(value@.kind->Object_0 =~= members);
                }
                return Ok((value, span));
            }
            let member_index: Ghost<int>;
            if category == 1 {
                if buf.len() == 0 {
                    return Err(ParseError::DelimiterInWrongPlace(Delimiter::Comma, next_start));
                }
                self.next_token();
                assert(self.remaining() =~= t.subrange(k + 1, t.len() as int));
                member_index = Ghost(k + 1);
            } else {
                if buf.len() > 0 {
                    return Err(ParseError::ObjectLacksSeparator(begin.start, last.end));
                }
                member_index = Ghost(k);
            }
            match self.parse_pair_for_object(depth, begin, next_end, Ghost(t), member_index) {
                Err(e) => {
                    return Err(e);
                },
                Ok((name_pair, value, member_last)) => {
                    proof {
                        members = members.push(((name_pair.0@, name_pair.1), value@));
                        k = match parse_member_at(t, member_index@, depth as int, maxd, begin, next_end) {
                            Ok((_, _, j)) => j,
                            Err(_) => k,
                        };
                    }
                    buf.push((name_pair, Box::new(value)));
                    last = member_last;
                },
            }
        }
    }

    /// Parses a member `"name": value` of the object whose `{` spans `begin`;
    /// `after` is where the token before the member ends.
    fn parse_pair_for_object(
        &mut self,
        depth: usize,
        begin: CodeSpan,
        after: CodeLocation,
        Ghost(t): Ghost<Seq<SpecTokenResult>>,
        Ghost(i): Ghost<int>,
    ) -> (r: Result<((String, CodeSpan), Value, CodeSpan), ParseError>)
        requires
            old(self).wf(),
            0 <= i <= t.len(),
            old(self).remaining() == t.subrange(i, t.len() as int),
            depth <= old(self).max_depth,
        ensures
            final(self).wf(),
            final(self).max_depth == old(self).max_depth,
            (match parse_member_at(t, i, depth as int, old(self).max_depth as int, begin, after) {
                Ok((m, last, j)) => {
                    &&& r matches Ok((name_pair, v, l)) && name_pair.0@ == m.0.0 && name_pair.1
                        == m.0.1 && v@ == m.1 && l == last
                    &&& final(self).remaining() == t.subrange(j, t.len() as int)
                    &&& i < j <= t.len()
                },
                Err((e, j)) => {
                    &&& r matches Err(x) && x@ == e
                    &&& final(self).remaining() == t.subrange(j, t.len() as int)
                    &&& i <= j <= t.len()
                },
            }),
        decreases t.len() - i, 1int,
    {
        let token_for_name = match self.next_token() {
            None => {
                return Err(ParseError::UnfinishedObject(begin.start, after));
            },
            Some(r) => r,
        };
        assert(self.remaining() =~= t.subrange(i + 1, t.len() as int));
        let (name, name_span) = match token_for_name {
            Err(e) => {
                return Err(ParseError::InvalidToken(e.string, e.location));
            },
            Ok(token) => match token.kind {
                TokenKind::Literal(Literal::String(s)) => (s, token.span),
                TokenKind::Literal(lit) => {
                    return Err(ParseError::NameOfObjectMemberIsNotString(lit, token.span.start));
                },
                TokenKind::Delimiter(delim) => {
                    return Err(ParseError::DelimiterInWrongPlace(delim, token.span.start));
                },
            },
        };
        let token_for_colon = match self.next_token() {
            None => {
                return Err(ParseError::ObjectMemberLacksSeparator(begin.start, name_span.end));
            },
            Some(r) => r,
        };
        assert(self.remaining() =~= t.subrange(i + 2, t.len() as int));
        let colon_end = match token_for_colon {
            Err(e) => {
                return Err(ParseError::InvalidToken(e.string, e.location));
            },
            Ok(token) => match token.kind {
                TokenKind::Delimiter(Delimiter::Colon) => token.span.end,
                _ => {
                    return Err(ParseError::ObjectMemberLacksSeparator(begin.start, token.span.start));
                },
            },
        };
        match self.parse_value(depth + 1, Ghost(t), Ghost(i + 2)) {
            Err(ParseError::NoToken) => Err(ParseError::ObjectMemberLacksValue(begin.start, colon_end)),
            Err(e) => Err(e),
            Ok((value, last)) => Ok(((name, name_span), value, last)),
        }
    }

    /// Parses the whole text: one JSON value, after which no token may be left;
    /// see [`parse_tokens`].
    pub fn parse(&mut self) -> (r: Result<Value, ParseError>)
        requires
            old(self).wf(),
        ensures
            final(self).wf(),
            final(self).max_depth() == old(self).max_depth(),
            parse_result_view(r) == parse_tokens(old(self).remaining(), 0, old(self).max_depth() as int).0,
            final(self).remaining() == old(self).remaining().subrange(
                parse_tokens(old(self).remaining(), 0, old(self).max_depth() as int).1,
                old(self).remaining().len() as int,
            ),
    {
        let ghost t = self.remaining();
        assert(t.subrange(0, t.len() as int) =~= t);
        let value = match self.parse_value(0, Ghost(t), Ghost(0)) {
            Err(e) => {
                return Err(e);
            },
            Ok((value, _)) => value,
        };
        let ghost j = self.remaining();
        match self.next_token() {
            Some(Ok(token)) => Err(ParseError::ExtraTokenAtTheEnd(token.span.start)),
            Some(Err(e)) => Err(ParseError::ExtraTokenAtTheEnd(e.location)),
            None => Ok(value),
        }
    }
}

} // verus!
