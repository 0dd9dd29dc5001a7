use vstd::prelude::*;

use crate::code_span::CodeSpan;
use crate::text::push_str;

verus! {

/// Represents a JSON delimiter.
#[derive(Debug, PartialEq, Eq, Clone, Copy, Structural)]
pub enum Delimiter {
    /// `[`
    LeftBracket,
    /// `]`
    RightBracket,
    /// `{`
    LeftBrace,
    /// `}`
    RightBrace,
    /// `:`
    Colon,
    /// `,`
    Comma,
}

/// The character that a delimiter stands for.
pub open spec fn delimiter_char(d: Delimiter) -> char {
    match d {
        Delimiter::LeftBracket => '[',
        Delimiter::RightBracket => ']',
        Delimiter::LeftBrace => '{',
        Delimiter::RightBrace => '}',
        Delimiter::Colon => ':',
        Delimiter::Comma => ',',
    }
}

/// The delimiter that a character stands for, if any.
pub open spec fn delimiter_of(c: char) -> Option<Delimiter> {
    if c == '[' {
        Some(Delimiter::LeftBracket)
    } else if c == ']' {
        Some(Delimiter::RightBracket)
    } else if c == '{' {
        Some(Delimiter::LeftBrace)
    } else if c == '}' {
        Some(Delimiter::RightBrace)
    } else if c == ':' {
        Some(Delimiter::Colon)
    } else if c == ',' {
        Some(Delimiter::Comma)
    } else {
        None
    }
}

impl Delimiter {
    /// The character of the delimiter.
    pub fn to_char(&self) -> (c: char)
        ensures
            c == delimiter_char(*self),
    {
        match self {
            Delimiter::LeftBracket => '[',
            Delimiter::RightBracket => ']',
            Delimiter::LeftBrace => '{',
            Delimiter::RightBrace => '}',
            Delimiter::Colon => ':',
            Delimiter::Comma => ',',
        }
    }

    /// The delimiter that `c` stands for, if any.
    pub fn from_char(c: char) -> (d: Option<Delimiter>)
        ensures
            d == delimiter_of(c),
    {
        if c == '[' {
            Some(Delimiter::LeftBracket)
        } else if c == ']' {
            Some(Delimiter::RightBracket)
        } else if c == '{' {
            Some(Delimiter::LeftBrace)
        } else if c == '}' {
            Some(Delimiter::RightBrace)
        } else if c == ':' {
            Some(Delimiter::Colon)
        } else if c == ',' {
            Some(Delimiter::Comma)
        } else {
            None
        }
    }

    /// Formats the delimiter as its character.
    pub fn to_string(&self) -> (s: String)
        ensures
            s@ == seq![delimiter_char(*self)],
    {
        let mut s = String::new();
        s.push(self.to_char());
        s
    }
}

/// Represents a JSON literal.
#[derive(Debug, PartialEq)]
pub enum Literal {
    /// A JSON number literal, e.g. `0`, `123`, or `-1.2`, kept as its source text.
    Number(std::string::String),
    /// A JSON string literal without its surrounding quotes; escape sequences are kept as written.
    String(std::string::String),
    /// A JSON boolean literal: `true` or `false`.
    Boolean(bool),
    /// The JSON `null` literal.
    Null,
}

/// The mathematical model of a [`Literal`].
pub enum SpecLiteral {
    Number(Seq<char>),
    String(Seq<char>),
    Boolean(bool),
    Null,
}

impl View for Literal {
    type V = SpecLiteral;

    open spec fn view(&self) -> SpecLiteral {
        match self {
            Literal::Number(s) => SpecLiteral::Number(s@),
            Literal::String(s) => SpecLiteral::String(s@),
            Literal::Boolean(b) => SpecLiteral::Boolean(*b),
            Literal::Null => SpecLiteral::Null,
        }
    }
}

pub open spec fn true_text() -> Seq<char> {
    seq!['t', 'r', 'u', 'e']
}

pub open spec fn false_text() -> Seq<char> {
    seq!['f', 'a', 'l', 's', 'e']
}

pub open spec fn null_text() -> Seq<char> {
    seq!['n', 'u', 'l', 'l']
}

/// The JSON text of a literal: a number as written, a string between double
/// quotes, `true`, `false` or `null`.
pub open spec fn literal_text(lit: SpecLiteral) -> Seq<char> {
    match lit {
        SpecLiteral::Number(s) => s,
        SpecLiteral::String(s) => seq!['"'] + s + seq!['"'],
        SpecLiteral::Boolean(b) => if b { true_text() } else { false_text() },
        SpecLiteral::Null => null_text(),
    }
}

impl Clone for Literal {
    fn clone(&self) -> (c: Self)
        ensures
            c@ == self@,
    {
        match self {
            Literal::Number(s) => Literal::Number(s.clone()),
            Literal::String(s) => Literal::String(s.clone()),
            Literal::Boolean(b) => Literal::Boolean(*b),
            Literal::Null => Literal::Null,
        }
    }
}

impl Literal {
    /// Appends the text of the literal to `out`.
    pub fn write_to(&self, out: &mut String)
        ensures
            final(out)@ == old(out)@ + literal_text(self@),
    {
        match self {
            Literal::Number(s) => {
                push_str(out, s.as_str());
            },
            Literal::String(s) => {
                out.push('"');
                push_str(out, s.as_str());
                out.push('"');
            },
            Literal::Boolean(b) => {
                if *b {
                    out.push('t');
                    out.push('r');
                    out.push('u');
                    out.push('e');
                } else {
                    out.push('f');
                    out.push('a');
                    out.push('l');
                    out.push('s');
                    out.push('e');
                }
            },
            Literal::Null => {
                out.push('n');
                out.push('u');
                out.push('l');
                out.push('l');
            },
        }
        assert(final(out)@ =~= old(out)@ + literal_text(self@));
    }

    /// Formats the literal, see [`literal_text`].
    pub fn to_string(&self) -> (s: String)
        ensures
            s@ == literal_text(self@),
    {
        let mut s = String::new();
        self.write_to(&mut s);
        assert(s@ =~= literal_text(self@));
        s
    }
}

/// Represents a kind of JSON token.
#[derive(Debug, PartialEq, Clone)]
pub enum TokenKind {
    /// Delimiter
    Delimiter(Delimiter),
    /// Literal
    Literal(Literal),
}

/// The mathematical model of a [`TokenKind`].
pub enum SpecTokenKind {
    Delimiter(Delimiter),
    Literal(SpecLiteral),
}

impl View for TokenKind {
    type V = SpecTokenKind;

    open spec fn view(&self) -> SpecTokenKind {
        match self {
            TokenKind::Delimiter(d) => SpecTokenKind::Delimiter(*d),
            TokenKind::Literal(lit) => SpecTokenKind::Literal(lit@),
        }
    }
}

/// The JSON text of a token kind.
pub open spec fn token_kind_text(kind: SpecTokenKind) -> Seq<char> {
    match kind {
        SpecTokenKind::Delimiter(d) => seq![delimiter_char(d)],
        SpecTokenKind::Literal(lit) => literal_text(lit),
    }
}

impl TokenKind {
    /// Formats the token kind, see [`token_kind_text`].
    pub fn to_string(&self) -> (s: String)
        ensures
            s@ == token_kind_text(self@),
    {
        match self {
            TokenKind::Delimiter(d) => d.to_string(),
            TokenKind::Literal(lit) => lit.to_string(),
        }
    }
}

/// Represents a JSON token.
#[derive(Debug, PartialEq, Clone)]
pub struct Token {
    /// The kind of the token.
    pub kind: TokenKind,
    /// The span of the token in the JSON source text.
    pub span: CodeSpan,
}

/// The mathematical model of a [`Token`].
pub struct SpecToken {
    pub kind: SpecTokenKind,
    pub span: CodeSpan,
}

impl View for Token {
    type V = SpecToken;

    open spec fn view(&self) -> SpecToken {
        SpecToken { kind: self.kind@, span: self.span }
    }
}

impl Token {
    /// Creates a new [`Token`].
    pub fn new(kind: TokenKind, span: CodeSpan) -> (token: Self)
        ensures
            token.kind == kind,
            token.span == span,
    {
        Token { kind, span }
    }

    /// The kind of the token.
    pub fn kind(&self) -> (kind: &TokenKind)
        ensures
            kind == &self.kind,
    {
        &self.kind
    }

    /// The span of the token.
    pub fn span(&self) -> (span: &CodeSpan)
        ensures
            span == &self.span,
    {
        &self.span
    }

    /// Formats the token as the text of its kind.
    pub fn to_string(&self) -> (s: String)
        ensures
            s@ == token_kind_text(self.kind@),
    {
        self.kind.to_string()
    }
}

} // verus!
