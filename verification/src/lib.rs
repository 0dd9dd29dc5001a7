//! A toy JSON lexer and parser.
//!
//! - [`Lexer`] turns the characters of a JSON text into [`Token`]s, or
//!   [`LexicalError`]s where the text is not valid.
//! - [`Parser`] reads those tokens and builds a tree of [`Value`]s.
//! - Tokens, values and errors carry their locations (line and column) in the
//!   source text.
use vstd::prelude::*;

pub mod text;
pub mod code_location;
pub mod code_span;
pub mod codepos;
pub mod located_iterator;
pub mod char_reader;
pub mod token;
pub mod lexical_error;
pub mod lexer_spec;
pub mod lexer;
pub mod value;
pub mod value_display;
pub mod parser_spec;
pub mod parser;
pub mod parse_error;
pub mod parser_error;

pub use char_reader::CharReader;
pub use code_location::CodeLocation;
pub use code_span::CodeSpan;
pub use codepos::CodePos;
pub use lexer::Lexer;
pub use lexical_error::{LexicalError, LexicalErrorKind};
pub use located_iterator::LocatedIterator;
pub use parser::{ParseError, Parser};
pub use parser_error::ParserError;
pub use token::{Delimiter, Literal, Token, TokenKind};
pub use value::{Value, ValueKind};
pub use value_display::ValueDisplay;
pub mod lexer_laws;
pub mod relex_laws;
pub mod reparse_laws;
pub mod print_lex_laws;
pub mod roundtrip_laws;
pub mod line_laws;
pub mod parser_laws;
