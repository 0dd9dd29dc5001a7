# toy_json_parser

A JSON lexer and parser whose behaviour is specified and proved with Verus.

- `src/` is the verified library.
  - `lexer_spec.rs` states what one step of the lexer produces (`lex_next`) and
    what all of its results are (`lex_all`); `lexer.rs` is the lexer, proved to
    produce exactly that.
  - `parser_spec.rs` states what the parser produces from the lexer's results
    (`parse_tokens`); `parser.rs` is the parser, proved against it.
  - `value_display.rs` states how values print (`render`), prints them, and
    proves that printing reads no span.
  - `lexer_laws.rs` and `parser_laws.rs` prove properties that hold for every
    input: tokens print back as their source text, number and string tokens
    are exactly the well-formed JSON numbers and strings, a successful parse
    reads every token and stays within the nesting limit, an empty input is
    the only one without tokens.
  - `relex_laws.rs` proves that lexing the text of a token gives back one
    token of the same kind.
  - `print_lex_laws.rs` proves that lexing the printed text of a value gives
    exactly that value's tokens, `reparse_laws.rs` that the parser reads such
    tokens back into a value alike the printed one, and `roundtrip_laws.rs`
    puts the two together: printing a parsed value and parsing the text again
    gives the same value but for its spans.
  - `located_iterator.rs`, `char_reader.rs`, `code_location.rs`,
    `code_span.rs`, `codepos.rs` and `text.rs` hold the smaller pieces.
- `app/` is the unverified side: reading characters from a `BufRead`, and the
  `json-parse` and `json-tokenize` programs.
- `tests/` holds the tests.
