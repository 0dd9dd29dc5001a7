// Further tests: the properties that the library proves, on concrete inputs,
// and the edge cases of the lexer, the parser and the printers.

use toy_json_parser::{
    CharReader, CodeLocation, CodePos, CodeSpan, Delimiter, Lexer, LexicalErrorKind, Literal,
    LocatedIterator, ParseError, Parser, Token, TokenKind, Value, ValueKind,
};

fn lexer(input: &str) -> Lexer {
    Lexer::new(input.chars().collect())
}

fn parse(input: &str) -> Result<Value, ParseError> {
    Parser::new(lexer(input)).parse()
}

fn loc(line: usize, column: usize) -> CodeLocation {
    CodeLocation::new(line, column)
}

fn single_line_span(line: usize, start: usize, end: usize) -> CodeSpan {
    CodeSpan::new(loc(line, start), loc(line, end))
}

#[test]
fn lexer_exhausted_stays_exhausted() {
    let mut lexer = lexer(" [ ");
    assert!(matches!(lexer.next(), Some(Ok(_))));
    assert_eq!(lexer.next(), None);
    assert_eq!(lexer.next(), None);
    assert_eq!(lexer.next(), None);
}

#[test]
fn lexer_continues_after_error() {
    let mut lexer = lexer("01 true");
    let error = lexer.next().unwrap().unwrap_err();
    assert_eq!(error.kind, LexicalErrorKind::NumberContainsLeadingZero);
    assert_eq!(error.string, "01");
    let token = lexer.next().unwrap().unwrap();
    assert_eq!(token.kind, TokenKind::Literal(Literal::Boolean(true)));
    assert_eq!(token.span, single_line_span(1, 4, 8));
    assert_eq!(lexer.next(), None);
}

#[test]
fn lexer_token_text_is_source_text() {
    for source in ["[", "]", "{", "}", ":", ",", "true", "false", "null", "-0.5e+10", "1.5E3", r#""a\nb\u00e9""#] {
        let mut lexer = lexer(source);
        let token = lexer.next().unwrap().unwrap();
        assert_eq!(token.to_string(), source);
        assert_eq!(token.span, single_line_span(1, 1, 1 + source.len()));
        assert_eq!(lexer.next(), None);
    }
}

#[test]
fn lexer_span_counts_characters_of_strings() {
    let mut lexer = lexer("\"\u{e9}\" 1");
    let token = lexer.next().unwrap().unwrap();
    assert_eq!(token.kind, TokenKind::Literal(Literal::String("\u{e9}".to_string())));
    // two quotes and the one character `é`
    assert_eq!(token.span, single_line_span(1, 1, 4));
    let token = lexer.next().unwrap().unwrap();
    assert_eq!(token.span, single_line_span(1, 5, 6));
}

#[test]
fn lexer_locations_across_lines() {
    let mut lexer = lexer("[\n  1,\r\n\t\"x\"]");
    let starts: Vec<CodeLocation> = std::iter::from_fn(|| lexer.next()).map(|r| r.unwrap().span.start).collect();
    assert_eq!(starts, vec![loc(1, 1), loc(2, 3), loc(2, 4), loc(3, 2), loc(3, 5)]);
}

#[test]
fn lexer_number_errors_report_the_last_problem() {
    let mut lexer = lexer("-01.e");
    let error = lexer.next().unwrap().unwrap_err();
    assert_eq!(error.kind, LexicalErrorKind::NumberMissingExponentDigits);
    assert_eq!(error.string, "-01.e");
    assert_eq!(lexer.next(), None);
}

#[test]
fn lexer_number_with_exponent_sign_but_no_digits() {
    let mut lexer = lexer("1e+]");
    let error = lexer.next().unwrap().unwrap_err();
    assert_eq!(error.kind, LexicalErrorKind::NumberMissingExponentDigits);
    assert_eq!(error.string, "1e+");
    let token = lexer.next().unwrap().unwrap();
    assert_eq!(token.kind, TokenKind::Delimiter(Delimiter::RightBracket));
}

#[test]
fn lexer_string_refuses_unit_separator() {
    // every control character up to and including 0x1f is refused unescaped
    let mut lexer = lexer("\"\u{1f}\"");
    let error = lexer.next().unwrap().unwrap_err();
    assert_eq!(error.kind, LexicalErrorKind::StringContainsUnescapedControlChar);
    assert_eq!(error.string, "\"\u{1f}\"");
    let mut other = Lexer::new("\"\u{7f}\"".chars().collect());
    assert!(matches!(other.next(), Some(Ok(_))));
}

#[test]
fn lexer_string_error_reports_the_last_problem() {
    let mut lexer = lexer("\"\\q\t\"");
    let error = lexer.next().unwrap().unwrap_err();
    assert_eq!(error.kind, LexicalErrorKind::StringContainsUnescapedControlChar);
    assert_eq!(error.string, "\"\\q\t\"");
}

#[test]
fn lexer_short_unicode_escape_keeps_the_next_char() {
    let mut lexer = lexer("\"\\u12\" 1");
    let error = lexer.next().unwrap().unwrap_err();
    assert_eq!(error.kind, LexicalErrorKind::StringContainsInvalidUnicodeEscape);
    assert_eq!(error.string, "\"\\u12\"");
    let token = lexer.next().unwrap().unwrap();
    assert_eq!(token.kind, TokenKind::Literal(Literal::Number("1".to_string())));
}

#[test]
fn lexer_unterminated_after_backslash() {
    let mut lexer = lexer("\"ab\\");
    let error = lexer.next().unwrap().unwrap_err();
    assert_eq!(error.kind, LexicalErrorKind::UnterminatedString);
    assert_eq!(error.string, "\"ab\\");
    assert_eq!(error.location, loc(1, 1));
    assert_eq!(lexer.next(), None);
}

#[test]
fn lexer_unknown_word_with_digits_and_underscores() {
    let mut lexer = lexer("  nul_1 ");
    let error = lexer.next().unwrap().unwrap_err();
    assert_eq!(error.kind, LexicalErrorKind::UnquotedString);
    assert_eq!(error.string, "nul_1");
    assert_eq!(error.location, loc(1, 3));
}

#[test]
fn lexer_unexpected_non_ascii_char() {
    let mut lexer = lexer("\u{e9}");
    let error = lexer.next().unwrap().unwrap_err();
    assert_eq!(error.kind, LexicalErrorKind::UnexpectedChar);
    assert_eq!(error.string, "\u{e9}");
}

#[test]
fn parse_blank_input_gives_no_token() {
    assert_eq!(parse(" \n\t\r "), Err(ParseError::NoToken));
}

#[test]
fn parse_twice_reads_nothing_more() {
    let mut parser = Parser::new(lexer("[1]"));
    assert!(parser.parse().is_ok());
    assert_eq!(parser.parse(), Err(ParseError::NoToken));
}

#[test]
fn parse_depth_limit_is_inclusive() {
    let ok = format!("{}{}", "[".repeat(513), "]".repeat(513));
    assert!(parse(&ok).is_ok());
    let deep = format!("{}{}", "[".repeat(514), "]".repeat(514));
    assert_eq!(parse(&deep), Err(ParseError::NestingDepthExceeded(loc(1, 514))));
}

#[test]
fn parse_depth_limit_applies_to_literals() {
    let deep = format!("{}0{}", "[".repeat(513), "]".repeat(513));
    assert_eq!(parse(&deep), Err(ParseError::NestingDepthExceeded(loc(1, 514))));
}

#[test]
fn parse_invalid_token_inside_array() {
    assert_eq!(parse("[1, -]"), Err(ParseError::InvalidToken("-".to_string(), loc(1, 5))));
}

#[test]
fn parse_lexical_error_as_extra_token() {
    assert_eq!(parse("1 ?"), Err(ParseError::ExtraTokenAtTheEnd(loc(1, 3))));
}

#[test]
fn parse_member_without_colon() {
    assert_eq!(parse(r#"{"a" 1}"#), Err(ParseError::ObjectMemberLacksSeparator(loc(1, 1), loc(1, 6))));
}

#[test]
fn parse_member_name_delimiter() {
    assert_eq!(parse("{:1}"), Err(ParseError::DelimiterInWrongPlace(Delimiter::Colon, loc(1, 2))));
}

#[test]
fn parse_trailing_comma_in_array() {
    assert_eq!(parse("[1,]"), Err(ParseError::DelimiterInWrongPlace(Delimiter::RightBracket, loc(1, 4))));
}

#[test]
fn parse_leading_comma_in_object() {
    assert_eq!(parse("{,}"), Err(ParseError::DelimiterInWrongPlace(Delimiter::Comma, loc(1, 2))));
}

#[test]
fn parse_unfinished_object_after_comma() {
    assert_eq!(parse(r#"{"a": 1,"#), Err(ParseError::UnfinishedObject(loc(1, 1), loc(1, 9))));
}

#[test]
fn parse_nested_value_spans() {
    let value = parse("{\n \"k\": [true, null]\n}").unwrap();
    assert_eq!(value.span, CodeSpan::new(loc(1, 1), loc(3, 2)));
    match &value.kind {
        ValueKind::Object(members) => {
            assert_eq!(members.len(), 1);
            assert_eq!(members[0].0, ("k".to_string(), single_line_span(2, 2, 5)));
            assert_eq!(members[0].1.span, single_line_span(2, 7, 19));
        }
        _ => panic!(),
    }
}

#[test]
fn parsed_value_prints() {
    let value = parse(r#"{"a": [1, {"b": "c"}], "d": {}}"#).unwrap();
    assert_eq!(value.to_string(), r#"{"a": [1, {"b": "c"}], "d": {}}"#);
    assert_eq!(
        value.display(2).to_string(),
        "{\n  \"a\": [\n    1,\n    {\n      \"b\": \"c\"\n    }\n  ],\n  \"d\": {}\n}"
    );
}

#[test]
fn flat_values_print_alike() {
    for source in ["null", "[]", "{}", "\"x\"", "-1.5"] {
        let value = parse(source).unwrap();
        assert_eq!(value.to_string(), source);
        assert_eq!(value.display(3).to_string(), source);
        assert_eq!(value.kind.to_string(), source);
        assert_eq!(value.kind.display(0).to_string(), source);
    }
}

#[test]
fn value_display_zero_width() {
    let value = parse("[[1]]").unwrap();
    assert_eq!(value.display(0).to_string(), "[\n[\n1\n]\n]");
}

#[test]
fn value_clone_is_equal() {
    let value = parse(r#"{"a": [1, 2], "b": {"c": null}}"#).unwrap();
    assert_eq!(value.clone(), value);
    assert_eq!(value.kind.clone(), value.kind);
}

#[test]
fn value_display_value_array_multiple_item_indent4() {
    let loc1 = loc(1, 1);
    let span = CodeSpan::new(loc1, loc1);
    let item = Value::new(ValueKind::Literal(Literal::Null), span);
    let value = Value::new(ValueKind::Array(vec![Box::new(item.clone()), Box::new(item)]), span);
    assert_eq!(value.display(4).to_string(), "[\n    null,\n    null\n]");
}

#[test]
fn value_display_value_object_multiple_item_indent4() {
    let loc1 = loc(1, 1);
    let span = CodeSpan::new(loc1, loc1);
    let item = Value::new(ValueKind::Literal(Literal::Null), span);
    let kind = ValueKind::Object(vec![(("a".to_string(), span), Box::new(item.clone())), (("b".to_string(), span), Box::new(item))]);
    let value = Value::new(kind, span);
    assert_eq!(value.display(4).to_string(), "{\n    \"a\": null,\n    \"b\": null\n}");
}

#[test]
fn code_location_display_multi_digit() {
    assert_eq!(loc(120, 9).to_string(), "[Ln 120, Col 9]");
    assert_eq!(loc(0, 10).to_string(), "[Ln 0, Col 10]");
}

#[test]
fn code_span_display_multi_digit() {
    assert_eq!(CodeSpan::new(loc(10, 2), loc(10, 345)).to_string(), "[Ln 10, Col 2-345]");
    assert_eq!(CodeSpan::new(loc(9, 99), loc(10, 1)).to_string(), "[Ln 9, Col 99 - Ln 10, Col 1]");
}

#[test]
fn token_display_matches_kind_display() {
    let token = Token::new(TokenKind::Literal(Literal::String("x y".to_string())), single_line_span(1, 1, 6));
    assert_eq!(token.to_string(), "\"x y\"");
    assert_eq!(token.kind.to_string(), "\"x y\"");
    assert_eq!(Literal::Boolean(false).to_string(), "false");
    assert_eq!(Delimiter::Colon.to_string(), ":");
}

#[test]
fn codepos_advances() {
    let mut pos = CodePos::new(3, 7);
    pos.advance_column();
    assert_eq!(pos, CodePos::new(3, 8));
    pos.advance_line();
    assert_eq!(pos, CodePos::new(4, 1));
}

#[test]
fn char_reader_gives_buffered_chars_in_order() {
    let mut reader = CharReader::new();
    assert!(reader.needs_line());
    assert_eq!(reader.take_char(), None);
    reader.refill("ab\n".chars().collect());
    assert!(!reader.needs_line());
    assert_eq!(reader.take_char(), Some('a'));
    assert_eq!(reader.take_char(), Some('b'));
    assert_eq!(reader.take_char(), Some('\n'));
    assert!(reader.needs_line());
    assert_eq!(reader.take_char(), None);
}

#[test]
fn located_iterator_tracks_lines_and_columns() {
    let mut it = LocatedIterator::new("a\nbc".chars().collect());
    assert_eq!(it.peek(), Some('a'));
    assert_eq!(it.next(), Some((loc(1, 1), 'a')));
    assert_eq!(it.next(), Some((loc(1, 2), '\n')));
    assert_eq!(it.next(), Some((loc(2, 1), 'b')));
    assert_eq!(it.location(), loc(2, 2));
    assert_eq!(it.offset(), 3);
    assert_eq!(it.next(), Some((loc(2, 2), 'c')));
    assert_eq!(it.next(), None);
    assert_eq!(it.location(), loc(2, 3));
}

// Cases of the JSON_checker suite (json.org), written out inline.

#[test]
fn checker_fail2_unclosed_array() {
    assert_eq!(parse(r#"["Unclosed array""#), Err(ParseError::UnfinishedArray(loc(1, 1), loc(1, 18))));
}

#[test]
fn checker_fail3_unquoted_key() {
    assert_eq!(
        parse(r#"{unquoted_key: "keys must be quoted"}"#),
        Err(ParseError::InvalidToken("unquoted_key".to_string(), loc(1, 2)))
    );
}

#[test]
fn checker_fail7_comma_after_close() {
    assert_eq!(parse(r#"["Comma after the close"],"#), Err(ParseError::ExtraTokenAtTheEnd(loc(1, 26))));
}

#[test]
fn checker_fail13_leading_zero() {
    assert!(matches!(parse(r#"{"Numbers cannot have leading zeroes": 013}"#), Err(ParseError::InvalidToken(s, _)) if s == "013"));
}

#[test]
fn checker_fail19_missing_colon() {
    assert_eq!(parse(r#"{"Missing colon" null}"#), Err(ParseError::ObjectMemberLacksSeparator(loc(1, 1), loc(1, 18))));
}

#[test]
fn checker_fail33_mismatch() {
    assert_eq!(parse(r#"["mismatch"}"#), Err(ParseError::ArrayLacksSeparator(loc(1, 1), loc(1, 12))));
}

#[test]
fn checker_pass_sample() {
    let text = r#"
    [
        "JSON Test Pattern pass1",
        {"object with 1 member":["array with 1 element"]},
        {},
        [],
        -42,
        true,
        false,
        null,
        {
            "integer": 1234567890,
            "real": -9876.543210,
            "e": 0.123456789e-12,
            "E": 1.234567890E+34,
            "":  23456789012E66,
            "zero": 0,
            "one": 1,
            "space": " ",
            "quote": "\"",
            "backslash": "\\",
            "controls": "\b\f\n\r\t",
            "slash": "/ & \/",
            "hex": "\u0123\u4567\u89AB\uCDEF\uabcd\uef4A",
            "url": "http://www.JSON.org/",
            "compact":[1,2,3,4,5,6,7],
            "jsontext": "{\"object with 1 member\":[\"array with 1 element\"]}"
        },
        0.5 ,98.6
    ,
    99.44
    ,

    1066,
    1e1,
    0.1e1,
    1e-1,
    1e00,2e+00,2e-00
    ,"rosebud"]
    "#;
    assert!(parse(text).is_ok());
}

// The examples of the README.

const README_INPUT: &str = "{\n    \"foo\": null,\n    \"bar\": [0, 1]\n}";

#[test]
fn readme_lexer_example() {
    let mut lexer = lexer(README_INPUT);
    let mut tokens = Vec::new();
    while let Some(result) = lexer.next() {
        let token = result.unwrap();
        tokens.push((token.kind, token.span.start));
    }
    let number = |s: &str| TokenKind::Literal(Literal::Number(s.to_string()));
    let string = |s: &str| TokenKind::Literal(Literal::String(s.to_string()));
    let delim = TokenKind::Delimiter;
    assert_eq!(
        tokens,
        vec![
            (delim(Delimiter::LeftBrace), loc(1, 1)),
            (string("foo"), loc(2, 5)),
            (delim(Delimiter::Colon), loc(2, 10)),
            (TokenKind::Literal(Literal::Null), loc(2, 12)),
            (delim(Delimiter::Comma), loc(2, 16)),
            (string("bar"), loc(3, 5)),
            (delim(Delimiter::Colon), loc(3, 10)),
            (delim(Delimiter::LeftBracket), loc(3, 12)),
            (number("0"), loc(3, 13)),
            (delim(Delimiter::Comma), loc(3, 14)),
            (number("1"), loc(3, 16)),
            (delim(Delimiter::RightBracket), loc(3, 17)),
            (delim(Delimiter::RightBrace), loc(4, 1)),
        ]
    );
    assert_eq!(loc(1, 1).to_string(), "[Ln 1, Col 1]");
}

#[test]
fn readme_parser_example() {
    let value = parse(README_INPUT).unwrap();
    assert_eq!(value.display(4).to_string(), "{\n    \"foo\": null,\n    \"bar\": [\n        0,\n        1\n    ]\n}");
}

#[test]
fn relexing_token_text_gives_the_same_kind() {
    let source = r#"{"a\"b": [-1.5e-3, true, false, null, "\u00e9\u4e2d"]}"#;
    let mut outer = lexer(source);
    while let Some(result) = outer.next() {
        let token = result.unwrap();
        let text = token.to_string();
        let mut inner = lexer(&text);
        let again = inner.next().unwrap().unwrap();
        assert_eq!(again.kind, token.kind);
        assert_eq!(again.span, single_line_span(1, 1, 1 + text.chars().count()));
        assert_eq!(inner.next(), None);
    }
}

#[test]
fn well_formed_numbers_are_single_tokens() {
    for text in ["0", "-0", "12", "-12.5", "0.25e10", "1E-7", "-3e+0", "9.0E12"] {
        let mut lexer = lexer(text);
        let token = lexer.next().unwrap().unwrap();
        assert_eq!(token.kind, TokenKind::Literal(Literal::Number(text.to_string())));
        assert_eq!(lexer.next(), None);
    }
}

#[test]
fn well_formed_string_bodies_are_single_tokens() {
    for body in ["", "abc", r#"\"\\\/\b\f\n\r\t"#, r"\u00E9\uabcd", "\u{e9}\u{7f}"] {
        let text = format!("\"{body}\"");
        let mut lexer = lexer(&text);
        let token = lexer.next().unwrap().unwrap();
        assert_eq!(token.kind, TokenKind::Literal(Literal::String(body.to_string())));
        assert_eq!(lexer.next(), None);
    }
}

#[test]
fn printing_ignores_spans() {
    let a = parse("[1, {\"k\": [true]}]").unwrap();
    let b = parse("  [\n 1 ,{ \"k\"  :\n[ true ] } ]").unwrap();
    assert_ne!(a.span, b.span);
    assert_eq!(a.to_string(), b.to_string());
    assert_eq!(a.display(2).to_string(), b.display(2).to_string());
    let moved = Value::new(a.kind.clone(), single_line_span(7, 3, 9));
    assert_eq!(moved.display(3).to_string(), a.kind.display(3).to_string());
}

#[test]
fn checked_printing_refuses_overflowing_indentation() {
    let value = parse("[[1]]").unwrap();
    assert_eq!(value.checked_to_string(), Some("[[1]]".to_string()));
    assert_eq!(value.kind.checked_to_string(), Some("[[1]]".to_string()));
    assert_eq!(value.display(2).checked_to_string(), Some("[\n  [\n    1\n  ]\n]".to_string()));
    assert_eq!(value.display(usize::MAX).checked_to_string(), None);
    let flat = parse("[]").unwrap();
    assert_eq!(flat.display(usize::MAX).checked_to_string(), Some("[]".to_string()));
}

#[test]
fn parser_reads_a_given_sequence_of_lexer_results() {
    let results: Vec<_> = {
        let mut lexer = lexer("{\"a\": [1, 2]}");
        std::iter::from_fn(|| lexer.next()).collect()
    };
    let value = Parser::from_results(results).parse().unwrap();
    assert_eq!(value.to_string(), "{\"a\": [1, 2]}");
    assert_eq!(value.span, single_line_span(1, 1, 14));

    let results: Vec<_> = {
        let mut lexer = lexer("[1, 01]");
        std::iter::from_fn(|| lexer.next()).collect()
    };
    assert_eq!(
        Parser::from_results(results).parse(),
        Err(ParseError::InvalidToken("01".to_string(), loc(1, 5)))
    );
    assert_eq!(Parser::from_results(Vec::new()).parse(), Err(ParseError::NoToken));
}

#[test]
fn printed_values_parse_back_alike() {
    for source in [
        "null",
        "[]",
        "{}",
        "[1, -2.5e3, \"a\\\"b\", true, false, null]",
        "{\"x\": {\"y\": [[], {}, [0]]}, \"z\": \"\\u00e9\"}",
    ] {
        let value = parse(source).unwrap();
        let once = value.to_string();
        let again = parse(&once).unwrap();
        assert_eq!(again.to_string(), once);
        let pretty = value.display(2).to_string();
        assert_eq!(parse(&pretty).unwrap().to_string(), once);
    }
}
