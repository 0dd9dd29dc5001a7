// Tests for Lexer

use toy_json_parser::{CodeLocation, CodeSpan, Delimiter, Lexer, LexicalErrorKind, Literal, TokenKind};

fn do_take_single_valid_token(input: &str, expected_kind: TokenKind, expected_span: CodeSpan) {
    let mut lexer = Lexer::new(input.chars().collect());
    let token = lexer.next().unwrap().unwrap();
    assert_eq!(*token.kind(), expected_kind);
    assert_eq!(*token.span(), expected_span);
    assert_eq!(lexer.next(), None);
}

fn do_take_single_invalid_token(input: &str, expected_kind: LexicalErrorKind, expected_string: &str, to_be_finished: bool) {
    let start = CodeLocation::new(1, 1);
    let mut lexer = Lexer::new(input.chars().collect());
    let error = lexer.next().unwrap().unwrap_err();
    assert_eq!(error.kind, expected_kind);
    assert_eq!(error.string, expected_string);
    assert_eq!(error.location, start);
    assert_eq!(lexer.next().is_none(), to_be_finished);
}

fn take_single_valid_token(input: &str, expected_kind: TokenKind) {
    let start = CodeLocation::new(1, 1);
    let end = CodeLocation::new(start.line, start.column + input.chars().count());
    do_take_single_valid_token(input, expected_kind, CodeSpan::new(start, end))
}

fn take_single_valid_token_with_whitespace_prefix(prefix: &str, input: &str, expected_kind: TokenKind, start: CodeLocation) {
    let end = CodeLocation::new(start.line, start.column + input.chars().count());
    do_take_single_valid_token(&format!("{prefix}{input}"), expected_kind, CodeSpan::new(start, end))
}

fn take_single_valid_token_with_whitespace_suffix(input: &str, suffix: &str, expected_kind: TokenKind) {
    let joined = &format!("{input}{suffix}");
    let start = CodeLocation::new(1, 1);
    let end = CodeLocation::new(start.line, start.column + input.chars().count());
    do_take_single_valid_token(joined, expected_kind, CodeSpan::new(start, end))
}

fn take_single_invalid_token(input: &str, expected_kind: LexicalErrorKind) {
    do_take_single_invalid_token(input, expected_kind, input, true)
}

fn take_single_invalid_token_with_trailing_chars(input: &str, rest: &str, expected_kind: LexicalErrorKind) {
    let joined = &format!("{input}{rest}");
    do_take_single_invalid_token(joined, expected_kind, input, false)
}

#[test]
fn lexer_new() {
    let _lexer = Lexer::new("".chars().collect());
}

#[test]
fn lexer_tokenize_left_bracket() {
    take_single_valid_token("[", TokenKind::Delimiter(Delimiter::LeftBracket))
}

#[test]
fn lexer_tokenize_right_bracket() {
    take_single_valid_token("]", TokenKind::Delimiter(Delimiter::RightBracket))
}

#[test]
fn lexer_tokenize_left_brace() {
    take_single_valid_token("{", TokenKind::Delimiter(Delimiter::LeftBrace))
}

#[test]
fn lexer_tokenize_right_brace() {
    take_single_valid_token("}", TokenKind::Delimiter(Delimiter::RightBrace))
}

#[test]
fn lexer_tokenize_colon() {
    take_single_valid_token(":", TokenKind::Delimiter(Delimiter::Colon))
}

#[test]
fn lexer_tokenize_comma() {
    take_single_valid_token(",", TokenKind::Delimiter(Delimiter::Comma))
}

#[test]
fn lexer_tokenize_true() {
    take_single_valid_token("true", TokenKind::Literal(Literal::Boolean(true)))
}

#[test]
fn lexer_tokenize_false() {
    take_single_valid_token("false", TokenKind::Literal(Literal::Boolean(false)))
}

#[test]
fn lexer_tokenize_null() {
    take_single_valid_token("null", TokenKind::Literal(Literal::Null))
}

#[test]
fn lexer_tokenize_number_positive_zero() {
    let s = "0";
    take_single_valid_token(s, TokenKind::Literal(Literal::Number(s.to_string())))
}

#[test]
fn lexer_tokenize_number_negative_zero() {
    let s = "-0";
    take_single_valid_token(s, TokenKind::Literal(Literal::Number(s.to_string())))
}

#[test]
fn lexer_tokenize_number_positive_integer() {
    let s = "123";
    take_single_valid_token(s, TokenKind::Literal(Literal::Number(s.to_string())))
}

#[test]
fn tokenize_number_positive_integer_contains_zero() {
    let s = "103";
    take_single_valid_token(s, TokenKind::Literal(Literal::Number(s.to_string())))
}

#[test]
fn lexer_tokenize_number_negative_integer() {
    let s = "-123";
    take_single_valid_token(s, TokenKind::Literal(Literal::Number(s.to_string())))
}

#[test]
fn tokenize_number_negative_integer_contains_zero() {
    let s = "-103";
    take_single_valid_token(s, TokenKind::Literal(Literal::Number(s.to_string())))
}

#[test]
fn lexer_tokenize_number_positive_decimal_fraction() {
    let s = "12.3";
    take_single_valid_token(s, TokenKind::Literal(Literal::Number(s.to_string())))
}

#[test]
fn lexer_tokenize_number_negative_decimal_fraction() {
    let s = "-12.3";
    take_single_valid_token(s, TokenKind::Literal(Literal::Number(s.to_string())))
}

#[test]
fn lexer_tokenize_number_positive_exponential_notation_small() {
    let s = "1.23e-2";
    take_single_valid_token(s, TokenKind::Literal(Literal::Number(s.to_string())))
}

#[test]
fn lexer_tokenize_number_positive_exponential_notation_large() {
    let s = "1.23e+2";
    take_single_valid_token(s, TokenKind::Literal(Literal::Number(s.to_string())))
}

#[test]
fn lexer_tokenize_number_negative_exponential_notation_small() {
    let s = "-1.23e-2";
    take_single_valid_token(s, TokenKind::Literal(Literal::Number(s.to_string())))
}

#[test]
fn lexer_tokenize_number_negative_exponential_notation_large() {
    let s = "-1.23e+2";
    take_single_valid_token(s, TokenKind::Literal(Literal::Number(s.to_string())))
}

#[test]
fn lexer_tokenize_string_without_escaped() {
    let s = "foo";
    take_single_valid_token(&format!(r#""{s}""#), TokenKind::Literal(Literal::String(s.to_string())))
}

#[test]
fn lexer_tokenize_string_with_escaped_char() {
    let s = r#"\" \\ \/ \b \f \n \r \t"#;
    take_single_valid_token(&format!(r#""{s}""#), TokenKind::Literal(Literal::String(s.to_string())))
}

#[test]
fn lexer_tokenize_string_with_escaped_unicode() {
    let s = r#"\u048c"#;
    take_single_valid_token(&format!(r#""{s}""#), TokenKind::Literal(Literal::String(s.to_string())))
}

#[test]
fn lexer_tokenize_colon_with_space_prefix() {
    take_single_valid_token_with_whitespace_prefix(" ", ":", TokenKind::Delimiter(Delimiter::Colon), CodeLocation::new(1, 2))
}

#[test]
fn lexer_tokenize_colon_with_tab_prefix() {
    take_single_valid_token_with_whitespace_prefix("\t", ":", TokenKind::Delimiter(Delimiter::Colon), CodeLocation::new(1, 2))
}

#[test]
fn lexer_tokenize_colon_with_line_feed_prefix() {
    take_single_valid_token_with_whitespace_prefix("\n", ":", TokenKind::Delimiter(Delimiter::Colon), CodeLocation::new(2, 1))
}

#[test]
fn lexer_tokenize_colon_with_carriage_return_prefix() {
    take_single_valid_token_with_whitespace_prefix("\r", ":", TokenKind::Delimiter(Delimiter::Colon), CodeLocation::new(1, 2))
}

#[test]
fn lexer_tokenize_colon_with_space_suffix() {
    take_single_valid_token_with_whitespace_suffix(":", " ", TokenKind::Delimiter(Delimiter::Colon))
}

#[test]
fn lexer_tokenize_true_with_space_prefix() {
    take_single_valid_token_with_whitespace_prefix(" ", "true", TokenKind::Literal(Literal::Boolean(true)), CodeLocation::new(1, 2))
}

#[test]
fn lexer_tokenize_true_with_space_suffix() {
    take_single_valid_token_with_whitespace_suffix("true", " ", TokenKind::Literal(Literal::Boolean(true)))
}

#[test]
fn tokenize_number_with_space_prefix() {
    let s = "123";
    take_single_valid_token_with_whitespace_prefix(" ", s, TokenKind::Literal(Literal::Number(s.to_string())), CodeLocation::new(1, 2))
}

#[test]
fn tokenize_number_with_space_suffix() {
    let s = "123";
    take_single_valid_token_with_whitespace_suffix(s, " ", TokenKind::Literal(Literal::Number(s.to_string())))
}

#[test]
fn tokenize_string_with_space_prefix() {
    let s = "foo";
    let input = &format!(r#""{s}""#);
    take_single_valid_token_with_whitespace_prefix(" ", input, TokenKind::Literal(Literal::String(s.to_string())), CodeLocation::new(1, 2))
}

#[test]
fn tokenize_string_with_space_suffix() {
    let s = "foo";
    let input = &format!(r#""{s}""#);
    take_single_valid_token_with_whitespace_suffix(input, " ", TokenKind::Literal(Literal::String(s.to_string())))
}

#[test]
fn lexer_tokenize_invalid_char() {
    let s = ".";
    take_single_invalid_token(s, LexicalErrorKind::UnexpectedChar)
}

#[test]
fn tokenize_invalid_unquoted_string() {
    let s = "invalid";
    take_single_invalid_token(s, LexicalErrorKind::UnquotedString)
}

#[test]
fn tokenize_invalid_unterminated_string() {
    let s = r#""foo"#;
    take_single_invalid_token(s, LexicalErrorKind::UnterminatedString)
}

#[test]
fn lexer_tokenize_invalid_number_minus_only() {
    let s = "-";
    take_single_invalid_token(s, LexicalErrorKind::NumberMissingIntegerDigits)
}

#[test]
fn lexer_tokenize_invalid_number_leading_zero_without_minus() {
    let s = "01";
    take_single_invalid_token(s, LexicalErrorKind::NumberContainsLeadingZero)
}

#[test]
fn lexer_tokenize_invalid_number_leading_zero_with_minus() {
    let s = "-01";
    take_single_invalid_token(s, LexicalErrorKind::NumberContainsLeadingZero)
}

#[test]
fn tokenize_invalid_number_bad_char_in_fraction_part() {
    let body = "0.";
    let rest = "a";
    take_single_invalid_token_with_trailing_chars(body, rest, LexicalErrorKind::NumberMissingFractionDigits)
}

#[test]
fn tokenize_invalid_number_bad_char_in_exponent_part() {
    let body = "0e";
    let rest = "a";
    take_single_invalid_token_with_trailing_chars(body, rest, LexicalErrorKind::NumberMissingExponentDigits)
}

#[test]
fn tokenize_invalid_quoted_string_with_bad_escape_sequence() {
    let s = r#""\c""#;
    take_single_invalid_token(s, LexicalErrorKind::StringContainsInvalidEscapeSequence)
}

#[test]
fn tokenize_invalid_quoted_string_with_bad_unicode_escape() {
    let s = r#""\u000x""#;
    take_single_invalid_token(s, LexicalErrorKind::StringContainsInvalidUnicodeEscape)
}

#[test]
fn tokenize_invalid_quoted_string_with_unescaped_control_char() {
    let s = "\"\n\"";
    take_single_invalid_token(s, LexicalErrorKind::StringContainsUnescapedControlChar)
}

