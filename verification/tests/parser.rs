// Tests for Parser

use toy_json_parser::{CodeLocation, CodeSpan, Delimiter, Lexer, Literal, ParseError, Parser, Value, ValueKind};

fn do_parse_legal_code(input: &str, expected: Value) {
    let lexer = Lexer::new(input.chars().collect());
    let mut parser = Parser::new(lexer);
    let value = parser.parse().unwrap();
    assert_eq!(value, expected);
}

fn do_parse_illegal_code(input: &str, expected: ParseError) {
    let lexer = Lexer::new(input.chars().collect());
    let mut parser = Parser::new(lexer);
    match parser.parse() {
        Ok(_) => {
            panic!();
        }
        Err(e) => match e {
            ParseError::NestingDepthExceeded(_) => {}
            _ => {
                assert_eq!(e, expected);
            }
        },
    }
}

#[test]
fn parser_new() {
    let lexer = Lexer::new("".chars().collect());
    let _parser = Parser::new(lexer);
}

#[test]
fn parser_parse_number() {
    let input = "123";
    let start = CodeLocation::new(1, 1);
    let end = CodeLocation::new(start.line, start.column + input.chars().count());
    let kind = ValueKind::Literal(Literal::Number(input.to_string()));
    let span = CodeSpan::new(start, end);
    do_parse_legal_code(input, Value::new(kind, span))
}

#[test]
fn parser_parse_string() {
    let input = "foo";
    let code = format!(r#""{input}""#);
    let start = CodeLocation::new(1, 1);
    let end = CodeLocation::new(start.line, start.column + code.chars().count());
    let kind = ValueKind::Literal(Literal::String(input.to_string()));
    let span = CodeSpan::new(start, end);
    do_parse_legal_code(&code, Value::new(kind, span))
}

#[test]
fn parser_parse_true() {
    let input = "true";
    let start = CodeLocation::new(1, 1);
    let end = CodeLocation::new(start.line, start.column + input.chars().count());
    let kind = ValueKind::Literal(Literal::Boolean(true));
    let span = CodeSpan::new(start, end);
    do_parse_legal_code(input, Value::new(kind, span))
}

#[test]
fn parser_parse_false() {
    let input = "false";
    let start = CodeLocation::new(1, 1);
    let end = CodeLocation::new(start.line, start.column + input.chars().count());
    let kind = ValueKind::Literal(Literal::Boolean(false));
    let span = CodeSpan::new(start, end);
    do_parse_legal_code(input, Value::new(kind, span))
}

#[test]
fn parser_parse_null() {
    let input = "null";
    let start = CodeLocation::new(1, 1);
    let end = CodeLocation::new(start.line, start.column + input.chars().count());
    let kind = ValueKind::Literal(Literal::Null);
    let span = CodeSpan::new(start, end);
    do_parse_legal_code(input, Value::new(kind, span))
}

#[test]
fn parser_parse_array_empty() {
    let input = "[]";
    let start = CodeLocation::new(1, 1);
    let end = CodeLocation::new(start.line, start.column + input.chars().count());
    let buf = Vec::new();
    let kind = ValueKind::Array(buf);
    let span = CodeSpan::new(start, end);
    do_parse_legal_code(input, Value::new(kind, span))
}

#[test]
fn parser_parse_array_single_item() {
    let input = "[0]";
    let start = CodeLocation::new(1, 1);
    let literal_start = CodeLocation::new(start.line, start.column + 1);
    let literal_end = CodeLocation::new(literal_start.line, literal_start.column + 1);
    let end = CodeLocation::new(start.line, start.column + input.chars().count());
    let buf = vec![Box::new(Value::new(
        ValueKind::Literal(Literal::Number("0".to_string())),
        CodeSpan::new(literal_start, literal_end),
    ))];
    let kind = ValueKind::Array(buf);
    let span = CodeSpan::new(start, end);
    do_parse_legal_code(input, Value::new(kind, span))
}

#[test]
fn parser_parse_array_multiple_item() {
    let input = "[0, 1]";
    let start = CodeLocation::new(1, 1);
    let literal1_start = CodeLocation::new(start.line, start.column + 1);
    let literal1_end = CodeLocation::new(literal1_start.line, literal1_start.column + 1);
    let literal2_start = CodeLocation::new(literal1_end.line, literal1_end.column + 2);
    let literal2_end = CodeLocation::new(literal2_start.line, literal2_start.column + 1);
    let end = CodeLocation::new(start.line, start.column + input.chars().count());
    let buf = vec![
        Box::new(Value::new(
            ValueKind::Literal(Literal::Number("0".to_string())),
            CodeSpan::new(literal1_start, literal1_end),
        )),
        Box::new(Value::new(
            ValueKind::Literal(Literal::Number("1".to_string())),
            CodeSpan::new(literal2_start, literal2_end),
        )),
    ];
    let kind = ValueKind::Array(buf);
    let span = CodeSpan::new(start, end);
    do_parse_legal_code(input, Value::new(kind, span))
}

#[test]
fn parser_parse_object_empty() {
    let input = "{}";
    let start = CodeLocation::new(1, 1);
    let end = CodeLocation::new(start.line, start.column + input.chars().count());
    let buf = Vec::new();
    let kind = ValueKind::Object(buf);
    let span = CodeSpan::new(start, end);
    do_parse_legal_code(input, Value::new(kind, span))
}

#[test]
fn parser_parse_object_single_pair() {
    let input = r#"{"a": 0}"#;
    let start = CodeLocation::new(1, 1);
    let name_start = CodeLocation::new(start.line, start.column + 1);
    let name_end = CodeLocation::new(name_start.line, name_start.column + 3);
    let value_start = CodeLocation::new(name_end.line, name_end.column + 2);
    let value_end = CodeLocation::new(value_start.line, value_start.column + 1);
    let end = CodeLocation::new(start.line, start.column + input.chars().count());
    let buf = vec![(
        ("a".to_string(), CodeSpan::new(name_start, name_end)),
        Box::new(Value::new(
            ValueKind::Literal(Literal::Number("0".to_string())),
            CodeSpan::new(value_start, value_end),
        )),
    )];
    let kind = ValueKind::Object(buf);
    let span = CodeSpan::new(start, end);
    do_parse_legal_code(input, Value::new(kind, span))
}

#[test]
fn parser_parse_object_multiple_pair() {
    let input = r#"{"a": 0, "b": 1}"#;
    let start = CodeLocation::new(1, 1);
    let name1_start = CodeLocation::new(start.line, start.column + 1);
    let name1_end = CodeLocation::new(name1_start.line, name1_start.column + 3);
    let value1_start = CodeLocation::new(name1_end.line, name1_end.column + 2);
    let value1_end = CodeLocation::new(value1_start.line, value1_start.column + 1);
    let name2_start = CodeLocation::new(value1_end.line, value1_end.column + 2);
    let name2_end = CodeLocation::new(name2_start.line, name2_start.column + 3);
    let value2_start = CodeLocation::new(name2_end.line, name2_end.column + 2);
    let value2_end = CodeLocation::new(value2_start.line, value2_start.column + 1);
    let end = CodeLocation::new(start.line, start.column + input.chars().count());
    let buf = vec![
        (
            ("a".to_string(), CodeSpan::new(name1_start, name1_end)),
            Box::new(Value::new(
                ValueKind::Literal(Literal::Number("0".to_string())),
                CodeSpan::new(value1_start, value1_end),
            )),
        ),
        (
            ("b".to_string(), CodeSpan::new(name2_start, name2_end)),
            Box::new(Value::new(
                ValueKind::Literal(Literal::Number("1".to_string())),
                CodeSpan::new(value2_start, value2_end),
            )),
        ),
    ];
    let kind = ValueKind::Object(buf);
    let span = CodeSpan::new(start, end);
    do_parse_legal_code(input, Value::new(kind, span))
}

#[test]
fn parser_parse_illegal_no_token() {
    let input = "";
    do_parse_illegal_code(input, ParseError::NoToken)
}

#[test]
fn parser_parse_illegal_invalid_token() {
    let input = "_";
    let loc = CodeLocation::new(1, 1);
    do_parse_illegal_code(input, ParseError::InvalidToken(input.to_string(), loc))
}

#[test]
fn parser_parse_illegal_delimiter_in_wrong_place() {
    let input = ",";
    let loc = CodeLocation::new(1, 1);
    do_parse_illegal_code(input, ParseError::DelimiterInWrongPlace(Delimiter::Comma, loc))
}

#[test]
fn parser_parse_illegal_extra_token_at_the_end() {
    let body = "0 ";
    let extra = "1";
    let input = &format!("{body}{extra}");
    let loc = CodeLocation::new(1, 1 + body.chars().count());
    do_parse_illegal_code(input, ParseError::ExtraTokenAtTheEnd(loc))
}

#[test]
fn parser_parse_illegal_unfinished_array_no_value() {
    let input = "[";
    let start = CodeLocation::new(1, 1);
    let end = CodeLocation::new(start.line, start.column + input.chars().count());
    do_parse_illegal_code(input, ParseError::UnfinishedArray(start, end))
}

#[test]
fn parser_parse_illegal_unfinished_array_lacks_next_comma() {
    let input = "[0";
    let start = CodeLocation::new(1, 1);
    let end = CodeLocation::new(start.line, start.column + input.chars().count());
    do_parse_illegal_code(input, ParseError::UnfinishedArray(start, end))
}

#[test]
fn parser_parse_illegal_unfinished_array_lacks_next_value() {
    let input = "[0,";
    let start = CodeLocation::new(1, 1);
    let end = CodeLocation::new(start.line, start.column + input.chars().count());
    do_parse_illegal_code(input, ParseError::UnfinishedArray(start, end))
}

#[test]
fn parse_illegal_array_lacks_separator() {
    let pre = "[0";
    let post = " 1]";
    let input = &format!("{pre}{post}");
    let start = CodeLocation::new(1, 1);
    let end = CodeLocation::new(start.line, start.column + pre.chars().count());
    do_parse_illegal_code(input, ParseError::ArrayLacksSeparator(start, end))
}

#[test]
fn parser_parse_illegal_unfinished_object_no_name() {
    let input = "{";
    let start = CodeLocation::new(1, 1);
    let end = CodeLocation::new(start.line, start.column + input.chars().count());
    do_parse_illegal_code(input, ParseError::UnfinishedObject(start, end))
}

#[test]
fn parser_parse_illegal_unfinished_object_lacks_next_colon() {
    let input = r#"{"foo""#;
    let start = CodeLocation::new(1, 1);
    let end = CodeLocation::new(start.line, start.column + input.chars().count());
    do_parse_illegal_code(input, ParseError::ObjectMemberLacksSeparator(start, end))
}

#[test]
fn parser_parse_illegal_unfinished_object_lacks_next_value() {
    let input = r#"{"foo":"#;
    let start = CodeLocation::new(1, 1);
    let end = CodeLocation::new(start.line, start.column + input.chars().count());
    do_parse_illegal_code(input, ParseError::ObjectMemberLacksValue(start, end))
}

#[test]
fn parser_parse_illegal_unfinished_object_lacks_next_comma() {
    let input = r#"{"foo": 0"#;
    let start = CodeLocation::new(1, 1);
    let end = CodeLocation::new(start.line, start.column + input.chars().count());
    do_parse_illegal_code(input, ParseError::UnfinishedObject(start, end))
}

#[test]
fn parse_illegal_object_lacks_separator() {
    let pre = r#"{"foo": 0"#;
    let post = r#" "bar": 1}"#;
    let input = &format!("{pre}{post}");
    let start = CodeLocation::new(1, 1);
    let end = CodeLocation::new(start.line, start.column + pre.chars().count());
    do_parse_illegal_code(input, ParseError::ObjectLacksSeparator(start, end))
}

#[test]
fn parser_parse_illegal_object_name_is_not_string() {
    let pre = "{";
    let name = "0";
    let post = ": 0}";
    let input = &format!("{pre}{name}{post}");
    let start = CodeLocation::new(1, 1);
    let end = CodeLocation::new(start.line, start.column + pre.chars().count());
    do_parse_illegal_code(input, ParseError::NameOfObjectMemberIsNotString(Literal::Number(name.to_string()), end))
}

#[test]
fn parse_illegal_nesting_depth_exceeded() {
    let nesting_depth = 1024;
    let input = &format!("{}{}", "[".repeat(nesting_depth), "]".repeat(nesting_depth));
    let dummy = CodeLocation::new(1, 1);
    do_parse_illegal_code(input, ParseError::NestingDepthExceeded(dummy))
}

