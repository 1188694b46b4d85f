use verbump::parser::{ParseError, Parser};

#[test]
fn string_simple() {
    let mut parser = Parser::new(r#""hello""#.chars());
    assert_eq!(Ok(r#""hello""#.to_string()), parser.content());
}

#[test]
fn string_include_double_quote() {
    let mut parser = Parser::new(r#""hello\"""#.chars());
    assert_eq!(Ok(r#""hello\"""#.to_string()), parser.content());
}

#[test]
fn string_include_backslash() {
    let mut parser = Parser::new(r#""hello\\""#.chars());
    assert_eq!(Ok(r#""hello\\""#.to_string()), parser.content());
}

#[test]
fn string_include_backslash_and_double_quote() {
    let mut parser = Parser::new(r#""hello\\\"""#.chars());
    assert_eq!(Ok(r#""hello\\\"""#.to_string()), parser.content());
}

#[test]
fn num_like_simple() {
    let mut parser = Parser::new(r#"123"#.chars());
    assert_eq!(Ok(r#"123"#.to_string()), parser.content());
}

#[test]
fn num_like_simple_with_dot() {
    let mut parser = Parser::new(r#"123.456"#.chars());
    assert_eq!(Ok(r#"123.456"#.to_string()), parser.content());
}

#[test]
fn num_like_simple_with_dot_and_e() {
    let mut parser = Parser::new(r#"123.456e7"#.chars());
    assert_eq!(Ok(r#"123.456e7"#.to_string()), parser.content());
}

#[test]
fn num_like_simple_with_dot_and_e_and_minus() {
    let mut parser = Parser::new(r#"123.456e-7"#.chars());
    assert_eq!(Ok(r#"123.456e-7"#.to_string()), parser.content());
}

#[test]
fn num_like_simple_with_dot_and_e_and_minus_and_plus() {
    let mut parser = Parser::new(r#"123.456e-7+"#.chars());
    assert_eq!(Ok(r#"123.456e-7+"#.to_string()), parser.content());
}

#[test]
fn num_like_true() {
    let mut parser = Parser::new(r#"true"#.chars());
    assert_eq!(Ok(r#"true"#.to_string()), parser.content());
}

#[test]
fn num_like_false() {
    let mut parser = Parser::new(r#"false"#.chars());
    assert_eq!(Ok(r#"false"#.to_string()), parser.content());
}

#[test]
fn num_like_null() {
    let mut parser = Parser::new(r#"null"#.chars());
    assert_eq!(Ok(r#"null"#.to_string()), parser.content());
}

#[test]
#[should_panic(expected = "unexpected char: \"")]
fn num_like_fail_with_double_quote() {
    let mut parser = Parser::new(r#"tr"ue"#.chars());
    if let Err(e) = parser.content() {
        panic!("{}", e.message());
    }
}

#[test]
#[should_panic(expected = "unexpected char: [")]
fn num_like_fail_with_left_bracket() {
    let mut parser = Parser::new(r#"tr[ue"#.chars());
    if let Err(e) = parser.content() {
        panic!("{}", e.message());
    }
}

#[test]
fn array_simple() {
    let mut parser = Parser::new(r#"[1,"x",null]"#.chars());
    assert_eq!(Ok(r#"[1,"x",null]"#.to_string()), parser.content());
}

#[test]
fn array_with_space() {
    let mut parser = Parser::new(r#"[1, "x", null]"#.chars());
    assert_eq!(Ok(r#"[1, "x", null]"#.to_string()), parser.content());
}

#[test]
fn array_nested() {
    let mut parser = Parser::new(r#"[1,[2,3],null]"#.chars());
    assert_eq!(Ok(r#"[1,[2,3],null]"#.to_string()), parser.content());
}

#[test]
fn object_simple() {
    let mut parser = Parser::new(r#"{"a":1}"#.chars());
    assert_eq!(Ok(r#"{"a":1}"#.to_string()), parser.content());
}

#[test]
fn object_simple_with_space() {
    let mut parser = Parser::new(r#"{"a": 1}"#.chars());
    assert_eq!(Ok(r#"{"a": 1}"#.to_string()), parser.content());
}

#[test]
fn object_simple_with_many_space() {
    let mut parser = Parser::new(r#"{
    "a" : 1 }"#.chars());
    assert_eq!(Ok(r#"{
    "a" : 1 }"#.to_string()), parser.content());
}

#[test]
fn object_nested() {
    let mut parser = Parser::new(r#"{"a":{"b":1}}"#.chars());
    assert_eq!(Ok(r#"{"a":{"b":1}}"#.to_string()), parser.content());
}

#[test]
fn object_nested_with_space() {
    let mut parser = Parser::new(r#"{
    "a" : {
        "b" : 1
    }
}"#.chars());
    assert_eq!(Ok(r#"{
    "a" : {
        "b" : 1
    }
}"#.to_string()), parser.content());
}

#[test]
fn object_with_comma() {
    let mut parser = Parser::new(r#"{"a":1, "b":2}"#.chars());
    assert_eq!(Ok(r#"{"a":1, "b":2}"#.to_string()), parser.content());
}

fn walk(text: &str) -> Result<String, ParseError> {
    Parser::new(text.chars()).content()
}

#[test]
fn value_stops_where_it_ends() {
    let mut parser = Parser::new("[1] rest".chars());
    assert_eq!(Ok("[1]".to_string()), parser.content());
    assert_eq!(Err(ParseError::UnexpectedChar('r')), parser.trailing());
}

#[test]
fn spaces_before_a_value_are_handed_on_once() {
    assert_eq!(Ok("   7".to_string()), walk("   7"));
    assert_eq!(Ok("[1,  2]".to_string()), walk("[1,  2]"));
}

#[test]
fn only_the_space_may_stand_before_a_value() {
    assert_eq!(Err(ParseError::UnexpectedChar('\n')), walk("\n7"));
    assert_eq!(Err(ParseError::UnexpectedChar('\t')), walk("\t7"));
    assert_eq!(Err(ParseError::UnexpectedChar('\r')), walk("\r7"));
    assert_eq!(Ok("[\n[\n1]]".to_string()), walk("[\n[\n1]]"));
    assert_eq!(Ok("[1\n,2\n]".to_string()), walk("[1\n,2\n]"));
}

#[test]
fn whitespace_behind_a_comma_in_an_array_is_handed_on() {
    assert_eq!(Ok("[1,\n2]".to_string()), walk("[1,\n2]"));
    assert_eq!(Ok("[\n  1,\n  2,\r\n\t3\n]".to_string()), walk("[\n  1,\n  2,\r\n\t3\n]"));
    assert_eq!(Ok("[1,]".to_string()), walk("[1,]"));
    assert_eq!(Ok("[,1,,2]".to_string()), walk("[,1,,2]"));
    let mut parser = Parser::new("1,\n2]".chars());
    assert_eq!(Ok("1,\n2]".to_string()), parser.array());
}

#[test]
fn a_token_does_not_start_with_a_capital_e() {
    assert_eq!(Err(ParseError::UnexpectedChar('E')), walk("E5"));
    assert_eq!(Err(ParseError::UnexpectedChar('E')), walk("[E]"));
    assert_eq!(Ok("1E5".to_string()), walk("1E5"));
    assert_eq!(Ok("eE".to_string()), walk("eE"));
}

#[test]
fn nothing_to_read_is_no_failure() {
    assert_eq!(Ok("".to_string()), walk(""));
    assert_eq!(Ok("  ".to_string()), walk("  "));
}

#[test]
fn unexpected_characters_are_named() {
    assert_eq!(Err(ParseError::UnexpectedChar('?')), walk("?"));
    assert_eq!(Err(ParseError::UnexpectedChar('T')), walk("True"));
    assert_eq!(Err(ParseError::UnexpectedChar('}')), walk("{ }"));
    assert_eq!(Err(ParseError::UnexpectedChar('1')), walk("{1:2}"));
    assert_eq!(Err(ParseError::UnexpectedChar('=')), walk(r#"{"a"=1}"#));
    assert_eq!(Err(ParseError::UnexpectedChar(';')), walk(r#"{"a":1;"b":2}"#));
    assert_eq!(Err(ParseError::UnexpectedChar('}')), walk(r#"{"a":1,}"#));
    assert_eq!(Err(ParseError::UnexpectedChar('}')), walk(r#"{"a":}"#));
    assert_eq!(Err(ParseError::UnexpectedChar(':')), walk("12:3"));
}

#[test]
fn the_end_inside_a_structure_is_a_failure() {
    assert_eq!(Err(ParseError::UnexpectedEnd), walk("{"));
    assert_eq!(Err(ParseError::UnexpectedEnd), walk("["));
    assert_eq!(Err(ParseError::UnexpectedEnd), walk("[1,"));
    assert_eq!(Err(ParseError::UnexpectedEnd), walk("[1"));
    assert_eq!(Err(ParseError::UnexpectedEnd), walk(r#""abc"#));
    assert_eq!(Err(ParseError::UnexpectedEnd), walk(r#""abc\""#));
    assert_eq!(Err(ParseError::UnexpectedEnd), walk(r#"{"a"#));
    assert_eq!(Err(ParseError::UnexpectedEnd), walk(r#"{"a""#));
    assert_eq!(Err(ParseError::UnexpectedEnd), walk(r#"{"a": "#));
    assert_eq!(Err(ParseError::UnexpectedEnd), walk(r#"{"a":1"#));
    assert_eq!(Err(ParseError::UnexpectedEnd), walk(r#"{"a":1, "#));
    assert_eq!(Err(ParseError::UnexpectedEnd), walk(r#"{"version":"0.1.0"#));
    assert_eq!(Err(ParseError::UnexpectedEnd), walk(r#"{"version""#));
}

#[test]
fn empty_object_and_array() {
    assert_eq!(Ok("{}".to_string()), walk("{}"));
    assert_eq!(Ok("[]".to_string()), walk("[]"));
    assert_eq!(Ok("[ ]".to_string()), walk("[ ]"));
    assert_eq!(Ok(r#"{"a":{},"b":[]}"#.to_string()), walk(r#"{"a":{},"b":[]}"#));
}

#[test]
fn a_token_ends_at_a_terminator() {
    let mut parser = Parser::new("12,3".chars());
    assert_eq!(Ok("12".to_string()), parser.content());
    let mut parser = Parser::new("-1.5E+3}".chars());
    assert_eq!(Ok("-1.5E+3".to_string()), parser.content());
    let mut parser = Parser::new("null\t".chars());
    assert_eq!(Ok("null".to_string()), parser.content());
}

#[test]
fn an_escaped_backslash_escapes_nothing() {
    let mut parser = Parser::new(r#""a\\"b""#.chars());
    assert_eq!(Ok(r#""a\\""#.to_string()), parser.content());
}

#[test]
fn steps_can_be_taken_one_by_one() {
    let mut parser = Parser::new(r#"abc" tail"#.chars());
    assert_eq!(Ok(r#"abc""#.to_string()), parser.string());
    let mut parser = Parser::new("23]".chars());
    assert_eq!(Ok("23".to_string()), parser.num_like());
    let mut parser = Parser::new(r#""a":1}"#.chars());
    assert_eq!(Ok(r#""a":1}"#.to_string()), parser.object());
    let mut parser = Parser::new("1,2]".chars());
    assert_eq!(Ok("1,2]".to_string()), parser.array());
    let mut parser = Parser::new(r#" "a" : [1] ,"#.chars());
    assert_eq!(Ok(r#" "a" : [1]"#.to_string()), parser.object_body());
    let mut parser = Parser::new(" \n\t\r".chars());
    assert_eq!(Ok(" \n\t\r".to_string()), parser.trailing());
}

#[test]
fn a_version_in_an_object_inside_an_array_is_handed_on() {
    assert_eq!(
        Ok(r#"[{"version":"1.0.0"}]"#.to_string()),
        walk(r#"[{"version":"1.0.0"}]"#)
    );
}

#[test]
fn whitespace_is_told_apart() {
    assert!(verbump::parser::is_whitespace(' '));
    assert!(verbump::parser::is_whitespace('\t'));
    assert!(verbump::parser::is_whitespace('\n'));
    assert!(verbump::parser::is_whitespace('\r'));
    assert!(!verbump::parser::is_whitespace('x'));
    assert!(!verbump::parser::is_whitespace('\u{a0}'));
}
