use nom_lua::ast::ASTNode;
use nom_lua::error::ParseFailure;
use nom_lua::string::{
    parse_byte, parse_byte_d, parse_byte_x, parse_control, parse_item, parse_linebreak,
    parse_string, parse_string_short_literal, parse_unicode,
};

#[test]
fn test_parse_unicode_1() {
    assert_eq!(parse_unicode(r#"\u{}"#.as_bytes()), Err(ParseFailure::SyntaxMismatch));
}

#[test]
fn test_parse_unicode_2() {
    assert_eq!(parse_unicode(r#"\u{A}"#.as_bytes()).unwrap().1, '\u{A}');
}

#[test]
fn test_parse_unicode_3() {
    assert_eq!(parse_unicode(r#"\u{a2}"#.as_bytes()).unwrap().1, '\u{a2}');
}

#[test]
fn test_parse_unicode_4() {
    assert_eq!(parse_unicode(r#"\u{AFf9}"#.as_bytes()).unwrap().1, '\u{AFf9}');
}

#[test]
fn test_parse_unicode_5() {
    assert_eq!(parse_unicode(r#"\u{0000000000000FFFF}"#.as_bytes()).unwrap().1, '\u{FFFF}');
}

#[test]
fn test_parse_unicode_6() {
    assert_eq!(parse_unicode(r#"\u{10FFFF}"#.as_bytes()).unwrap().1, '\u{10FFFF}');
}

#[test]
fn test_parse_unicode_7() {
    assert_eq!(parse_unicode(r#"\u{110000}"#.as_bytes()), Err(ParseFailure::MalformedLiteral));
}

#[test]
fn test_parse_unicode_surrogate_is_malformed() {
    assert_eq!(parse_unicode(r#"\u{D800}"#.as_bytes()), Err(ParseFailure::MalformedLiteral));
    assert_eq!(parse_unicode(r#"\u{DFFF}"#.as_bytes()), Err(ParseFailure::MalformedLiteral));
    assert_eq!(parse_unicode(r#"\u{D7FF}"#.as_bytes()).unwrap().1, '\u{D7FF}');
    assert_eq!(parse_unicode(r#"\u{E000}"#.as_bytes()).unwrap().1, '\u{E000}');
}

#[test]
fn test_parse_unicode_huge_is_malformed() {
    assert_eq!(
        parse_unicode(r#"\u{FFFFFFFFFFFFFFFFFFFFFFFFFFFFFFFFFFFF}"#.as_bytes()),
        Err(ParseFailure::MalformedLiteral)
    );
}

#[test]
fn test_parse_unicode_unfinished() {
    assert_eq!(parse_unicode(r#"\u{41"#.as_bytes()), Err(ParseFailure::IncompleteInput));
    assert_eq!(parse_unicode(r#"\u"#.as_bytes()), Err(ParseFailure::IncompleteInput));
    assert_eq!(parse_unicode(r#"\u{41)"#.as_bytes()), Err(ParseFailure::SyntaxMismatch));
}

#[test]
fn test_parse_unicode_leaves_the_rest() {
    assert_eq!(parse_unicode(r#"\u{41}z"#.as_bytes()).unwrap(), ("z".as_bytes(), 'A'));
}

#[test]
fn test_parse_byte_d_1() {
    assert_eq!(parse_byte_d(r#"\0"#.as_bytes()).unwrap().1, '\0');
}

#[test]
fn test_parse_byte_d_2() {
    assert_eq!(parse_byte_d(r#"\00"#.as_bytes()).unwrap().1, '\0');
}

#[test]
fn test_parse_byte_d_3() {
    assert_eq!(parse_byte_d(r#"\000"#.as_bytes()).unwrap().1, '\0');
}

#[test]
fn test_parse_byte_d_4() {
    // Three digits at most belong to the escape.
    assert_eq!(parse_byte_d(r#"\0000"#.as_bytes()).unwrap(), ("0".as_bytes(), '\0'));
}

#[test]
fn test_parse_byte_d_5() {
    assert_eq!(parse_byte_d(r#"\230"#.as_bytes()).unwrap().1, '\u{E6}');
}

#[test]
fn test_parse_byte_d_6() {
    assert_eq!(parse_byte_d(r#"\256"#.as_bytes()), Err(ParseFailure::MalformedLiteral));
}

#[test]
fn test_parse_byte_d_largest() {
    assert_eq!(parse_byte_d(r#"\255"#.as_bytes()).unwrap().1, '\u{FF}');
}

#[test]
fn test_parse_byte_d_needs_a_digit() {
    assert_eq!(parse_byte_d(r#"\"#.as_bytes()), Err(ParseFailure::IncompleteInput));
    assert_eq!(parse_byte_d(r#"\q"#.as_bytes()), Err(ParseFailure::SyntaxMismatch));
}

#[test]
fn test_parse_byte_x_1() {
    assert_eq!(parse_byte_x(r#"\x00"#.as_bytes()).unwrap().1, '\0');
}

#[test]
fn test_parse_byte_x_2() {
    assert_eq!(parse_byte_x(r#"\x0a0"#.as_bytes()).unwrap(), ("0".as_bytes(), '\x0a'));
}

#[test]
fn test_parse_byte_x_3() {
    assert_eq!(parse_byte_x(r#"\x23"#.as_bytes()).unwrap().1, '\u{23}');
}

#[test]
fn test_parse_byte_x_4() {
    // Exactly two digits belong to the escape.
    assert_eq!(parse_byte_x(r#"\x000023"#.as_bytes()).unwrap(), ("0023".as_bytes(), '\0'));
}

#[test]
fn test_parse_byte_x_5() {
    assert_eq!(parse_byte_x(r#"\xFf"#.as_bytes()).unwrap().1, '\u{FF}');
}

#[test]
fn test_parse_byte_x_needs_two_digits() {
    assert_eq!(parse_byte_x(r#"\x4"#.as_bytes()), Err(ParseFailure::IncompleteInput));
    assert_eq!(parse_byte_x(r#"\x"#.as_bytes()), Err(ParseFailure::IncompleteInput));
    assert_eq!(parse_byte_x(r#"\x4g"#.as_bytes()), Err(ParseFailure::SyntaxMismatch));
    assert_eq!(parse_byte_x(r#"\y41"#.as_bytes()), Err(ParseFailure::SyntaxMismatch));
}

#[test]
fn test_parse_byte_either_form() {
    assert_eq!(parse_byte(r#"\x41"#.as_bytes()).unwrap().1, 'A');
    assert_eq!(parse_byte(r#"\65"#.as_bytes()).unwrap().1, 'A');
    assert_eq!(parse_byte(r#"\999"#.as_bytes()), Err(ParseFailure::MalformedLiteral));
}

#[test]
fn test_parse_linebreak_forms() {
    assert_eq!(parse_linebreak("\\\r\nx".as_bytes()).unwrap(), ("x".as_bytes(), '\n'));
    assert_eq!(parse_linebreak("\\\n\rx".as_bytes()).unwrap(), ("x".as_bytes(), '\n'));
    assert_eq!(parse_linebreak("\\\nx".as_bytes()).unwrap(), ("x".as_bytes(), '\n'));
    assert_eq!(parse_linebreak("\\\rx".as_bytes()), Err(ParseFailure::SyntaxMismatch));
    assert_eq!(parse_linebreak("\\".as_bytes()), Err(ParseFailure::IncompleteInput));
}

#[test]
fn test_parse_control_range() {
    assert_eq!(parse_control("\x07".as_bytes()).unwrap().1, '\x07');
    assert_eq!(parse_control("\x0D".as_bytes()).unwrap().1, '\x0D');
    assert_eq!(parse_control("\x06".as_bytes()), Err(ParseFailure::SyntaxMismatch));
    assert_eq!(parse_control("\x0E".as_bytes()), Err(ParseFailure::SyntaxMismatch));
    assert_eq!(parse_control("".as_bytes()), Err(ParseFailure::IncompleteInput));
}

#[test]
fn test_parse_item_takes_the_weightiest_failure() {
    assert_eq!(parse_item(r#"\256"#.as_bytes()), Err(ParseFailure::MalformedLiteral));
    assert_eq!(parse_item("a".as_bytes()), Err(ParseFailure::SyntaxMismatch));
    assert_eq!(parse_item("".as_bytes()), Err(ParseFailure::IncompleteInput));
}

#[test]
fn test_parse_string_short_literal_1() {
    assert_eq!(parse_string_short_literal(r#""""#.as_bytes()).unwrap().1, "");
}

#[test]
fn test_parse_string_short_literal_2() {
    assert_eq!(parse_string_short_literal(r#"''"#.as_bytes()).unwrap().1, "");
}

#[test]
fn test_parse_string_short_literal_3() {
    let text = parse_string_short_literal(r#"'\u{1F62A}'"#.as_bytes()).unwrap().1;
    assert_eq!(text.chars().count(), 1);
    assert_eq!(text.chars().next(), Some('\u{1F62A}'));
}

#[test]
fn test_parse_string_short_literal_4() {
    assert_eq!(parse_string_short_literal(r#"'\097'"#.as_bytes()).unwrap().1, "a");
}

#[test]
fn test_parse_string_short_literal_5() {
    let source = format!("'{}'", "\x07\x08\x09\x0A\x0B\x0C\x0D");
    assert_eq!(
        parse_string_short_literal(source.as_bytes()).unwrap().1,
        "\x07\x08\x09\x0A\x0B\x0C\x0D"
    );
}

#[test]
fn test_parse_string_short_literal_6() {
    assert_eq!(parse_string_short_literal("'\\\n\r'".as_bytes()).unwrap().1, "\n");
}

#[test]
fn test_parse_string_short_literal_7() {
    assert_eq!(parse_string_short_literal("'\\\r\n'".as_bytes()).unwrap().1, "\n");
}

#[test]
fn test_parse_string_short_literal_8() {
    assert_eq!(parse_string_short_literal("'\\\n'".as_bytes()).unwrap().1, "\n");
}

#[test]
fn test_parse_string_short_literal_quotes_must_match() {
    assert_eq!(
        parse_string_short_literal(r#"'\65""#.as_bytes()),
        Err(ParseFailure::SyntaxMismatch)
    );
    assert_eq!(parse_string_short_literal(r#""\65""#.as_bytes()).unwrap().1, "A");
}

#[test]
fn test_parse_string_short_literal_unterminated() {
    assert_eq!(
        parse_string_short_literal(r#"'\65"#.as_bytes()),
        Err(ParseFailure::IncompleteInput)
    );
    assert_eq!(parse_string_short_literal("'".as_bytes()), Err(ParseFailure::IncompleteInput));
}

#[test]
fn test_parse_string_short_literal_malformed_escape() {
    assert_eq!(
        parse_string_short_literal(r#"'\65\256'"#.as_bytes()),
        Err(ParseFailure::MalformedLiteral)
    );
    assert_eq!(
        parse_string_short_literal(r#"'\u{110000}'"#.as_bytes()),
        Err(ParseFailure::MalformedLiteral)
    );
}

#[test]
fn test_parse_string_short_literal_several_escapes() {
    let (rest, text) = parse_string_short_literal(r#""\72\x65\u{6C}\108\x6F" .. x"#.as_bytes())
        .unwrap();
    assert_eq!(text, "Hello");
    assert_eq!(rest, " .. x".as_bytes());
}

#[test]
fn test_parse_string_no_quote() {
    assert_eq!(parse_string_short_literal("x".as_bytes()), Err(ParseFailure::SyntaxMismatch));
    assert_eq!(parse_string_short_literal("".as_bytes()), Err(ParseFailure::IncompleteInput));
}

#[test]
fn test_parse_string_node() {
    assert_eq!(
        parse_string(r#"'\097'"#.as_bytes()).unwrap().1,
        ASTNode::String("a".to_string())
    );
}
