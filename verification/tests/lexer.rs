use nom_lua::error::ParseFailure;
use nom_lua::lexer::{lex, parse_comment_until, parse_minus, parse_mlc, parse_symbol, parse_token, Token};

#[test]
fn parse_mlc_1() {
    assert_eq!(
        parse_mlc("--[[[ --[[[ ]-]]-- ]]]".as_bytes()).unwrap().1,
        Token::Comment(" --[[[ ]-]]-- ".as_bytes())
    );
}

#[test]
fn parse_mlc_leaves_the_closing_brackets() {
    assert_eq!(
        parse_mlc("--[[ a ]] b".as_bytes()).unwrap(),
        ("]] b".as_bytes(), Token::Comment(" a ".as_bytes()))
    );
}

#[test]
fn parse_mlc_failures() {
    assert_eq!(parse_mlc("--[[ a ] b".as_bytes()), Err(ParseFailure::IncompleteInput));
    assert_eq!(parse_mlc("-- a".as_bytes()), Err(ParseFailure::SyntaxMismatch));
    assert_eq!(parse_mlc("--".as_bytes()), Err(ParseFailure::IncompleteInput));
    assert_eq!(parse_mlc("-".as_bytes()), Err(ParseFailure::IncompleteInput));
    assert_eq!(parse_mlc("+".as_bytes()), Err(ParseFailure::SyntaxMismatch));
}

#[test]
fn parse_single_chars() {
    assert_eq!(
        lex("+-%".as_bytes()).unwrap().1,
        vec![Token::Plus, Token::Minus, Token::Mod]
    );
}

#[test]
fn lex_every_symbol() {
    let source = "+%{}()&^|;,#///*>>>=><<<=<:::~=;~;==;=......";
    assert_eq!(
        lex(source.as_bytes()).unwrap(),
        (
            "".as_bytes(),
            vec![
                Token::Plus,
                Token::Mod,
                Token::OpenBrace,
                Token::CloseBrace,
                Token::OpenParen,
                Token::CloseParen,
                Token::Band,
                Token::Pow,
                Token::Bor,
                Token::Semicolon,
                Token::Comma,
                Token::Hash,
                Token::Idiv,
                Token::Div,
                Token::Mul,
                Token::Rsh,
                Token::Gte,
                Token::Gt,
                Token::Lsh,
                Token::Lte,
                Token::Lt,
                Token::Label,
                Token::Colon,
                Token::Neq,
                Token::Semicolon,
                Token::Bnot,
                Token::Semicolon,
                Token::Eq,
                Token::Semicolon,
                Token::Assign,
                Token::DotDotDot,
                Token::DotDotDot,
            ]
        )
    );
    assert_eq!(
        lex(".. . -".as_bytes()).unwrap(),
        (" . -".as_bytes(), vec![Token::DotDot])
    );
    assert_eq!(lex(".-".as_bytes()).unwrap().1, vec![Token::Dot, Token::Minus]);
    // The longest symbol that matches is not looked for: the first in the
    // order is taken.
    assert_eq!(lex("~==".as_bytes()).unwrap().1, vec![Token::Neq, Token::Assign]);
}

#[test]
fn lex_stops_at_what_is_no_token() {
    assert_eq!(lex("+ -".as_bytes()).unwrap(), (" -".as_bytes(), vec![Token::Plus]));
    assert_eq!(lex("".as_bytes()).unwrap(), ("".as_bytes(), vec![]));
    assert_eq!(lex("a".as_bytes()).unwrap(), ("a".as_bytes(), vec![]));
}

#[test]
fn lex_comments() {
    assert_eq!(
        lex("+--note\n-".as_bytes()).unwrap(),
        ("\n-".as_bytes(), vec![Token::Plus, Token::Comment("note".as_bytes())])
    );
    assert_eq!(
        lex("--[[x]]".as_bytes()).unwrap(),
        ("]]".as_bytes(), vec![Token::Comment("x".as_bytes())])
    );
    // A comment of one line that no line break ends is two `-`.
    assert_eq!(
        lex("--x".as_bytes()).unwrap(),
        ("x".as_bytes(), vec![Token::Minus, Token::Minus])
    );
}

#[test]
fn parse_minus_each() {
    assert_eq!(parse_minus("-1".as_bytes()).unwrap(), ("1".as_bytes(), Token::Minus));
    assert_eq!(
        parse_minus("--a\nb".as_bytes()).unwrap(),
        ("\nb".as_bytes(), Token::Comment("a".as_bytes()))
    );
    assert_eq!(parse_minus("+".as_bytes()), Err(ParseFailure::SyntaxMismatch));
    assert_eq!(parse_minus("".as_bytes()), Err(ParseFailure::IncompleteInput));
}

#[test]
fn parse_symbol_and_token() {
    assert_eq!(parse_symbol("==".as_bytes()).unwrap().1, Token::Eq);
    assert_eq!(parse_symbol("=".as_bytes()).unwrap().1, Token::Assign);
    assert_eq!(parse_symbol("-".as_bytes()), Err(ParseFailure::SyntaxMismatch));
    assert_eq!(parse_token("-".as_bytes()).unwrap().1, Token::Minus);
    assert_eq!(parse_token("a".as_bytes()), Err(ParseFailure::SyntaxMismatch));
    assert_eq!(parse_token("".as_bytes()), Err(ParseFailure::IncompleteInput));
}

#[test]
fn parse_comment_until_run() {
    assert_eq!(
        parse_comment_until("ab]c]]d".as_bytes(), b']', 2).unwrap(),
        ("]]d".as_bytes(), Token::Comment("ab]c".as_bytes()))
    );
    assert_eq!(
        parse_comment_until("ab]c".as_bytes(), b']', 2),
        Err(ParseFailure::IncompleteInput)
    );
    assert_eq!(
        parse_comment_until("".as_bytes(), b'\n', 1),
        Err(ParseFailure::IncompleteInput)
    );
}
