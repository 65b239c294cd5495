use nom_lua::ast::ASTNode;
use nom_lua::ast::ASTNode::{
    Bool, EmptyStatement, ExpList, Float, Goto, Label, Name, RetStat,
};
use nom_lua::error::ParseFailure;
use nom_lua::statement::{
    parse_goto, parse_retstat, parse_semicolon_statement, parse_statement,
};

fn b<T>(node: T) -> Box<T> {
    Box::new(node)
}

#[test]
fn parse_semicolon() {
    assert_eq!(parse_semicolon_statement(";".as_bytes()).unwrap().1, EmptyStatement);
    assert_eq!(
        parse_semicolon_statement(" ; x".as_bytes()).unwrap(),
        ("x".as_bytes(), EmptyStatement)
    );
}

#[test]
fn parse_goto_1() {
    assert_eq!(
        parse_goto("goto valid".as_bytes()).unwrap().1,
        Goto(b(Name("valid".into())))
    );
}

#[test]
fn parse_goto_2() {
    assert_eq!(parse_goto("goto 17".as_bytes()), Err(ParseFailure::SyntaxMismatch));
}

#[test]
fn parse_goto_3() {
    assert_eq!(parse_goto("got 17".as_bytes()), Err(ParseFailure::SyntaxMismatch));
}

#[test]
fn parse_goto_is_a_whole_word() {
    assert_eq!(parse_goto("gotovalid".as_bytes()), Err(ParseFailure::SyntaxMismatch));
    assert_eq!(parse_goto("goto".as_bytes()), Err(ParseFailure::IncompleteInput));
}

#[test]
fn parse_statement_each() {
    assert_eq!(parse_statement(" ;".as_bytes()).unwrap().1, EmptyStatement);
    assert_eq!(parse_statement("::a::".as_bytes()).unwrap().1, Label("a".into()));
    assert_eq!(parse_statement("goto a".as_bytes()).unwrap().1, Goto(b(Name("a".into()))));
    assert_eq!(parse_statement("x = 1".as_bytes()), Err(ParseFailure::SyntaxMismatch));
}

#[test]
fn parse_retstat_1() {
    assert_eq!(
        parse_retstat("return false,true ;".as_bytes()).unwrap().1,
        RetStat(b(Some(ExpList(vec![Bool(false), Bool(true)]))))
    );
}

#[test]
fn parse_retstat_2() {
    assert_eq!(
        parse_retstat("return 1.0".as_bytes()).unwrap().1,
        RetStat(b(Some(ExpList(vec![Float("1.0".to_string())]))))
    );
}

#[test]
fn parse_retstat_3() {
    assert_eq!(parse_retstat("return".as_bytes()).unwrap().1, RetStat(b(None)));
}

#[test]
fn parse_retstat_is_a_whole_word() {
    assert_eq!(parse_retstat("returned".as_bytes()), Err(ParseFailure::SyntaxMismatch));
    assert_eq!(
        parse_retstat("return;x".as_bytes()).unwrap(),
        ("x".as_bytes(), RetStat(b(None)))
    );
}

#[test]
fn statement_nodes_compare() {
    let node: ASTNode = EmptyStatement;
    assert_ne!(node, ASTNode::Break);
}

#[test]
fn failures_describe_themselves() {
    assert_eq!(ParseFailure::SyntaxMismatch.message(), "syntax mismatch");
    assert_eq!(ParseFailure::MalformedLiteral.message(), "malformed literal");
    assert_eq!(ParseFailure::IncompleteInput.message(), "incomplete input");
}

#[test]
fn failures_join_to_the_weightier() {
    let m = ParseFailure::SyntaxMismatch;
    let i = ParseFailure::IncompleteInput;
    let l = ParseFailure::MalformedLiteral;
    assert_eq!(m.join(m), m);
    assert_eq!(m.join(i), i);
    assert_eq!(i.join(m), i);
    assert_eq!(i.join(l), l);
    assert_eq!(l.join(i), l);
    assert_eq!(m.join(l), l);
    assert_eq!(l.join(m), l);
}
