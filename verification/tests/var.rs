use nom_lua::ast::ASTNode;
use nom_lua::ast::ASTNode::{
    Add, Bool, Integer, Name, PrefixExp, Var, VarList, VarListAccess, VarPrefixed,
};
use nom_lua::error::ParseFailure;
use nom_lua::var::{parse_index, parse_member, parse_var, parse_varlist};

fn b<T>(node: T) -> Box<T> {
    Box::new(node)
}

fn name(text: &str) -> ASTNode {
    Name(text.to_string())
}

#[test]
fn parse_var_1() {
    assert_eq!(parse_var("ayy".as_bytes()).unwrap().1, Var(b(name("ayy"))));
}

#[test]
fn parse_var_2() {
    assert_eq!(
        parse_var("ayy [ true ]".as_bytes()).unwrap().1,
        VarPrefixed(b(PrefixExp(b(Var(b(name("ayy")))))), b(Bool(true)))
    );
}

#[test]
fn parse_var_3() {
    assert_eq!(
        parse_var("ayy.zxc".as_bytes()).unwrap().1,
        VarListAccess(b(PrefixExp(b(Var(b(name("ayy")))))), b(name("zxc")))
    );
}

#[test]
fn parse_var_takes_one_step() {
    assert_eq!(
        parse_var("a.b.c".as_bytes()).unwrap(),
        (".c".as_bytes(), VarListAccess(b(PrefixExp(b(Var(b(name("a")))))), b(name("b"))))
    );
    assert_eq!(
        parse_var("a[1 + 2][3]".as_bytes()).unwrap(),
        (
            "[3]".as_bytes(),
            VarPrefixed(b(PrefixExp(b(Var(b(name("a")))))), b(Add(b(Integer(1)), b(Integer(2)))))
        )
    );
}

#[test]
fn parse_var_keeps_white_space_after_a_plain_name() {
    assert_eq!(parse_var("a  + 1".as_bytes()).unwrap(), ("  + 1".as_bytes(), Var(b(name("a")))));
    assert_eq!(parse_var("a .. b".as_bytes()).unwrap(), (" .. b".as_bytes(), Var(b(name("a")))));
}

#[test]
fn parse_var_failures() {
    assert_eq!(parse_var("3".as_bytes()), Err(ParseFailure::SyntaxMismatch));
    assert_eq!(parse_var("end".as_bytes()), Err(ParseFailure::SyntaxMismatch));
    assert_eq!(parse_var("".as_bytes()), Err(ParseFailure::IncompleteInput));
}

#[test]
fn parse_index_and_member() {
    assert_eq!(parse_index(" [ 1 ]x".as_bytes()).unwrap(), ("x".as_bytes(), Integer(1)));
    assert_eq!(parse_index("[1".as_bytes()), Err(ParseFailure::IncompleteInput));
    assert_eq!(parse_member(" . x y".as_bytes()).unwrap(), (" y".as_bytes(), name("x")));
    assert_eq!(parse_member(".1".as_bytes()), Err(ParseFailure::SyntaxMismatch));
}

#[test]
fn parse_varlist_1() {
    assert_eq!(parse_varlist("xcz".as_bytes()).unwrap().1, VarList(vec![Var(b(name("xcz")))]));
}

#[test]
fn parse_varlist_2() {
    assert_eq!(
        parse_varlist("xcz , mcx".as_bytes()).unwrap().1,
        VarList(vec![Var(b(name("xcz"))), Var(b(name("mcx")))])
    );
}

#[test]
fn parse_varlist_3() {
    assert_eq!(
        parse_varlist("lak , k, jd3".as_bytes()).unwrap().1,
        VarList(vec![Var(b(name("lak"))), Var(b(name("k"))), Var(b(name("jd3")))])
    );
}
