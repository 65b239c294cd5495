use nom_lua::ast::ASTNode;
use nom_lua::ast::ASTNode::{
    Bool, FieldAssign, FieldList, FieldSingle, Integer, Name, Nil, PrefixExp, Var,
};
use nom_lua::error::ParseFailure;
use nom_lua::field::{parse_field, parse_fieldlist, parse_fieldsep};

fn b<T>(node: T) -> Box<T> {
    Box::new(node)
}

#[test]
fn parse_fieldsep_1() {
    assert!(parse_fieldsep(";".as_bytes()).is_ok());
}

#[test]
fn parse_fieldsep_2() {
    assert!(parse_fieldsep(",".as_bytes()).is_ok());
    assert_eq!(parse_fieldsep(".".as_bytes()), Err(ParseFailure::SyntaxMismatch));
}

#[test]
fn parse_field_assign_1() {
    assert_eq!(
        parse_field(" [ true ] = true ".as_bytes()).unwrap(),
        ("".as_bytes(), FieldAssign(b(Bool(true)), b(Bool(true))))
    );
}

#[test]
fn parse_field_assign_2() {
    assert_eq!(
        parse_field("[true]=nil".as_bytes()).unwrap().1,
        FieldAssign(b(Bool(true)), b(Nil))
    );
}

#[test]
fn parse_field_assign_3() {
    assert_eq!(
        parse_field("is=true".as_bytes()).unwrap().1,
        FieldAssign(b(Name("is".into())), b(Bool(true)))
    );
}

#[test]
fn parse_field_single_1() {
    assert_eq!(parse_field("true".as_bytes()).unwrap().1, FieldSingle(b(Bool(true))));
}

#[test]
fn parse_field_comparison_is_no_assignment() {
    assert_eq!(
        parse_field("x == 1".as_bytes()).unwrap().1,
        FieldSingle(b(ASTNode::Eq(b(PrefixExp(b(Var(b(Name("x".into())))))), b(Integer(1)))))
    );
}

#[test]
fn parse_field_failures() {
    assert_eq!(parse_field("".as_bytes()), Err(ParseFailure::IncompleteInput));
    assert_eq!(parse_field("=".as_bytes()), Err(ParseFailure::SyntaxMismatch));
}

#[test]
fn parse_fieldlist_1() {
    assert_eq!(
        parse_fieldlist("a = 1; [2] = 3, 4".as_bytes()).unwrap().1,
        FieldList(vec![
            FieldAssign(b(Name("a".into())), b(Integer(1))),
            FieldAssign(b(Integer(2)), b(Integer(3))),
            FieldSingle(b(Integer(4))),
        ])
    );
}
