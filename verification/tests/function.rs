use nom_lua::ast::ASTNode;
use nom_lua::ast::ASTNode::{
    Block, EmptyStatement, ExpList, Float, Function, FunctionBody, FunctionName, Label, Name,
    NameList, NamedFunction, ParameterList, RetStat,
};
use nom_lua::error::ParseFailure;
use nom_lua::function::{
    parse_block, parse_funcbody, parse_funcname, parse_functiondef, parse_local_function,
    parse_method, parse_multiname, parse_parlist,
};

fn b<T>(node: T) -> Box<T> {
    Box::new(node)
}

fn name(text: &str) -> ASTNode {
    Name(text.to_string())
}

#[test]
fn parse_parlist_1() {
    assert_eq!(parse_parlist("...".as_bytes()).unwrap().1, ParameterList(b(None), true));
}

#[test]
fn parse_parlist_2() {
    assert_eq!(parse_parlist("".as_bytes()).unwrap().1, ParameterList(b(None), false));
}

#[test]
fn parse_parlist_3() {
    assert_eq!(
        parse_parlist("name , ...".as_bytes()).unwrap().1,
        ParameterList(b(Some(NameList(vec![name("name")]))), true)
    );
}

#[test]
fn parse_parlist_5() {
    assert_eq!(
        parse_parlist("a,b".as_bytes()).unwrap().1,
        ParameterList(b(Some(NameList(vec![name("a"), name("b")]))), false)
    );
}

#[test]
fn parse_block_1() {
    assert_eq!(parse_block("".as_bytes()).unwrap().1, Block(vec![], b(None)));
}

#[test]
fn parse_block_2() {
    assert_eq!(
        parse_block("::a::".as_bytes()).unwrap().1,
        Block(vec![Label("a".into())], b(None))
    );
}

#[test]
fn parse_block_3() {
    assert_eq!(
        parse_block("::b:: return 1.0".as_bytes()).unwrap().1,
        Block(
            vec![Label("b".into())],
            b(Some(RetStat(b(Some(ExpList(vec![Float("1.0".to_string())]))))))
        )
    );
}

#[test]
fn parse_block_reads_what_it_can() {
    assert_eq!(
        parse_block("; ; x".as_bytes()).unwrap(),
        ("x".as_bytes(), Block(vec![EmptyStatement, EmptyStatement], b(None)))
    );
}

#[test]
fn parse_funcbody_1() {
    assert_eq!(
        parse_funcbody("( a, b ) ; end".as_bytes()).unwrap().1,
        FunctionBody(
            b(Some(ParameterList(b(Some(NameList(vec![name("a"), name("b")]))), false))),
            b(Block(vec![EmptyStatement], b(None)))
        )
    );
}

#[test]
fn parse_funcbody_needs_end() {
    assert_eq!(parse_funcbody("() ;".as_bytes()), Err(ParseFailure::IncompleteInput));
    assert_eq!(parse_funcbody("() ; en".as_bytes()), Err(ParseFailure::IncompleteInput));
    assert_eq!(parse_funcbody("() ; ending".as_bytes()), Err(ParseFailure::SyntaxMismatch));
    assert_eq!(parse_funcbody("(1) end".as_bytes()), Err(ParseFailure::SyntaxMismatch));
}

#[test]
fn parse_functiondef_1() {
    assert_eq!(
        parse_functiondef("function (...) ; end".as_bytes()).unwrap().1,
        Function(b(FunctionBody(
            b(Some(ParameterList(b(None), true))),
            b(Block(vec![EmptyStatement], b(None)))
        )))
    );
}

#[test]
fn parse_local_function_1() {
    assert_eq!(
        parse_local_function("local function b() ; end".as_bytes()).unwrap().1,
        NamedFunction(
            b(name("b")),
            b(FunctionBody(
                b(Some(ParameterList(b(None), false))),
                b(Block(vec![EmptyStatement], b(None)))
            ))
        )
    );
}

#[test]
fn parse_funcname_1() {
    assert_eq!(
        parse_funcname("a".as_bytes()).unwrap().1,
        FunctionName(b(name("a")), None, None)
    );
}

#[test]
fn parse_funcname_2() {
    assert_eq!(
        parse_funcname("a.b".as_bytes()).unwrap().1,
        FunctionName(b(name("a")), Some(vec![name("b")]), None)
    );
}

#[test]
fn parse_funcname_3() {
    assert_eq!(
        parse_funcname("a. b . c".as_bytes()).unwrap().1,
        FunctionName(b(name("a")), Some(vec![name("b"), name("c")]), None)
    );
}

#[test]
fn parse_funcname_4() {
    assert_eq!(
        parse_funcname("a.b:c".as_bytes()).unwrap().1,
        FunctionName(b(name("a")), Some(vec![name("b")]), Some(b(name("c"))))
    );
}

#[test]
fn parse_multiname_and_method() {
    assert_eq!(
        parse_multiname(".a . b:c".as_bytes()),
        (":c".as_bytes(), vec![name("a"), name("b")])
    );
    assert_eq!(parse_multiname("a".as_bytes()), ("a".as_bytes(), vec![]));
    assert_eq!(parse_method(" : c".as_bytes()).unwrap().1, name("c"));
}
