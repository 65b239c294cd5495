use nom_lua::ast::ASTNode;
use nom_lua::error::ParseFailure;
use nom_lua::name::{
    parse_comma, parse_label, parse_name, parse_namelist, parse_valid_name, reserved,
};

fn name(text: &str) -> ASTNode {
    ASTNode::Name(text.to_string())
}

#[test]
fn parse_valid_name_1() {
    assert_eq!(parse_valid_name("il".as_bytes()).unwrap().1, "il".to_string());
}

#[test]
fn parse_valid_name_2() {
    assert_eq!(parse_valid_name("_il3".as_bytes()).unwrap().1, "_il3".to_string());
}

#[test]
fn parse_valid_name_3() {
    assert_eq!(parse_valid_name("3lc_".as_bytes()), Err(ParseFailure::SyntaxMismatch));
}

#[test]
fn parse_valid_name_4() {
    assert_eq!(parse_valid_name("not".as_bytes()), Err(ParseFailure::SyntaxMismatch));
}

#[test]
fn parse_valid_name_every_reserved_word() {
    for word in [
        "and", "break", "do", "else", "elseif", "end", "false", "for", "function", "goto", "if",
        "in", "local", "nil", "not", "or", "repeat", "return", "then", "true", "until", "while",
    ] {
        assert!(reserved(word.as_bytes()));
        assert_eq!(parse_valid_name(word.as_bytes()), Err(ParseFailure::SyntaxMismatch));
        let longer = format!("{}_", word);
        assert!(!reserved(longer.as_bytes()));
        assert_eq!(parse_valid_name(longer.as_bytes()).unwrap().1, longer);
    }
}

#[test]
fn parse_valid_name_may_begin_like_a_reserved_word() {
    assert_eq!(parse_valid_name("notify".as_bytes()).unwrap().1, "notify");
    assert_eq!(parse_valid_name("order".as_bytes()).unwrap().1, "order");
    assert_eq!(parse_valid_name("index".as_bytes()).unwrap().1, "index");
}

#[test]
fn parse_valid_name_stops_at_other_bytes() {
    assert_eq!(
        parse_valid_name("a_1B2__c9-x".as_bytes()).unwrap(),
        ("-x".as_bytes(), "a_1B2__c9".to_string())
    );
    assert_eq!(parse_valid_name("not ".as_bytes()), Err(ParseFailure::SyntaxMismatch));
}

#[test]
fn parse_valid_name_empty_is_incomplete() {
    assert_eq!(parse_valid_name("".as_bytes()), Err(ParseFailure::IncompleteInput));
}

#[test]
fn parse_name_1() {
    assert_eq!(parse_name("_il3".as_bytes()).unwrap().1, name("_il3"));
    assert_eq!(parse_name("not".as_bytes()), Err(ParseFailure::SyntaxMismatch));
}

#[test]
fn parse_label_1() {
    assert_eq!(parse_label("::il::".as_bytes()).unwrap().1, ASTNode::Label("il".into()));
}

#[test]
fn parse_label_2() {
    assert_eq!(parse_label(":: z ::".as_bytes()).unwrap().1, ASTNode::Label("z".into()));
}

#[test]
fn parse_label_unfinished() {
    assert_eq!(parse_label("::il:".as_bytes()), Err(ParseFailure::IncompleteInput));
    assert_eq!(parse_label("::il;".as_bytes()), Err(ParseFailure::SyntaxMismatch));
    assert_eq!(parse_label("::3::".as_bytes()), Err(ParseFailure::SyntaxMismatch));
}

#[test]
fn parse_comma_with_space() {
    assert_eq!(parse_comma(" ,  x".as_bytes()).unwrap().0, "x".as_bytes());
    assert_eq!(parse_comma(" ;".as_bytes()), Err(ParseFailure::SyntaxMismatch));
}

#[test]
fn parse_namelist_1() {
    assert_eq!(
        parse_namelist("name1".as_bytes()).unwrap().1,
        ASTNode::NameList(vec![name("name1")])
    );
}

#[test]
fn parse_namelist_2() {
    assert_eq!(
        parse_namelist("name1 , name2".as_bytes()).unwrap().1,
        ASTNode::NameList(vec![name("name1"), name("name2")])
    );
}

#[test]
fn parse_namelist_3() {
    assert_eq!(
        parse_namelist("name1 , name2, name3".as_bytes()).unwrap().1,
        ASTNode::NameList(vec![name("name1"), name("name2"), name("name3")])
    );
}

#[test]
fn parse_namelist_4() {
    assert_eq!(
        parse_namelist("a,b".as_bytes()).unwrap().1,
        ASTNode::NameList(vec![name("a"), name("b")])
    );
}

#[test]
fn parse_namelist_stops_before_a_comma_without_a_name() {
    assert_eq!(
        parse_namelist("a, b, 3".as_bytes()).unwrap(),
        (", 3".as_bytes(), ASTNode::NameList(vec![name("a"), name("b")]))
    );
}
