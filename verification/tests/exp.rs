use nom_lua::ast::ASTNode;
use nom_lua::ast::ASTNode::{
    Add, And, BinNot, BitAnd, BitOr, BitXor, Bool, Concat, Div, Exp, ExpList, FDiv,
    FieldList, FieldSingle, Float, Function, FunctionBody, Ge, Gt, Integer, Le, Len, Lsh, Lt,
    Mod, Mul, Name, Ne, Nil, Not, Or, Paren, PrefixExp, Rsh, Sub, TableConstructor, UMin, Var,
    VarArg, VarListAccess, VarPrefixed,
};
use nom_lua::error::ParseFailure;
use nom_lua::exp::{
    parse_atom, parse_bool, parse_exp, parse_explist, parse_nil, parse_numeral, parse_prefixexp,
    parse_tableconstructor, parse_vararg,
};
use nom_lua::op::arithmetic_ops::{
    fold_arithmetic_ops, parse_addsub, parse_exponent, parse_multdiv, ArithmeticOps,
};
use nom_lua::op::binary_ops::{
    fold_binary_ops, parse_binary_and, parse_binary_or, parse_binary_shift, parse_binary_xor,
    BinaryOps,
};
use nom_lua::op::concat_ops::{fold_concat_ops, parse_concat, ConcatenationOps};
use nom_lua::op::logic_ops::{fold_logic_ops, parse_logic_and, parse_logic_or, LogicOps};
use nom_lua::op::relational_ops::{fold_relational_ops, parse_relational_ops, RelationalOps};
use nom_lua::op::unary_ops::{fold_unary_ops, parse_unary_operator, parse_unop, UnaryOps};
use nom_lua::op::{factor, parens, parse_op};

fn b<T>(node: T) -> Box<T> {
    Box::new(node)
}

fn var(text: &str) -> ASTNode {
    PrefixExp(b(Var(b(Name(text.to_string())))))
}

fn all(source: &str) -> ASTNode {
    let (rest, node) = parse_exp(source.as_bytes()).unwrap();
    assert_eq!(rest, "".as_bytes());
    node
}

#[test]
fn parse_nil_1() {
    assert_eq!(parse_nil("nil".as_bytes()).unwrap().1, Nil);
}

#[test]
fn parse_bool_t() {
    assert_eq!(parse_bool("true".as_bytes()).unwrap().1, Bool(true));
}

#[test]
fn parse_bool_f() {
    assert_eq!(parse_bool("false".as_bytes()).unwrap().1, Bool(false));
}

#[test]
fn parse_vararg_1() {
    assert_eq!(parse_vararg("...".as_bytes()).unwrap().1, VarArg);
}

#[test]
fn parse_reserved_words_are_whole_words() {
    assert_eq!(parse_nil("nilly".as_bytes()), Err(ParseFailure::SyntaxMismatch));
    assert_eq!(parse_bool("truest".as_bytes()), Err(ParseFailure::SyntaxMismatch));
    assert_eq!(parse_bool("false_".as_bytes()), Err(ParseFailure::SyntaxMismatch));
    assert_eq!(parse_bool("tru".as_bytes()), Err(ParseFailure::IncompleteInput));
    assert_eq!(all("nilly"), var("nilly"));
    assert_eq!(all("truest"), var("truest"));
}

#[test]
fn parse_numeral_1() {
    assert_eq!(parse_numeral("20".as_bytes()).unwrap().1, Integer(20));
    assert_eq!(parse_numeral("0x20".as_bytes()).unwrap().1, Integer(32));
    assert_eq!(parse_numeral("2.5e3".as_bytes()).unwrap().1, Float("2.5e3".to_string()));
}

#[test]
fn parse_explist_1() {
    assert_eq!(parse_explist("true".as_bytes()).unwrap().1, ExpList(vec![Bool(true)]));
}

#[test]
fn parse_explist_2() {
    assert_eq!(
        parse_explist("true , true".as_bytes()).unwrap().1,
        ExpList(vec![Bool(true), Bool(true)])
    );
}

#[test]
fn parse_explist_3() {
    assert_eq!(
        parse_explist("true , false, false".as_bytes()).unwrap().1,
        ExpList(vec![Bool(true), Bool(false), Bool(false)])
    );
}

#[test]
fn parse_explist_stops_before_a_comma_without_an_expression() {
    assert_eq!(
        parse_explist("1, 2, )".as_bytes()).unwrap(),
        (", )".as_bytes(), ExpList(vec![Integer(1), Integer(2)]))
    );
}

#[test]
fn parse_exp_left_associative() {
    assert_eq!(all("10 / 20 * 30"), Mul(b(Div(b(Integer(10)), b(Integer(20)))), b(Integer(30))));
    assert_eq!(all("1 - 2 - 3"), Sub(b(Sub(b(Integer(1)), b(Integer(2)))), b(Integer(3))));
    assert_eq!(all("1 ^ 2 ^ 3"), Exp(b(Exp(b(Integer(1)), b(Integer(2)))), b(Integer(3))));
    assert_eq!(
        all("a .. b .. c"),
        Concat(b(Concat(b(var("a")), b(var("b")))), b(var("c")))
    );
}

#[test]
fn parse_exp_chunk_of_the_example() {
    assert_eq!(
        nom_lua::parse_string("10 / 20 * 30".as_bytes()),
        Some(Mul(b(Div(b(Integer(10)), b(Integer(20)))), b(Integer(30))))
    );
    assert_eq!(
        nom_lua::parse_chunk(" 10 / 20 * 30 ".as_bytes()).unwrap(),
        ("".as_bytes(), Mul(b(Div(b(Integer(10)), b(Integer(20)))), b(Integer(30))))
    );
    assert_eq!(nom_lua::parse_string("+".as_bytes()), None);
    assert_eq!(
        nom_lua::parse("1 + 2\n".as_bytes().to_vec()),
        Some(Add(b(Integer(1)), b(Integer(2))))
    );
    assert_eq!(nom_lua::parse("12".as_bytes().to_vec()), Some(Integer(12)));
    assert_eq!(
        nom_lua::parse("12".as_bytes().to_vec()),
        nom_lua::parse_string("12".as_bytes())
    );
    assert_eq!(nom_lua::parse(Vec::new()), None);
}

#[test]
fn parse_exp_precedence() {
    assert_eq!(all("1 + 2 * 3"), Add(b(Integer(1)), b(Mul(b(Integer(2)), b(Integer(3))))));
    assert_eq!(all("1 * 2 + 3"), Add(b(Mul(b(Integer(1)), b(Integer(2)))), b(Integer(3))));
    assert_eq!(
        all("1 or 2 and 3"),
        Or(b(Integer(1)), b(And(b(Integer(2)), b(Integer(3)))))
    );
    assert_eq!(
        all("1 and 2 < 3"),
        And(b(Integer(1)), b(Lt(b(Integer(2)), b(Integer(3)))))
    );
    assert_eq!(
        all("1 < 2 | 3"),
        Lt(b(Integer(1)), b(BitOr(b(Integer(2)), b(Integer(3)))))
    );
    assert_eq!(
        all("1 | 2 ~ 3"),
        BitOr(b(Integer(1)), b(BitXor(b(Integer(2)), b(Integer(3)))))
    );
    assert_eq!(
        all("1 ~ 2 & 3"),
        BitXor(b(Integer(1)), b(BitAnd(b(Integer(2)), b(Integer(3)))))
    );
    assert_eq!(
        all("1 & 2 << 3"),
        BitAnd(b(Integer(1)), b(Lsh(b(Integer(2)), b(Integer(3)))))
    );
    assert_eq!(
        all("1 >> 2 .. 3"),
        Rsh(b(Integer(1)), b(Concat(b(Integer(2)), b(Integer(3)))))
    );
    assert_eq!(
        all("1 .. 2 + 3"),
        Concat(b(Integer(1)), b(Add(b(Integer(2)), b(Integer(3)))))
    );
    assert_eq!(
        all("1 - 2 // 3"),
        Sub(b(Integer(1)), b(FDiv(b(Integer(2)), b(Integer(3)))))
    );
    assert_eq!(all("2 % - 3"), Mod(b(Integer(2)), b(UMin(b(Integer(3))))));
    assert_eq!(all("- 2 ^ 3"), UMin(b(Exp(b(Integer(2)), b(Integer(3))))));
}

#[test]
fn parse_exp_relational_operators() {
    assert_eq!(all("1 < 2"), Lt(b(Integer(1)), b(Integer(2))));
    assert_eq!(all("1 <= 2"), Le(b(Integer(1)), b(Integer(2))));
    assert_eq!(all("1 > 2"), Gt(b(Integer(1)), b(Integer(2))));
    assert_eq!(all("1 >= 2"), Ge(b(Integer(1)), b(Integer(2))));
    assert_eq!(all("1 == 2"), ASTNode::Eq(b(Integer(1)), b(Integer(2))));
    assert_eq!(all("1 ~= 2"), Ne(b(Integer(1)), b(Integer(2))));
    assert_eq!(all("1<=2"), Le(b(Integer(1)), b(Integer(2))));
}

#[test]
fn parse_exp_unary_operators() {
    assert_eq!(all("not true"), Not(b(Bool(true))));
    assert_eq!(all("#x"), Len(b(var("x"))));
    assert_eq!(all("-5"), UMin(b(Integer(5))));
    assert_eq!(all("~5"), BinNot(b(Integer(5))));
    assert_eq!(all("- - x"), UMin(b(UMin(b(var("x"))))));
    assert_eq!(all("- not 1"), UMin(b(Not(b(Integer(1))))));
    assert_eq!(all("not -1"), Not(b(UMin(b(Integer(1))))));
    assert_eq!(all("notify"), var("notify"));
    assert_eq!(all("1 - -2"), Sub(b(Integer(1)), b(UMin(b(Integer(2))))));
}

#[test]
fn parse_exp_reserved_operators_are_whole_words() {
    let (rest, node) = parse_exp("1 and2".as_bytes()).unwrap();
    assert_eq!(node, Integer(1));
    assert_eq!(rest, "and2".as_bytes());
    assert_eq!(all("a or b"), Or(b(var("a")), b(var("b"))));
    assert_eq!(all("a or(b)"), Or(b(var("a")), b(Paren(b(var("b"))))));
}

#[test]
fn parse_exp_parentheses() {
    assert_eq!(
        all("(1 + 2) * 3"),
        Mul(b(Paren(b(Add(b(Integer(1)), b(Integer(2)))))), b(Integer(3)))
    );
    assert_eq!(all("( ( 1 ) )"), Paren(b(Paren(b(Integer(1))))));
    assert_eq!(parse_exp("(1".as_bytes()), Err(ParseFailure::IncompleteInput));
    assert_eq!(parse_exp("(1]".as_bytes()), Err(ParseFailure::SyntaxMismatch));
    assert_eq!(parens("(1)".as_bytes()).unwrap().1, Paren(b(Integer(1))));
}

#[test]
fn parse_exp_atoms() {
    assert_eq!(all("nil"), Nil);
    assert_eq!(all("..."), VarArg);
    assert_eq!(all("'\\65'"), ASTNode::String("A".to_string()));
    assert_eq!(all("3.5"), Float("3.5".to_string()));
    assert_eq!(all("{}"), TableConstructor(b(None)));
    assert_eq!(all("x"), var("x"));
    assert_eq!(
        all("x.y"),
        PrefixExp(b(VarListAccess(b(var("x")), b(Name("y".to_string())))))
    );
    assert_eq!(all("x[1]"), PrefixExp(b(VarPrefixed(b(var("x")), b(Integer(1))))));
    assert_eq!(parse_atom("1 ".as_bytes()).unwrap(), (" ".as_bytes(), Integer(1)));
    assert_eq!(factor(" 1 +".as_bytes()).unwrap(), ("+".as_bytes(), Integer(1)));
}

#[test]
fn parse_exp_function() {
    match all("function (a) return a end") {
        Function(body) => match *body {
            FunctionBody(_, _) => {}
            other => panic!("{:?}", other),
        },
        other => panic!("{:?}", other),
    }
}

#[test]
fn parse_exp_failures() {
    assert_eq!(parse_exp("".as_bytes()), Err(ParseFailure::IncompleteInput));
    assert_eq!(parse_exp("   ".as_bytes()), Err(ParseFailure::IncompleteInput));
    assert_eq!(parse_exp("+1".as_bytes()), Err(ParseFailure::SyntaxMismatch));
    assert_eq!(parse_exp(")".as_bytes()), Err(ParseFailure::SyntaxMismatch));
    assert_eq!(parse_exp("'\\256'".as_bytes()), Err(ParseFailure::MalformedLiteral));
    assert_eq!(parse_exp("not".as_bytes()), Err(ParseFailure::IncompleteInput));
}

#[test]
fn parse_exp_leaves_what_does_not_belong() {
    assert_eq!(parse_exp("1 + ".as_bytes()).unwrap(), ("+ ".as_bytes(), Integer(1)));
    assert_eq!(parse_exp("1 2".as_bytes()).unwrap(), ("2".as_bytes(), Integer(1)));
    assert_eq!(parse_op("1 ) ".as_bytes()).unwrap(), (") ".as_bytes(), Integer(1)));
}

#[test]
fn parse_levels_one_by_one() {
    let one = || b(Integer(1));
    let two = || b(Integer(2));
    assert_eq!(parse_exponent("1^2".as_bytes()).unwrap().1, Exp(one(), two()));
    assert_eq!(parse_unop("-1^2".as_bytes()).unwrap().1, UMin(b(Exp(one(), two()))));
    assert_eq!(parse_multdiv("1*2".as_bytes()).unwrap().1, Mul(one(), two()));
    assert_eq!(parse_multdiv("1/2".as_bytes()).unwrap().1, Div(one(), two()));
    assert_eq!(parse_multdiv("1//2".as_bytes()).unwrap().1, FDiv(one(), two()));
    assert_eq!(parse_multdiv("1%2".as_bytes()).unwrap().1, Mod(one(), two()));
    assert_eq!(parse_addsub("1+2".as_bytes()).unwrap().1, Add(one(), two()));
    assert_eq!(parse_concat("1 ..2".as_bytes()).unwrap().1, Concat(one(), two()));
    assert_eq!(parse_binary_shift("1<<2".as_bytes()).unwrap().1, Lsh(one(), two()));
    assert_eq!(parse_binary_and("1&2".as_bytes()).unwrap().1, BitAnd(one(), two()));
    assert_eq!(parse_binary_xor("1~2".as_bytes()).unwrap().1, BitXor(one(), two()));
    assert_eq!(parse_binary_or("1|2".as_bytes()).unwrap().1, BitOr(one(), two()));
    assert_eq!(parse_relational_ops("1~=2".as_bytes()).unwrap().1, Ne(one(), two()));
    assert_eq!(parse_logic_and("1 and 2".as_bytes()).unwrap().1, And(one(), two()));
    assert_eq!(parse_logic_or("1 or 2".as_bytes()).unwrap().1, Or(one(), two()));
    // A level reads no operator of a looser level.
    assert_eq!(parse_multdiv("1+2".as_bytes()).unwrap(), ("+2".as_bytes(), Integer(1)));
    assert_eq!(parse_exponent("-1".as_bytes()), Err(ParseFailure::SyntaxMismatch));
}

#[test]
fn parse_unary_operator_each() {
    assert_eq!(parse_unary_operator("not ".as_bytes()).unwrap(), (" ".as_bytes(), UnaryOps::Not));
    assert_eq!(parse_unary_operator("#".as_bytes()).unwrap().1, UnaryOps::Len);
    assert_eq!(parse_unary_operator("-".as_bytes()).unwrap().1, UnaryOps::UMin);
    assert_eq!(parse_unary_operator("~".as_bytes()).unwrap().1, UnaryOps::BinNot);
    assert_eq!(parse_unary_operator("+".as_bytes()), Err(ParseFailure::SyntaxMismatch));
}

#[test]
fn fold_functions_fold_to_the_left() {
    let n = |i: i64| Integer(i);
    assert_eq!(
        fold_arithmetic_ops(n(1), vec![(ArithmeticOps::Add, n(2)), (ArithmeticOps::Mul, n(3))]),
        Mul(b(Add(b(n(1)), b(n(2)))), b(n(3)))
    );
    assert_eq!(
        fold_arithmetic_ops(
            n(1),
            vec![
                (ArithmeticOps::Sub, n(2)),
                (ArithmeticOps::Div, n(3)),
                (ArithmeticOps::FDiv, n(4)),
                (ArithmeticOps::Mod, n(5)),
                (ArithmeticOps::Exp, n(6)),
            ]
        ),
        Exp(b(Mod(b(FDiv(b(Div(b(Sub(b(n(1)), b(n(2)))), b(n(3)))), b(n(4)))), b(n(5)))), b(n(6)))
    );
    assert_eq!(fold_arithmetic_ops(n(1), vec![]), n(1));
    assert_eq!(
        fold_binary_ops(
            n(1),
            vec![
                (BinaryOps::BitOr, n(2)),
                (BinaryOps::BitAnd, n(3)),
                (BinaryOps::BitXor, n(4)),
                (BinaryOps::Rsh, n(5)),
                (BinaryOps::Lsh, n(6)),
            ]
        ),
        Lsh(
            b(Rsh(b(BitXor(b(BitAnd(b(BitOr(b(n(1)), b(n(2)))), b(n(3)))), b(n(4)))), b(n(5)))),
            b(n(6))
        )
    );
    assert_eq!(
        fold_concat_ops(
            n(1),
            vec![(ConcatenationOps::Concat, n(2)), (ConcatenationOps::Concat, n(3))]
        ),
        Concat(b(Concat(b(n(1)), b(n(2)))), b(n(3)))
    );
    assert_eq!(
        fold_logic_ops(n(1), vec![(LogicOps::And, n(2)), (LogicOps::Or, n(3))]),
        Or(b(And(b(n(1)), b(n(2)))), b(n(3)))
    );
    assert_eq!(
        fold_relational_ops(
            n(1),
            vec![
                (RelationalOps::Lt, n(2)),
                (RelationalOps::Le, n(3)),
                (RelationalOps::Gt, n(4)),
                (RelationalOps::Ge, n(5)),
                (RelationalOps::Eq, n(6)),
                (RelationalOps::Ne, n(7)),
            ]
        ),
        Ne(
            b(ASTNode::Eq(
                b(Ge(b(Gt(b(Le(b(Lt(b(n(1)), b(n(2)))), b(n(3)))), b(n(4)))), b(n(5)))),
                b(n(6))
            )),
            b(n(7))
        )
    );
    assert_eq!(fold_unary_ops(None, n(1)), n(1));
    assert_eq!(fold_unary_ops(Some(UnaryOps::BinNot), n(1)), BinNot(b(n(1))));
    assert_eq!(fold_unary_ops(Some(UnaryOps::Not), n(1)), Not(b(n(1))));
    assert_eq!(fold_unary_ops(Some(UnaryOps::Len), n(1)), Len(b(n(1))));
    assert_eq!(fold_unary_ops(Some(UnaryOps::UMin), n(1)), UMin(b(n(1))));
}

#[test]
fn parse_prefixexp_1() {
    assert_eq!(parse_prefixexp("( true )".as_bytes()).unwrap().1, PrefixExp(b(Bool(true))));
    assert_eq!(parse_prefixexp("ayy".as_bytes()).unwrap().1, var("ayy"));
}

#[test]
fn parse_tableconstructor_1() {
    assert_eq!(parse_tableconstructor("{}".as_bytes()).unwrap().1, TableConstructor(b(None)));
    assert_eq!(parse_tableconstructor("{ }".as_bytes()).unwrap().1, TableConstructor(b(None)));
    assert_eq!(
        parse_tableconstructor("{ 1, 2; 3 }".as_bytes()).unwrap().1,
        TableConstructor(b(Some(FieldList(vec![
            FieldSingle(b(Integer(1))),
            FieldSingle(b(Integer(2))),
            FieldSingle(b(Integer(3))),
        ]))))
    );
    assert_eq!(parse_tableconstructor("{ 1, }".as_bytes()), Err(ParseFailure::SyntaxMismatch));
    assert_eq!(parse_tableconstructor("{ 1".as_bytes()), Err(ParseFailure::IncompleteInput));
}
