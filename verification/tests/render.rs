use nom_lua::ast::ASTNode;
use nom_lua::ast::ASTNode::{
    Add, And, BinNot, BitAnd, BitOr, BitXor, Block, Bool, Break, Concat, Div, EmptyStatement,
    Exp, ExpList, FDiv, FieldAssign, FieldList, FieldSingle, Float, Function, FunctionBody,
    FunctionName, Ge, Goto, Gt, Integer, Label, Le, Len, Local, Lsh, Lt, Mod, Mul, Name,
    NameList, NamedFunction, Ne, Nil, Not, Or, ParameterList, Paren, PrefixExp, RetStat, Rsh,
    Sub, TableConstructor, UMin, Var, VarArg, VarList, VarListAccess, VarPrefixed,
};
use nom_lua::exp::parse_exp;

fn b<T>(node: T) -> Box<T> {
    Box::new(node)
}

fn name(text: &str) -> ASTNode {
    Name(text.to_string())
}

/// The tree without its parentheses.
fn bare(node: ASTNode) -> ASTNode {
    match node {
        Paren(a) => bare(*a),
        Add(x, y) => Add(b(bare(*x)), b(bare(*y))),
        Sub(x, y) => Sub(b(bare(*x)), b(bare(*y))),
        Mul(x, y) => Mul(b(bare(*x)), b(bare(*y))),
        Div(x, y) => Div(b(bare(*x)), b(bare(*y))),
        Exp(x, y) => Exp(b(bare(*x)), b(bare(*y))),
        FDiv(x, y) => FDiv(b(bare(*x)), b(bare(*y))),
        Mod(x, y) => Mod(b(bare(*x)), b(bare(*y))),
        And(x, y) => And(b(bare(*x)), b(bare(*y))),
        Or(x, y) => Or(b(bare(*x)), b(bare(*y))),
        Lt(x, y) => Lt(b(bare(*x)), b(bare(*y))),
        Le(x, y) => Le(b(bare(*x)), b(bare(*y))),
        Gt(x, y) => Gt(b(bare(*x)), b(bare(*y))),
        Ge(x, y) => Ge(b(bare(*x)), b(bare(*y))),
        ASTNode::Eq(x, y) => ASTNode::Eq(b(bare(*x)), b(bare(*y))),
        Ne(x, y) => Ne(b(bare(*x)), b(bare(*y))),
        BitOr(x, y) => BitOr(b(bare(*x)), b(bare(*y))),
        BitAnd(x, y) => BitAnd(b(bare(*x)), b(bare(*y))),
        BitXor(x, y) => BitXor(b(bare(*x)), b(bare(*y))),
        Rsh(x, y) => Rsh(b(bare(*x)), b(bare(*y))),
        Lsh(x, y) => Lsh(b(bare(*x)), b(bare(*y))),
        Concat(x, y) => Concat(b(bare(*x)), b(bare(*y))),
        BinNot(x) => BinNot(b(bare(*x))),
        Not(x) => Not(b(bare(*x))),
        Len(x) => Len(b(bare(*x))),
        UMin(x) => UMin(b(bare(*x))),
        other => other,
    }
}

/// What the text of the node reads as, all of it.
fn read_back(node: &ASTNode) -> ASTNode {
    let text = node.to_string();
    let (rest, tree) = parse_exp(text.as_bytes()).unwrap();
    assert_eq!(rest, "".as_bytes());
    tree
}

#[test]
fn to_string_of_leaves() {
    assert_eq!(Integer(0).to_string(), "0");
    assert_eq!(Integer(1234567890).to_string(), "1234567890");
    assert_eq!(Integer(-42).to_string(), "-42");
    assert_eq!(Integer(i64::MAX).to_string(), "9223372036854775807");
    assert_eq!(Integer(i64::MIN).to_string(), "-9223372036854775808");
    assert_eq!(Float("3.1416".to_string()).to_string(), "3.1416");
    assert_eq!(Bool(true).to_string(), "true");
    assert_eq!(Bool(false).to_string(), "false");
    assert_eq!(Nil.to_string(), "nil");
    assert_eq!(VarArg.to_string(), "...");
    assert_eq!(name("x").to_string(), "x");
    assert_eq!(Label("top".to_string()).to_string(), "::top::");
    assert_eq!(EmptyStatement.to_string(), ";");
    assert_eq!(Break.to_string(), "break");
}

#[test]
fn to_string_of_strings_escapes_every_character() {
    assert_eq!(ASTNode::String("".to_string()).to_string(), "\"\"");
    assert_eq!(ASTNode::String("a".to_string()).to_string(), "\"\\u{61}\"");
    assert_eq!(
        ASTNode::String("\n\u{1F62A}\"".to_string()).to_string(),
        "\"\\u{A}\\u{1F62A}\\u{22}\""
    );
}

#[test]
fn to_string_of_operators() {
    assert_eq!(Add(b(Integer(1)), b(Integer(2))).to_string(), "(1 + 2)");
    assert_eq!(
        Mul(b(Div(b(Integer(10)), b(Integer(20)))), b(Integer(30))).to_string(),
        "((10 / 20) * 30)"
    );
    assert_eq!(Concat(b(name("a")), b(name("b"))).to_string(), "(a .. b)");
    assert_eq!(And(b(Bool(true)), b(Nil)).to_string(), "(true and nil)");
    assert_eq!(FDiv(b(Integer(7)), b(Integer(2))).to_string(), "(7 // 2)");
    assert_eq!(Ne(b(Integer(7)), b(Integer(2))).to_string(), "(7 ~= 2)");
    assert_eq!(Not(b(Bool(true))).to_string(), "not true");
    assert_eq!(UMin(b(Integer(5))).to_string(), "-5");
    assert_eq!(Len(b(name("t"))).to_string(), "#t");
    assert_eq!(BinNot(b(Integer(0))).to_string(), "~0");
    assert_eq!(Not(b(Not(b(Bool(true))))).to_string(), "not not true");
    assert_eq!(UMin(b(Add(b(Integer(1)), b(Integer(2))))).to_string(), "-(1 + 2)");
    assert_eq!(Add(b(UMin(b(Integer(1)))), b(Len(b(Nil)))).to_string(), "(-1 + #nil)");
    assert_eq!(Exp(b(Integer(2)), b(UMin(b(Integer(3))))).to_string(), "(2 ^ -3)");
    assert_eq!(Paren(b(Integer(1))).to_string(), "(1)");
}

#[test]
fn to_string_of_lists_and_fields() {
    assert_eq!(ExpList(vec![Integer(1), Bool(true), Nil]).to_string(), "1, true, nil");
    assert_eq!(VarList(vec![Var(b(name("a"))), Var(b(name("b")))]).to_string(), "a, b");
    assert_eq!(NameList(vec![name("a")]).to_string(), "a");
    assert_eq!(ExpList(vec![]).to_string(), "");
    assert_eq!(FieldSingle(b(Integer(1))).to_string(), "1");
    assert_eq!(FieldAssign(b(name("k")), b(Integer(1))).to_string(), "k = 1");
    assert_eq!(FieldAssign(b(Integer(2)), b(Integer(1))).to_string(), "[2] = 1");
    assert_eq!(TableConstructor(b(None)).to_string(), "{}");
    assert_eq!(
        TableConstructor(b(Some(FieldList(vec![
            FieldSingle(b(Integer(1))),
            FieldAssign(b(name("k")), b(Nil)),
        ]))))
        .to_string(),
        "{1, k = nil}"
    );
    assert_eq!(ParameterList(b(None), false).to_string(), "");
    assert_eq!(ParameterList(b(None), true).to_string(), "...");
    assert_eq!(
        ParameterList(b(Some(NameList(vec![name("a"), name("b")]))), true).to_string(),
        "a, b, ..."
    );
}

#[test]
fn to_string_of_variables() {
    assert_eq!(Var(b(name("a"))).to_string(), "a");
    assert_eq!(PrefixExp(b(Var(b(name("a"))))).to_string(), "a");
    assert_eq!(
        VarPrefixed(b(PrefixExp(b(Var(b(name("a")))))), b(Integer(1))).to_string(),
        "a[1]"
    );
    assert_eq!(
        VarListAccess(b(PrefixExp(b(Var(b(name("a")))))), b(name("f"))).to_string(),
        "a.f"
    );
    assert_eq!(Local(b(name("a"))).to_string(), "local a");
}

#[test]
fn to_string_of_statements_and_functions() {
    assert_eq!(Goto(b(name("top"))).to_string(), "goto top");
    assert_eq!(RetStat(b(None)).to_string(), "return");
    assert_eq!(RetStat(b(Some(ExpList(vec![Integer(1)])))).to_string(), "return 1");
    let block = Block(
        vec![EmptyStatement, Label("l".to_string())],
        b(Some(RetStat(b(None)))),
    );
    assert_eq!(block.to_string(), ";\n::l::\nreturn\n");
    let body = FunctionBody(
        b(Some(ParameterList(b(Some(NameList(vec![name("a")]))), false))),
        b(Block(vec![EmptyStatement], b(None))),
    );
    assert_eq!(body.to_string(), "(a) ;\nend");
    assert_eq!(
        NamedFunction(
            b(name("f")),
            b(FunctionBody(b(None), b(Block(vec![], b(None)))))
        )
        .to_string(),
        "local function f() end"
    );
    assert_eq!(
        Function(b(FunctionBody(b(None), b(Block(vec![], b(None)))))).to_string(),
        "function () end"
    );
    assert_eq!(
        FunctionName(b(name("a")), Some(vec![name("b"), name("c")]), Some(b(name("d"))))
            .to_string(),
        "a.b.c:d"
    );
    assert_eq!(FunctionName(b(name("a")), None, None).to_string(), "a");
}

#[test]
fn text_reads_back_with_parentheses_around_operators() {
    let tree = Mul(b(Div(b(Integer(10)), b(Integer(20)))), b(Integer(30)));
    assert_eq!(
        read_back(&tree),
        Paren(b(Mul(b(Paren(b(Div(b(Integer(10)), b(Integer(20)))))), b(Integer(30)))))
    );
    assert_eq!(bare(read_back(&tree)), tree);
}

#[test]
fn text_reads_back_for_every_operator() {
    let one = || b(Integer(1));
    let two = || b(Bool(true));
    let trees = vec![
        Add(one(), two()),
        Sub(one(), two()),
        Mul(one(), two()),
        Div(one(), two()),
        Exp(one(), two()),
        FDiv(one(), two()),
        Mod(one(), two()),
        And(one(), two()),
        Or(one(), two()),
        Lt(one(), two()),
        Le(one(), two()),
        Gt(one(), two()),
        Ge(one(), two()),
        ASTNode::Eq(one(), two()),
        Ne(one(), two()),
        BitOr(one(), two()),
        BitAnd(one(), two()),
        BitXor(one(), two()),
        Rsh(one(), two()),
        Lsh(one(), two()),
        Concat(one(), two()),
        BinNot(one()),
        Not(one()),
        Len(one()),
        UMin(one()),
        Paren(one()),
        Nil,
        VarArg,
        Bool(false),
        Integer(0),
        Integer(i64::MAX),
    ];
    for tree in trees {
        assert_eq!(bare(read_back(&tree)), bare(tree.clone()), "{}", tree.to_string());
    }
}

#[test]
fn unary_operator_before_a_power_is_written_in_parentheses() {
    let tree = Exp(b(UMin(b(Integer(2)))), b(Nil));
    assert_eq!(tree.to_string(), "((-2) ^ nil)");
    assert_eq!(
        read_back(&tree),
        Paren(b(Exp(b(Paren(b(UMin(b(Integer(2)))))), b(Nil))))
    );
    assert_eq!(bare(read_back(&tree)), tree);
    // Without them the text reads as the unary operator over the power.
    assert_eq!(
        parse_exp("(-2 ^ nil)".as_bytes()).unwrap().1,
        Paren(b(UMin(b(Exp(b(Integer(2)), b(Nil))))))
    );
    // Before any other operator there are none.
    assert_eq!(Mul(b(UMin(b(Integer(2)))), b(Nil)).to_string(), "(-2 * nil)");
}

#[test]
fn text_of_unary_operators_reads_back() {
    let tree = Not(b(Not(b(Bool(true)))));
    assert_eq!(read_back(&tree), tree);
    let tree = UMin(b(UMin(b(Integer(5)))));
    assert_eq!(tree.to_string(), "--5");
    assert_eq!(read_back(&tree), tree);
    let tree = BinNot(b(Len(b(UMin(b(Not(b(Nil))))))));
    assert_eq!(tree.to_string(), "~#-not nil");
    assert_eq!(read_back(&tree), tree);
    let tree = Add(b(UMin(b(Integer(1)))), b(UMin(b(Integer(2)))));
    assert_eq!(read_back(&tree), Paren(b(tree.clone())));
    let tree = BitXor(b(BinNot(b(Integer(1)))), b(BinNot(b(Integer(2)))));
    assert_eq!(tree.to_string(), "(~1 ~ ~2)");
    assert_eq!(read_back(&tree), Paren(b(tree.clone())));
    let tree = Or(b(Not(b(Nil))), b(Not(b(Bool(false)))));
    assert_eq!(tree.to_string(), "(not nil or not false)");
    assert_eq!(read_back(&tree), Paren(b(tree.clone())));
    let tree = UMin(b(Exp(b(Integer(2)), b(Integer(3)))));
    assert_eq!(tree.to_string(), "-(2 ^ 3)");
    assert_eq!(bare(read_back(&tree)), tree);
    let tree = Paren(b(Len(b(Nil))));
    assert_eq!(read_back(&tree), tree);
}

#[test]
fn unary_operator_after_a_power_does_not_read_back() {
    let tree = Exp(b(Integer(2)), b(UMin(b(Integer(3)))));
    assert_eq!(tree.to_string(), "(2 ^ -3)");
    assert_eq!(tree.read_back(), None);
}

#[test]
fn text_reads_back_where_the_plain_text_would_not() {
    // `..` under `+`, and `..` after `..`, as trees.
    let tree = Add(b(Concat(b(Integer(1)), b(Integer(2)))), b(Integer(3)));
    assert_eq!(
        bare(read_back(&tree)),
        Add(b(Concat(b(Integer(1)), b(Integer(2)))), b(Integer(3)))
    );
    let tree = Concat(b(Integer(1)), b(Concat(b(Integer(2)), b(Integer(3)))));
    assert_eq!(
        bare(read_back(&tree)),
        Concat(b(Integer(1)), b(Concat(b(Integer(2)), b(Integer(3)))))
    );
}

#[test]
fn text_of_a_negative_integer_reads_back_as_a_unary_minus() {
    assert_eq!(read_back(&Integer(-5)), UMin(b(Integer(5))));
}

#[test]
fn text_reads_back_for_strings_and_floats() {
    let tree = Concat(
        b(ASTNode::String("a\"\n\u{1F62A}".to_string())),
        b(Float("0x1.8p1".to_string())),
    );
    assert_eq!(bare(read_back(&tree)), bare(read_back(&read_back(&tree))));
    assert_eq!(
        bare(read_back(&tree)),
        Concat(
            b(ASTNode::String("a\"\n\u{1F62A}".to_string())),
            b(Float("0x1.8p1".to_string()))
        )
    );
}

#[test]
fn read_back_gives_what_the_whole_text_reads_as() {
    let tree = Mul(b(Div(b(Integer(10)), b(Integer(20)))), b(Integer(30)));
    assert_eq!(
        tree.read_back(),
        Some(Paren(b(Mul(b(Paren(b(Div(b(Integer(10)), b(Integer(20)))))), b(Integer(30))))))
    );
    assert_eq!(Integer(7).read_back(), Some(Integer(7)));
    assert_eq!(Integer(-7).read_back(), Some(UMin(b(Integer(7)))));
    assert_eq!(
        ASTNode::String("a\u{7F}\u{E9}".to_string()).read_back(),
        Some(ASTNode::String("a\u{7F}\u{E9}".to_string()))
    );
    assert_eq!(Float("1.5e3".to_string()).read_back(), Some(Float("1.5e3".to_string())));
    // A float whose text is no numeral does not read back.
    assert_eq!(Float("abc".to_string()).read_back(), Some(PrefixExp(b(Var(b(name("abc")))))));
    assert_eq!(Float("".to_string()).read_back(), None);
    // The text of a statement is no expression.
    assert_eq!(EmptyStatement.read_back(), None);
    // Not all of the text of a list is one expression.
    assert_eq!(ExpList(vec![Integer(1), Integer(2)]).read_back(), None);
}
