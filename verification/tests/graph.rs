use nom_lua::ast::ASTNode;
use nom_lua::ast::ASTNode::{
    Add, Block, Bool, Div, EmptyStatement, ExpList, FieldAssign, FieldList, FieldSingle, Float,
    FunctionBody, FunctionName, Integer, Label, Mul, Name, NameList, Nil, Not, ParameterList,
    RetStat, TableConstructor, UMin,
};
use nom_lua::ast::{BinOp, UnOp};

fn b<T>(node: T) -> Box<T> {
    Box::new(node)
}

fn name(text: &str) -> ASTNode {
    Name(text.to_string())
}

fn example() -> ASTNode {
    Mul(b(Div(b(Integer(10)), b(Integer(20)))), b(Integer(30)))
}

#[test]
fn children_in_order() {
    let tree = example();
    let kids = tree.children();
    assert_eq!(kids.len(), 2);
    assert_eq!(*kids[0], Div(b(Integer(10)), b(Integer(20))));
    assert_eq!(*kids[1], Integer(30));
    assert!(Integer(1).children().is_empty());
    assert!(Nil.children().is_empty());
    assert_eq!(Not(b(Nil)).children(), vec![&Nil]);
    let list = ExpList(vec![Integer(1), Integer(2), Integer(3)]);
    assert_eq!(list.children(), vec![&Integer(1), &Integer(2), &Integer(3)]);
    let block = Block(vec![EmptyStatement, Label("a".into())], b(Some(RetStat(b(None)))));
    assert_eq!(
        block.children(),
        vec![&EmptyStatement, &Label("a".into()), &RetStat(b(None))]
    );
    assert!(RetStat(b(None)).children().is_empty());
    assert_eq!(TableConstructor(b(Some(Nil))).children(), vec![&Nil]);
    let body = FunctionBody(b(Some(ParameterList(b(None), true))), b(Block(vec![], b(None))));
    assert_eq!(
        body.children(),
        vec![&ParameterList(b(None), true), &Block(vec![], b(None))]
    );
    let fname = FunctionName(b(name("a")), Some(vec![name("b"), name("c")]), Some(b(name("d"))));
    assert_eq!(fname.children(), vec![&name("a"), &name("b"), &name("c"), &name("d")]);
    let fname = FunctionName(b(name("a")), None, None);
    assert_eq!(fname.children(), vec![&name("a")]);
}

#[test]
fn sub_nodes_before_their_children() {
    assert_eq!(
        example().sub_nodes(),
        vec![
            example(),
            Div(b(Integer(10)), b(Integer(20))),
            Integer(10),
            Integer(20),
            Integer(30),
        ]
    );
    assert_eq!(Nil.sub_nodes(), vec![Nil]);
    let list = NameList(vec![name("a"), name("b")]);
    assert_eq!(list.sub_nodes(), vec![list.clone(), name("a"), name("b")]);
}

#[test]
fn edges_to_each_child_and_below() {
    assert_eq!(
        example().generate_edges(),
        vec![
            (example(), Div(b(Integer(10)), b(Integer(20)))),
            (example(), Integer(30)),
            (Div(b(Integer(10)), b(Integer(20))), Integer(10)),
            (Div(b(Integer(10)), b(Integer(20))), Integer(20)),
        ]
    );
    assert!(Integer(1).generate_edges().is_empty());
    let fields = FieldList(vec![FieldSingle(b(Nil)), FieldAssign(b(name("k")), b(Bool(true)))]);
    assert_eq!(
        fields.generate_edges(),
        vec![
            (fields.clone(), FieldSingle(b(Nil))),
            (FieldSingle(b(Nil)), Nil),
            (fields.clone(), FieldAssign(b(name("k")), b(Bool(true)))),
            (FieldAssign(b(name("k")), b(Bool(true))), name("k")),
            (FieldAssign(b(name("k")), b(Bool(true))), Bool(true)),
        ]
    );
}

#[test]
fn edges_of_two_children_come_before_the_edges_below() {
    let key = Add(b(Integer(1)), b(Integer(2)));
    let field = FieldAssign(b(key.clone()), b(Not(b(Nil))));
    assert_eq!(
        field.generate_edges(),
        vec![
            (field.clone(), key.clone()),
            (field.clone(), Not(b(Nil))),
            (key.clone(), Integer(1)),
            (key.clone(), Integer(2)),
            (Not(b(Nil)), Nil),
        ]
    );
    assert!(field.paired());
    assert!(example().paired());
    assert!(!Not(b(Nil)).paired());
    assert!(!ExpList(vec![Nil, Nil]).paired());
}

#[test]
fn edges_are_one_fewer_than_nodes() {
    let tree = Add(b(example()), b(UMin(b(example()))));
    assert_eq!(tree.generate_edges().len() + 1, tree.sub_nodes().len());
}

#[test]
fn labels() {
    assert_eq!(Integer(10).label(), "Integer_10_");
    assert_eq!(Integer(-3).label(), "Integer_-3_");
    assert_eq!(Float("1.5".to_string()).label(), "Float_1.5_");
    assert_eq!(Bool(true).label(), "Bool_true_");
    assert_eq!(Bool(false).label(), "Bool_false_");
    assert_eq!(ASTNode::String("s".to_string()).label(), "String_s_");
    assert_eq!(Label("l".to_string()).label(), "Label_l_");
    assert_eq!(name("n").label(), "Name_n_");
    assert_eq!(example().label(), "Mul");
    assert_eq!(Not(b(Nil)).label(), "Not");
    assert_eq!(Nil.label(), "Nil");
    assert_eq!(ExpList(vec![]).label(), "ExpList");
    assert_eq!(RetStat(b(None)).label(), "RetStat");
    assert_eq!(
        ASTNode::VarListAccess(b(name("a")), b(name("b"))).label(),
        "VarListAccess"
    );
}

#[test]
fn operator_names_and_symbols() {
    assert_eq!(BinOp::FDiv.name(), "FDiv");
    assert_eq!(BinOp::FDiv.symbol(), "//");
    assert_eq!(BinOp::Concat.symbol(), "..");
    assert_eq!(UnOp::Not.name(), "Not");
    assert_eq!(UnOp::Not.symbol(), "not ");
    assert_eq!(UnOp::UMin.symbol(), "-");
}

#[test]
fn copies_are_equal() {
    let tree = Block(
        vec![Label("a".into()), EmptyStatement],
        b(Some(RetStat(b(Some(ExpList(vec![example(), Nil, Float("1.".into())])))))),
    );
    assert_eq!(tree.duplicate(), tree);
    assert_eq!(tree.clone(), tree);
    let fname = FunctionName(b(name("a")), Some(vec![name("b")]), Some(b(name("d"))));
    assert_eq!(fname.duplicate(), fname);
    let parts = example();
    let (op, left, right) = parts.binary_parts().unwrap();
    assert_eq!(op, BinOp::Mul);
    assert_eq!(ASTNode::from_binary(op, left.clone(), right.clone()), example());
    assert_eq!(Nil.binary_parts(), None);
    let minus = UMin(b(Nil));
    let (op, inner) = minus.unary_parts().unwrap();
    assert_eq!(ASTNode::from_unary(op, inner.clone()), UMin(b(Nil)));
    assert_eq!(Nil.unary_parts(), None);
}
