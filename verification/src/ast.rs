//! The syntax tree and what it stands for.
use vstd::prelude::*;

verus! {

/// A node of the syntax tree. A node owns its children.
#[derive(Debug, PartialEq)]
pub enum ASTNode {
    /// An integer numeral, by its value.
    Integer(i64),
    /// A float numeral, by its text.
    Float(String),
    Bool(bool),
    /// A string, its escapes decoded.
    String(String),
    Label(String),
    Name(String),
    Paren(Box<ASTNode>),
    /// Statements and an optional return statement.
    Block(Vec<ASTNode>, Box<Option<ASTNode>>),
    // Statements
    EmptyStatement,
    Break,
    Goto(Box<ASTNode>),
    RetStat(Box<Option<ASTNode>>),
    // Arithmetic operators
    Add(Box<ASTNode>, Box<ASTNode>),
    Sub(Box<ASTNode>, Box<ASTNode>),
    Mul(Box<ASTNode>, Box<ASTNode>),
    Div(Box<ASTNode>, Box<ASTNode>),
    Exp(Box<ASTNode>, Box<ASTNode>),
    FDiv(Box<ASTNode>, Box<ASTNode>),
    Mod(Box<ASTNode>, Box<ASTNode>),
    // Logic operators
    And(Box<ASTNode>, Box<ASTNode>),
    Or(Box<ASTNode>, Box<ASTNode>),
    // Relational operators
    Lt(Box<ASTNode>, Box<ASTNode>),
    Le(Box<ASTNode>, Box<ASTNode>),
    Gt(Box<ASTNode>, Box<ASTNode>),
    Ge(Box<ASTNode>, Box<ASTNode>),
    Eq(Box<ASTNode>, Box<ASTNode>),
    Ne(Box<ASTNode>, Box<ASTNode>),
    // Bitwise operators
    BitOr(Box<ASTNode>, Box<ASTNode>),
    BitAnd(Box<ASTNode>, Box<ASTNode>),
    BitXor(Box<ASTNode>, Box<ASTNode>),
    Rsh(Box<ASTNode>, Box<ASTNode>),
    Lsh(Box<ASTNode>, Box<ASTNode>),
    // Unary operators
    BinNot(Box<ASTNode>),
    Not(Box<ASTNode>),
    Len(Box<ASTNode>),
    UMin(Box<ASTNode>),
    // Concatenation
    Concat(Box<ASTNode>, Box<ASTNode>),
    /// A variable or a parenthesised expression.
    PrefixExp(Box<ASTNode>),
    Nil,
    VarArg,
    /// An optional field list.
    TableConstructor(Box<Option<ASTNode>>),
    /// A function body.
    Function(Box<ASTNode>),
    /// An optional parameter list and a block.
    FunctionBody(Box<Option<ASTNode>>, Box<ASTNode>),
    /// `log.ms:al` is the name `log`, the names after a point, here `ms`, and
    /// the name after the colon, `al`.
    FunctionName(Box<ASTNode>, Option<Vec<ASTNode>>, Option<Box<ASTNode>>),
    /// A name and a function body.
    NamedFunction(Box<ASTNode>, Box<ASTNode>),
    // Lists
    ExpList(Vec<ASTNode>),
    VarList(Vec<ASTNode>),
    NameList(Vec<ASTNode>),
    FieldList(Vec<ASTNode>),
    /// An optional name list, and whether `...` ends the list.
    ParameterList(Box<Option<ASTNode>>, bool),
    /// A field that is an expression.
    FieldSingle(Box<ASTNode>),
    /// A key, which is an expression or a name, and the expression assigned.
    FieldAssign(Box<ASTNode>, Box<ASTNode>),
    Local(Box<ASTNode>),
    /// A name.
    Var(Box<ASTNode>),
    /// A prefix expression and the expression that indexes it.
    VarPrefixed(Box<ASTNode>, Box<ASTNode>),
    /// A prefix expression and the name of one of its fields.
    VarListAccess(Box<ASTNode>, Box<ASTNode>),
}

/// A binary operator.
#[derive(Clone, Copy, Debug, PartialEq, Eq, Structural)]
pub enum BinOp {
    Add,
    Sub,
    Mul,
    Div,
    Exp,
    FDiv,
    Mod,
    And,
    Or,
    Lt,
    Le,
    Gt,
    Ge,
    Eq,
    Ne,
    BitOr,
    BitAnd,
    BitXor,
    Rsh,
    Lsh,
    Concat,
}

/// A unary operator.
#[derive(Clone, Copy, Debug, PartialEq, Eq, Structural)]
pub enum UnOp {
    BinNot,
    Not,
    Len,
    UMin,
}

/// What a node stands for: the tree with its texts as sequences of characters
/// and its lists as sequences, the operators of one arity under one variant.
pub enum Tree {
    Integer(int),
    Float(Seq<char>),
    Bool(bool),
    Text(Seq<char>),
    Label(Seq<char>),
    Name(Seq<char>),
    Paren(Box<Tree>),
    Block(Seq<Tree>, Option<Box<Tree>>),
    EmptyStatement,
    Break,
    Goto(Box<Tree>),
    RetStat(Option<Box<Tree>>),
    Binary(BinOp, Box<Tree>, Box<Tree>),
    Unary(UnOp, Box<Tree>),
    PrefixExp(Box<Tree>),
    Nil,
    VarArg,
    TableConstructor(Option<Box<Tree>>),
    Function(Box<Tree>),
    FunctionBody(Option<Box<Tree>>, Box<Tree>),
    FunctionName(Box<Tree>, Option<Seq<Tree>>, Option<Box<Tree>>),
    NamedFunction(Box<Tree>, Box<Tree>),
    ExpList(Seq<Tree>),
    VarList(Seq<Tree>),
    NameList(Seq<Tree>),
    FieldList(Seq<Tree>),
    ParameterList(Option<Box<Tree>>, bool),
    FieldSingle(Box<Tree>),
    FieldAssign(Box<Tree>, Box<Tree>),
    Local(Box<Tree>),
    Var(Box<Tree>),
    VarPrefixed(Box<Tree>, Box<Tree>),
    VarListAccess(Box<Tree>, Box<Tree>),
}

/// `Binary` with both operands boxed.
pub open spec fn binary(op: BinOp, left: Tree, right: Tree) -> Tree {
    Tree::Binary(op, Box::new(left), Box::new(right))
}

/// `Unary` with its operand boxed.
pub open spec fn unary(op: UnOp, operand: Tree) -> Tree {
    Tree::Unary(op, Box::new(operand))
}

/// What an optional node stands for.
pub open spec fn tree_of_option(node: Option<ASTNode>) -> Option<Box<Tree>> {
    match node {
        Some(inner) => Some(Box::new(inner.tree())),
        None => None,
    }
}

/// What a list of nodes stands for, node by node.
pub open spec fn trees_of(nodes: Seq<ASTNode>) -> Seq<Tree> {
    Seq::new(nodes.len(), |i: int| nodes[i].tree())
}

impl ASTNode {
    /// What the node stands for.
    pub open spec fn tree(&self) -> Tree
        decreases self,
    {
        match self {
            ASTNode::Integer(value) => Tree::Integer(*value as int),
            ASTNode::Float(text) => Tree::Float(text@),
            ASTNode::Bool(value) => Tree::Bool(*value),
            ASTNode::String(text) => Tree::Text(text@),
            ASTNode::Label(text) => Tree::Label(text@),
            ASTNode::Name(text) => Tree::Name(text@),
            ASTNode::Paren(a) => Tree::Paren(Box::new(a.tree())),
            ASTNode::Block(list, last) => Tree::Block(
                Seq::new(
                    list@.len(),
                    |i: int|
                        if 0 <= i < list@.len() {
                            list@[i].tree()
                        } else {
                            Tree::Nil
                        },
                ),
                match **last {
                    Some(inner) => Some(Box::new(inner.tree())),
                    None => None,
                },
            ),
            ASTNode::EmptyStatement => Tree::EmptyStatement,
            ASTNode::Break => Tree::Break,
            ASTNode::Goto(a) => Tree::Goto(Box::new(a.tree())),
            ASTNode::RetStat(a) => Tree::RetStat(
                match **a {
                    Some(inner) => Some(Box::new(inner.tree())),
                    None => None,
                },
            ),
            ASTNode::Add(a, b) => binary(BinOp::Add, a.tree(), b.tree()),
            ASTNode::Sub(a, b) => binary(BinOp::Sub, a.tree(), b.tree()),
            ASTNode::Mul(a, b) => binary(BinOp::Mul, a.tree(), b.tree()),
            ASTNode::Div(a, b) => binary(BinOp::Div, a.tree(), b.tree()),
            ASTNode::Exp(a, b) => binary(BinOp::Exp, a.tree(), b.tree()),
            ASTNode::FDiv(a, b) => binary(BinOp::FDiv, a.tree(), b.tree()),
            ASTNode::Mod(a, b) => binary(BinOp::Mod, a.tree(), b.tree()),
            ASTNode::And(a, b) => binary(BinOp::And, a.tree(), b.tree()),
            ASTNode::Or(a, b) => binary(BinOp::Or, a.tree(), b.tree()),
            ASTNode::Lt(a, b) => binary(BinOp::Lt, a.tree(), b.tree()),
            ASTNode::Le(a, b) => binary(BinOp::Le, a.tree(), b.tree()),
            ASTNode::Gt(a, b) => binary(BinOp::Gt, a.tree(), b.tree()),
            ASTNode::Ge(a, b) => binary(BinOp::Ge, a.tree(), b.tree()),
            ASTNode::Eq(a, b) => binary(BinOp::Eq, a.tree(), b.tree()),
            ASTNode::Ne(a, b) => binary(BinOp::Ne, a.tree(), b.tree()),
            ASTNode::BitOr(a, b) => binary(BinOp::BitOr, a.tree(), b.tree()),
            ASTNode::BitAnd(a, b) => binary(BinOp::BitAnd, a.tree(), b.tree()),
            ASTNode::BitXor(a, b) => binary(BinOp::BitXor, a.tree(), b.tree()),
            ASTNode::Rsh(a, b) => binary(BinOp::Rsh, a.tree(), b.tree()),
            ASTNode::Lsh(a, b) => binary(BinOp::Lsh, a.tree(), b.tree()),
            ASTNode::BinNot(a) => unary(UnOp::BinNot, a.tree()),
            ASTNode::Not(a) => unary(UnOp::Not, a.tree()),
            ASTNode::Len(a) => unary(UnOp::Len, a.tree()),
            ASTNode::UMin(a) => unary(UnOp::UMin, a.tree()),
            ASTNode::Concat(a, b) => binary(BinOp::Concat, a.tree(), b.tree()),
            ASTNode::PrefixExp(a) => Tree::PrefixExp(Box::new(a.tree())),
            ASTNode::Nil => Tree::Nil,
            ASTNode::VarArg => Tree::VarArg,
            ASTNode::TableConstructor(a) => Tree::TableConstructor(
                match **a {
                    Some(inner) => Some(Box::new(inner.tree())),
                    None => None,
                },
            ),
            ASTNode::Function(a) => Tree::Function(Box::new(a.tree())),
            ASTNode::FunctionBody(a, b) => Tree::FunctionBody(
                match **a {
                    Some(inner) => Some(Box::new(inner.tree())),
                    None => None,
                },
                Box::new(b.tree()),
            ),
            ASTNode::FunctionName(a, path, method) => Tree::FunctionName(
                Box::new(a.tree()),
                match path {
                    Some(list) => Some(
                        Seq::new(
                            list@.len(),
                            |i: int|
                                if 0 <= i < list@.len() {
                                    list@[i].tree()
                                } else {
                                    Tree::Nil
                                },
                        ),
                    ),
                    None => None,
                },
                match method {
                    Some(inner) => Some(Box::new(inner.tree())),
                    None => None,
                },
            ),
            ASTNode::NamedFunction(a, b) => Tree::NamedFunction(
                Box::new(a.tree()),
                Box::new(b.tree()),
            ),
            ASTNode::ExpList(list) => Tree::ExpList(
                Seq::new(
                    list@.len(),
                    |i: int|
                        if 0 <= i < list@.len() {
                            list@[i].tree()
                        } else {
                            Tree::Nil
                        },
                ),
            ),
            ASTNode::VarList(list) => Tree::VarList(
                Seq::new(
                    list@.len(),
                    |i: int|
                        if 0 <= i < list@.len() {
                            list@[i].tree()
                        } else {
                            Tree::Nil
                        },
                ),
            ),
            ASTNode::NameList(list) => Tree::NameList(
                Seq::new(
                    list@.len(),
                    |i: int|
                        if 0 <= i < list@.len() {
                            list@[i].tree()
                        } else {
                            Tree::Nil
                        },
                ),
            ),
            ASTNode::FieldList(list) => Tree::FieldList(
                Seq::new(
                    list@.len(),
                    |i: int|
                        if 0 <= i < list@.len() {
                            list@[i].tree()
                        } else {
                            Tree::Nil
                        },
                ),
            ),
            ASTNode::ParameterList(a, vararg) => Tree::ParameterList(
                match **a {
                    Some(inner) => Some(Box::new(inner.tree())),
                    None => None,
                },
                *vararg,
            ),
            ASTNode::FieldSingle(a) => Tree::FieldSingle(Box::new(a.tree())),
            ASTNode::FieldAssign(a, b) => Tree::FieldAssign(
                Box::new(a.tree()),
                Box::new(b.tree()),
            ),
            ASTNode::Local(a) => Tree::Local(Box::new(a.tree())),
            ASTNode::Var(a) => Tree::Var(Box::new(a.tree())),
            ASTNode::VarPrefixed(a, b) => Tree::VarPrefixed(
                Box::new(a.tree()),
                Box::new(b.tree()),
            ),
            ASTNode::VarListAccess(a, b) => Tree::VarListAccess(
                Box::new(a.tree()),
                Box::new(b.tree()),
            ),
        }
    }
}

impl View for ASTNode {
    type V = Tree;

    open spec fn view(&self) -> Tree {
        self.tree()
    }
}

impl ASTNode {
    /// The operator and the operands of a node that is a binary operator.
    pub fn binary_parts(&self) -> (r: Option<(BinOp, &ASTNode, &ASTNode)>)
        ensures
            match r {
                Some((op, a, b)) => self@ == binary(op, a@, b@) && decreases_to!(self => a)
                    && decreases_to!(self => b),
                None => !(self@ is Binary),
            },
    {
        match self {
            ASTNode::Add(a, b) => Some((BinOp::Add, &**a, &**b)),
            ASTNode::Sub(a, b) => Some((BinOp::Sub, &**a, &**b)),
            ASTNode::Mul(a, b) => Some((BinOp::Mul, &**a, &**b)),
            ASTNode::Div(a, b) => Some((BinOp::Div, &**a, &**b)),
            ASTNode::Exp(a, b) => Some((BinOp::Exp, &**a, &**b)),
            ASTNode::FDiv(a, b) => Some((BinOp::FDiv, &**a, &**b)),
            ASTNode::Mod(a, b) => Some((BinOp::Mod, &**a, &**b)),
            ASTNode::And(a, b) => Some((BinOp::And, &**a, &**b)),
            ASTNode::Or(a, b) => Some((BinOp::Or, &**a, &**b)),
            ASTNode::Lt(a, b) => Some((BinOp::Lt, &**a, &**b)),
            ASTNode::Le(a, b) => Some((BinOp::Le, &**a, &**b)),
            ASTNode::Gt(a, b) => Some((BinOp::Gt, &**a, &**b)),
            ASTNode::Ge(a, b) => Some((BinOp::Ge, &**a, &**b)),
            ASTNode::Eq(a, b) => Some((BinOp::Eq, &**a, &**b)),
            ASTNode::Ne(a, b) => Some((BinOp::Ne, &**a, &**b)),
            ASTNode::BitOr(a, b) => Some((BinOp::BitOr, &**a, &**b)),
            ASTNode::BitAnd(a, b) => Some((BinOp::BitAnd, &**a, &**b)),
            ASTNode::BitXor(a, b) => Some((BinOp::BitXor, &**a, &**b)),
            ASTNode::Rsh(a, b) => Some((BinOp::Rsh, &**a, &**b)),
            ASTNode::Lsh(a, b) => Some((BinOp::Lsh, &**a, &**b)),
            ASTNode::Concat(a, b) => Some((BinOp::Concat, &**a, &**b)),
            _ => None,
        }
    }

    /// The operator and the operand of a node that is a unary operator.
    pub fn unary_parts(&self) -> (r: Option<(UnOp, &ASTNode)>)
        ensures
            match r {
                Some((op, a)) => self@ == unary(op, a@) && decreases_to!(self => a),
                None => !(self@ is Unary),
            },
    {
        match self {
            ASTNode::BinNot(a) => Some((UnOp::BinNot, &**a)),
            ASTNode::Not(a) => Some((UnOp::Not, &**a)),
            ASTNode::Len(a) => Some((UnOp::Len, &**a)),
            ASTNode::UMin(a) => Some((UnOp::UMin, &**a)),
            _ => None,
        }
    }
}

impl ASTNode {
    /// The node of a binary operator over two operands.
    pub fn from_binary(op: BinOp, a: ASTNode, b: ASTNode) -> (r: ASTNode)
        ensures
            r@ == binary(op, a@, b@),
    {
        match op {
            BinOp::Add => ASTNode::Add(Box::new(a), Box::new(b)),
            BinOp::Sub => ASTNode::Sub(Box::new(a), Box::new(b)),
            BinOp::Mul => ASTNode::Mul(Box::new(a), Box::new(b)),
            BinOp::Div => ASTNode::Div(Box::new(a), Box::new(b)),
            BinOp::Exp => ASTNode::Exp(Box::new(a), Box::new(b)),
            BinOp::FDiv => ASTNode::FDiv(Box::new(a), Box::new(b)),
            BinOp::Mod => ASTNode::Mod(Box::new(a), Box::new(b)),
            BinOp::And => ASTNode::And(Box::new(a), Box::new(b)),
            BinOp::Or => ASTNode::Or(Box::new(a), Box::new(b)),
            BinOp::Lt => ASTNode::Lt(Box::new(a), Box::new(b)),
            BinOp::Le => ASTNode::Le(Box::new(a), Box::new(b)),
            BinOp::Gt => ASTNode::Gt(Box::new(a), Box::new(b)),
            BinOp::Ge => ASTNode::Ge(Box::new(a), Box::new(b)),
            BinOp::Eq => ASTNode::Eq(Box::new(a), Box::new(b)),
            BinOp::Ne => ASTNode::Ne(Box::new(a), Box::new(b)),
            BinOp::BitOr => ASTNode::BitOr(Box::new(a), Box::new(b)),
            BinOp::BitAnd => ASTNode::BitAnd(Box::new(a), Box::new(b)),
            BinOp::BitXor => ASTNode::BitXor(Box::new(a), Box::new(b)),
            BinOp::Rsh => ASTNode::Rsh(Box::new(a), Box::new(b)),
            BinOp::Lsh => ASTNode::Lsh(Box::new(a), Box::new(b)),
            BinOp::Concat => ASTNode::Concat(Box::new(a), Box::new(b)),
        }
    }

    /// The node of a unary operator over an operand.
    pub fn from_unary(op: UnOp, a: ASTNode) -> (r: ASTNode)
        ensures
            r@ == unary(op, a@),
    {
        match op {
            UnOp::BinNot => ASTNode::BinNot(Box::new(a)),
            UnOp::Not => ASTNode::Not(Box::new(a)),
            UnOp::Len => ASTNode::Len(Box::new(a)),
            UnOp::UMin => ASTNode::UMin(Box::new(a)),
        }
    }
}

} // verus!
