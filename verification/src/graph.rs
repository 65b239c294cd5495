//! The tree as a graph: the children of a node, the nodes below a node and
//! the edges between them.
use crate::ast::{tree_of_option, trees_of, ASTNode, BinOp, Tree, UnOp};
use crate::render::{integer_text, push_integer};
use vstd::string::StringExecFns;
use vstd::prelude::*;

verus! {

/// The tree of an option, as a list of no tree or one.
pub open spec fn if_any(tree: Option<Box<Tree>>) -> Seq<Tree> {
    match tree {
        Some(inner) => seq![*inner],
        None => Seq::empty(),
    }
}

impl Tree {
    /// The children of the tree, in the order in which they are written.
    pub open spec fn children(self) -> Seq<Tree> {
        match self {
            Tree::Integer(_) => Seq::empty(),
            Tree::Float(_) => Seq::empty(),
            Tree::Bool(_) => Seq::empty(),
            Tree::Text(_) => Seq::empty(),
            Tree::Label(_) => Seq::empty(),
            Tree::Name(_) => Seq::empty(),
            Tree::Paren(a) => seq![*a],
            Tree::Block(list, last) => list + if_any(last),
            Tree::EmptyStatement => Seq::empty(),
            Tree::Break => Seq::empty(),
            Tree::Goto(a) => seq![*a],
            Tree::RetStat(a) => if_any(a),
            Tree::Binary(_, a, b) => seq![*a, *b],
            Tree::Unary(_, a) => seq![*a],
            Tree::PrefixExp(a) => seq![*a],
            Tree::Nil => Seq::empty(),
            Tree::VarArg => Seq::empty(),
            Tree::TableConstructor(a) => if_any(a),
            Tree::Function(a) => seq![*a],
            Tree::FunctionBody(a, b) => if_any(a) + seq![*b],
            Tree::FunctionName(a, path, last) => seq![*a] + (match path {
                Some(list) => list,
                None => Seq::empty(),
            }) + if_any(last),
            Tree::NamedFunction(a, b) => seq![*a, *b],
            Tree::ExpList(list) => list,
            Tree::VarList(list) => list,
            Tree::NameList(list) => list,
            Tree::FieldList(list) => list,
            Tree::ParameterList(a, _) => if_any(a),
            Tree::FieldSingle(a) => seq![*a],
            Tree::FieldAssign(a, b) => seq![*a, *b],
            Tree::Local(a) => seq![*a],
            Tree::Var(a) => seq![*a],
            Tree::VarPrefixed(a, b) => seq![*a, *b],
            Tree::VarListAccess(a, b) => seq![*a, *b],
        }
    }

    /// The tree and all trees below it, each before its children and the
    /// children in their order.
    pub open spec fn sub_nodes(self) -> Seq<Tree>
        decreases self, self.children().len() + 1,
    {
        seq![self] + self.sub_nodes_of(self.children().len())
    }

    /// All trees at and below the first `n` children of the tree.
    pub open spec fn sub_nodes_of(self, n: nat) -> Seq<Tree>
        decreases self, n,
    {
        if n == 0 || n > self.children().len() {
            Seq::empty()
        } else {
            proof {
                lemma_child_is_smaller(self, n - 1);
            }
            self.sub_nodes_of((n - 1) as nat) + self.children()[n - 1].sub_nodes()
        }
    }

    /// Whether the tree always has exactly two children: an operator between
    /// its operands, a function with its name, a field with its key, a
    /// variable with its index or its member.
    pub open spec fn paired(self) -> bool {
        self is Binary || self is NamedFunction || self is FieldAssign || self is VarPrefixed
            || self is VarListAccess
    }

    /// The edges of the tree. Of a tree that always has two children: the
    /// edges to the first and to the second child, then the edges of the
    /// first, then those of the second. Of any other tree: for each child in
    /// its order, the edge from the tree to the child and then the edges of
    /// the child.
    pub open spec fn edges(self) -> Seq<(Tree, Tree)>
        decreases self, self.children().len() + 1,
    {
        if self.paired() {
            proof {
                lemma_child_is_smaller(self, 0);
                lemma_child_is_smaller(self, 1);
            }
            seq![(self, self.children()[0]), (self, self.children()[1])]
                + self.children()[0].edges() + self.children()[1].edges()
        } else {
            self.edges_of(self.children().len())
        }
    }

    /// The edges to and below the first `n` children of the tree, child by
    /// child.
    pub open spec fn edges_of(self, n: nat) -> Seq<(Tree, Tree)>
        decreases self, n,
    {
        if n == 0 || n > self.children().len() {
            Seq::empty()
        } else {
            proof {
                lemma_child_is_smaller(self, n - 1);
            }
            self.edges_of((n - 1) as nat) + seq![(self, self.children()[n - 1])]
                + self.children()[n - 1].edges()
        }
    }
}

/// A child is a smaller tree than its parent.
pub proof fn lemma_child_is_smaller(t: Tree, i: int)
    requires
        0 <= i < t.children().len(),
    ensures
        decreases_to!(t => t.children()[i]),
{
    match t {
        Tree::Block(list, last) => {
            if i < list.len() {
                assert(t.children()[i] == list[i]);
            }
        },
        Tree::FunctionName(a, path, last) => {
            match path {
                Some(list) => {
                    if 1 <= i <= list.len() {
                        assert(t.children()[i] == list[i - 1]);
                    }
                },
                None => {},
            }
        },
        _ => {},
    }
}

impl BinOp {
    /// The name of the operator.
    pub open spec fn name_text(self) -> Seq<char> {
        match self {
            BinOp::Add => "Add"@,
            BinOp::Sub => "Sub"@,
            BinOp::Mul => "Mul"@,
            BinOp::Div => "Div"@,
            BinOp::Exp => "Exp"@,
            BinOp::FDiv => "FDiv"@,
            BinOp::Mod => "Mod"@,
            BinOp::And => "And"@,
            BinOp::Or => "Or"@,
            BinOp::Lt => "Lt"@,
            BinOp::Le => "Le"@,
            BinOp::Gt => "Gt"@,
            BinOp::Ge => "Ge"@,
            BinOp::Eq => "Eq"@,
            BinOp::Ne => "Ne"@,
            BinOp::BitOr => "BitOr"@,
            BinOp::BitAnd => "BitAnd"@,
            BinOp::BitXor => "BitXor"@,
            BinOp::Rsh => "Rsh"@,
            BinOp::Lsh => "Lsh"@,
            BinOp::Concat => "Concat"@,
        }
    }

    /// The name of the operator.
    pub fn name(&self) -> (r: &'static str)
        ensures
            r@ == self.name_text(),
    {
        match self {
            BinOp::Add => "Add",
            BinOp::Sub => "Sub",
            BinOp::Mul => "Mul",
            BinOp::Div => "Div",
            BinOp::Exp => "Exp",
            BinOp::FDiv => "FDiv",
            BinOp::Mod => "Mod",
            BinOp::And => "And",
            BinOp::Or => "Or",
            BinOp::Lt => "Lt",
            BinOp::Le => "Le",
            BinOp::Gt => "Gt",
            BinOp::Ge => "Ge",
            BinOp::Eq => "Eq",
            BinOp::Ne => "Ne",
            BinOp::BitOr => "BitOr",
            BinOp::BitAnd => "BitAnd",
            BinOp::BitXor => "BitXor",
            BinOp::Rsh => "Rsh",
            BinOp::Lsh => "Lsh",
            BinOp::Concat => "Concat",
        }
    }
}

impl UnOp {
    /// The name of the operator.
    pub open spec fn name_text(self) -> Seq<char> {
        match self {
            UnOp::BinNot => "BinNot"@,
            UnOp::Not => "Not"@,
            UnOp::Len => "Len"@,
            UnOp::UMin => "UMin"@,
        }
    }

    /// The name of the operator.
    pub fn name(&self) -> (r: &'static str)
        ensures
            r@ == self.name_text(),
    {
        match self {
            UnOp::BinNot => "BinNot",
            UnOp::Not => "Not",
            UnOp::Len => "Len",
            UnOp::UMin => "UMin",
        }
    }
}

impl Tree {
    /// The name of the kind of the tree.
    pub open spec fn kind(self) -> Seq<char> {
        match self {
            Tree::Integer(_) => "Integer"@,
            Tree::Float(_) => "Float"@,
            Tree::Bool(_) => "Bool"@,
            Tree::Text(_) => "String"@,
            Tree::Label(_) => "Label"@,
            Tree::Name(_) => "Name"@,
            Tree::Paren(_) => "Paren"@,
            Tree::Block(_, _) => "Block"@,
            Tree::EmptyStatement => "EmptyStatement"@,
            Tree::Break => "Break"@,
            Tree::Goto(_) => "Goto"@,
            Tree::RetStat(_) => "RetStat"@,
            Tree::Binary(op, _, _) => op.name_text(),
            Tree::Unary(op, _) => op.name_text(),
            Tree::PrefixExp(_) => "PrefixExp"@,
            Tree::Nil => "Nil"@,
            Tree::VarArg => "VarArg"@,
            Tree::TableConstructor(_) => "TableConstructor"@,
            Tree::Function(_) => "Function"@,
            Tree::FunctionBody(_, _) => "FunctionBody"@,
            Tree::FunctionName(_, _, _) => "FunctionName"@,
            Tree::NamedFunction(_, _) => "NamedFunction"@,
            Tree::ExpList(_) => "ExpList"@,
            Tree::VarList(_) => "VarList"@,
            Tree::NameList(_) => "NameList"@,
            Tree::FieldList(_) => "FieldList"@,
            Tree::ParameterList(_, _) => "ParameterList"@,
            Tree::FieldSingle(_) => "FieldSingle"@,
            Tree::FieldAssign(_, _) => "FieldAssign"@,
            Tree::Local(_) => "Local"@,
            Tree::Var(_) => "Var"@,
            Tree::VarPrefixed(_, _) => "VarPrefixed"@,
            Tree::VarListAccess(_, _) => "VarListAccess"@,
        }
    }

    /// What a tree without children holds, as text; nothing for other trees.
    pub open spec fn held(self) -> Option<Seq<char>> {
        match self {
            Tree::Integer(value) => Some(integer_text(value)),
            Tree::Float(text) => Some(text),
            Tree::Bool(value) => Some(
                if value {
                    "true"@
                } else {
                    "false"@
                },
            ),
            Tree::Text(text) => Some(text),
            Tree::Label(text) => Some(text),
            Tree::Name(text) => Some(text),
            _ => None,
        }
    }

    /// The label of the tree as a node of a graph: the name of its kind and,
    /// where it holds a value, `_`, the value and `_`.
    pub open spec fn label(self) -> Seq<char> {
        match self.held() {
            Some(value) => self.kind() + "_"@ + value + "_"@,
            None => self.kind(),
        }
    }
}

/// What references to nodes stand for, node by node.
pub open spec fn trees_of_refs(nodes: Seq<&ASTNode>) -> Seq<Tree> {
    Seq::new(nodes.len(), |i: int| nodes[i]@)
}

/// What pairs of nodes stand for, pair by pair.
pub open spec fn pairs_of(edges: Seq<(ASTNode, ASTNode)>) -> Seq<(Tree, Tree)> {
    Seq::new(edges.len(), |i: int| (edges[i].0@, edges[i].1@))
}

/// Copies of the nodes of a list.
pub fn duplicate_all(list: &Vec<ASTNode>) -> (r: Vec<ASTNode>)
    ensures
        trees_of(r@) == trees_of(list@),
    decreases list,
{
    let mut out: Vec<ASTNode> = Vec::new();
    let mut i: usize = 0;
    while i < list.len()
        invariant
            i <= list@.len(),
            out@.len() == i,
            trees_of(out@) == trees_of(list@.take(i as int)),
        decreases list@.len() - i,
    {
        let ghost before = out@;
        out.push(list[i].duplicate());
        assert(trees_of(out@) =~= trees_of(list@.take(i + 1))) by {
            assert forall|j: int| 0 <= j < i + 1 implies trees_of(out@)[j] == trees_of(
                list@.take(i + 1),
            )[j] by {
                if j < i {
                    assert(out@[j] == before[j]);
                    assert(trees_of(before)[j] == trees_of(list@.take(i as int))[j]);
                }
            }
        }
        i += 1;
    }
    assert(list@.take(i as int) =~= list@);
    out
}

/// A copy of the node, where there is one.
pub fn duplicate_option(node: &Option<ASTNode>) -> (r: Option<ASTNode>)
    ensures
        tree_of_option(r) == tree_of_option(*node),
    decreases node,
{
    match node {
        Some(inner) => Some(inner.duplicate()),
        None => None,
    }
}

impl ASTNode {
    /// The children of the node, in the order in which they are written.
    pub fn children(&self) -> (r: Vec<&ASTNode>)
        ensures
            trees_of_refs(r@) == self@.children(),
    {
        let mut out: Vec<&ASTNode> = Vec::new();
        assert(trees_of_refs(out@) =~= Seq::<Tree>::empty());
        if let Some((_, a, b)) = self.binary_parts() {
            out.push(a);
            out.push(b);
            assert(trees_of_refs(out@) =~= self@.children());
            return out;
        }
        if let Some((_, a)) = self.unary_parts() {
            out.push(a);
            assert(trees_of_refs(out@) =~= self@.children());
            return out;
        }
        match self {
            ASTNode::Paren(a)
            | ASTNode::Goto(a)
            | ASTNode::PrefixExp(a)
            | ASTNode::Function(a)
            | ASTNode::FieldSingle(a)
            | ASTNode::Local(a)
            | ASTNode::Var(a) => {
                out.push(&**a);
                assert(trees_of_refs(out@) =~= self@.children());
            },
            ASTNode::NamedFunction(a, b)
            | ASTNode::FieldAssign(a, b)
            | ASTNode::VarPrefixed(a, b)
            | ASTNode::VarListAccess(a, b) => {
                out.push(&**a);
                out.push(&**b);
                assert(trees_of_refs(out@) =~= self@.children());
            },
            ASTNode::ExpList(list)
            | ASTNode::VarList(list)
            | ASTNode::NameList(list)
            | ASTNode::FieldList(list) => {
                push_refs(&mut out, list);
                assert(trees_of_refs(out@) =~= trees_of(list@));
                assert(self@.children() =~= trees_of(list@));
            },
            ASTNode::RetStat(a) | ASTNode::TableConstructor(a) | ASTNode::ParameterList(a, _) => {
                match &**a {
                    Some(inner) => {
                        out.push(inner);
                    },
                    None => {},
                }
                assert(trees_of_refs(out@) =~= self@.children());
            },
            ASTNode::Block(list, last) => {
                push_refs(&mut out, list);
                let ghost first = out@;
                assert(trees_of_refs(first) =~= trees_of(list@));
                assert(self@->Block_0 =~= trees_of(list@));
                match &**last {
                    Some(inner) => {
                        out.push(inner);
                        assert(trees_of_refs(out@) =~= trees_of_refs(first) + seq![inner@]);
                    },
                    None => {},
                }
                assert(trees_of_refs(out@) =~= self@.children());
            },
            ASTNode::FunctionBody(a, b) => {
                match &**a {
                    Some(inner) => {
                        out.push(inner);
                    },
                    None => {},
                }
                out.push(&**b);
                assert(trees_of_refs(out@) =~= self@.children());
            },
            ASTNode::FunctionName(a, path, last) => {
                out.push(&**a);
                let ghost head = out@;
                assert(trees_of_refs(head) =~= seq![a@]);
                match path {
                    Some(list) => {
                        push_refs(&mut out, list);
                        assert(self@->FunctionName_1->0 =~= trees_of(list@));
                    },
                    None => {
                        assert(trees_of_refs(out@) =~= trees_of_refs(head) + Seq::<Tree>::empty());
                    },
                }
                let ghost middle = out@;
                match last {
                    Some(inner) => {
                        out.push(&**inner);
                        assert(trees_of_refs(out@) =~= trees_of_refs(middle) + seq![inner@]);
                    },
                    None => {
                        assert(trees_of_refs(out@) =~= trees_of_refs(middle) + Seq::<Tree>::empty());
                    },
                }
                assert(trees_of_refs(out@) =~= self@.children());
            },
            _ => {
                assert(trees_of_refs(out@) =~= self@.children());
            },
        }
        out
    }

    /// A copy of the node.
    pub fn duplicate(&self) -> (r: ASTNode)
        ensures
            r@ == self@,
        decreases self,
    {
        match self {
            ASTNode::Integer(value) => ASTNode::Integer(*value),
            ASTNode::Float(text) => ASTNode::Float(text.clone()),
            ASTNode::Bool(value) => ASTNode::Bool(*value),
            ASTNode::String(text) => ASTNode::String(text.clone()),
            ASTNode::Label(text) => ASTNode::Label(text.clone()),
            ASTNode::Name(text) => ASTNode::Name(text.clone()),
            ASTNode::Paren(a) => ASTNode::Paren(Box::new(a.duplicate())),
            ASTNode::Block(list, last) => {
                let copies = duplicate_all(list);
                let ghost same = copies@;
                let r = ASTNode::Block(copies, Box::new(duplicate_option(&**last)));
                assert(r@->Block_0 =~= trees_of(same));
                assert(self@->Block_0 =~= trees_of(list@));
                r
            },
            ASTNode::EmptyStatement => ASTNode::EmptyStatement,
            ASTNode::Break => ASTNode::Break,
            ASTNode::Goto(a) => ASTNode::Goto(Box::new(a.duplicate())),
            ASTNode::RetStat(a) => ASTNode::RetStat(Box::new(duplicate_option(&**a))),
            ASTNode::PrefixExp(a) => ASTNode::PrefixExp(Box::new(a.duplicate())),
            ASTNode::Nil => ASTNode::Nil,
            ASTNode::VarArg => ASTNode::VarArg,
            ASTNode::TableConstructor(a) => ASTNode::TableConstructor(
                Box::new(duplicate_option(&**a)),
            ),
            ASTNode::Function(a) => ASTNode::Function(Box::new(a.duplicate())),
            ASTNode::FunctionBody(a, b) => ASTNode::FunctionBody(
                Box::new(duplicate_option(&**a)),
                Box::new(b.duplicate()),
            ),
            ASTNode::FunctionName(a, path, last) => {
                let path_copy = match path {
                    Some(list) => Some(duplicate_all(list)),
                    None => None,
                };
                let ghost same = path_copy;
                let last_copy = match last {
                    Some(inner) => Some(Box::new(inner.duplicate())),
                    None => None,
                };
                let r = ASTNode::FunctionName(Box::new(a.duplicate()), path_copy, last_copy);
                proof {
                    if path is Some {
                        assert(r@->FunctionName_1->0 =~= trees_of(same->0@));
                        assert(self@->FunctionName_1->0 =~= trees_of(path->0@));
                    }
                }
                r
            },
            ASTNode::NamedFunction(a, b) => ASTNode::NamedFunction(
                Box::new(a.duplicate()),
                Box::new(b.duplicate()),
            ),
            ASTNode::ExpList(list) => {
                let copies = duplicate_all(list);
                let ghost same = copies@;
                let r = ASTNode::ExpList(copies);
                assert(r@->ExpList_0 =~= trees_of(same));
                assert(self@->ExpList_0 =~= trees_of(list@));
                r
            },
            ASTNode::VarList(list) => {
                let copies = duplicate_all(list);
                let ghost same = copies@;
                let r = ASTNode::VarList(copies);
                assert(r@->VarList_0 =~= trees_of(same));
                assert(self@->VarList_0 =~= trees_of(list@));
                r
            },
            ASTNode::NameList(list) => {
                let copies = duplicate_all(list);
                let ghost same = copies@;
                let r = ASTNode::NameList(copies);
                assert(r@->NameList_0 =~= trees_of(same));
                assert(self@->NameList_0 =~= trees_of(list@));
                r
            },
            ASTNode::FieldList(list) => {
                let copies = duplicate_all(list);
                let ghost same = copies@;
                let r = ASTNode::FieldList(copies);
                assert(r@->FieldList_0 =~= trees_of(same));
                assert(self@->FieldList_0 =~= trees_of(list@));
                r
            },
            ASTNode::ParameterList(a, vararg) => ASTNode::ParameterList(
                Box::new(duplicate_option(&**a)),
                *vararg,
            ),
            ASTNode::FieldSingle(a) => ASTNode::FieldSingle(Box::new(a.duplicate())),
            ASTNode::FieldAssign(a, b) => ASTNode::FieldAssign(
                Box::new(a.duplicate()),
                Box::new(b.duplicate()),
            ),
            ASTNode::Local(a) => ASTNode::Local(Box::new(a.duplicate())),
            ASTNode::Var(a) => ASTNode::Var(Box::new(a.duplicate())),
            ASTNode::VarPrefixed(a, b) => ASTNode::VarPrefixed(
                Box::new(a.duplicate()),
                Box::new(b.duplicate()),
            ),
            ASTNode::VarListAccess(a, b) => ASTNode::VarListAccess(
                Box::new(a.duplicate()),
                Box::new(b.duplicate()),
            ),
            ASTNode::Add(a, b) => ASTNode::Add(Box::new(a.duplicate()), Box::new(b.duplicate())),
            ASTNode::Sub(a, b) => ASTNode::Sub(Box::new(a.duplicate()), Box::new(b.duplicate())),
            ASTNode::Mul(a, b) => ASTNode::Mul(Box::new(a.duplicate()), Box::new(b.duplicate())),
            ASTNode::Div(a, b) => ASTNode::Div(Box::new(a.duplicate()), Box::new(b.duplicate())),
            ASTNode::Exp(a, b) => ASTNode::Exp(Box::new(a.duplicate()), Box::new(b.duplicate())),
            ASTNode::FDiv(a, b) => ASTNode::FDiv(Box::new(a.duplicate()), Box::new(b.duplicate())),
            ASTNode::Mod(a, b) => ASTNode::Mod(Box::new(a.duplicate()), Box::new(b.duplicate())),
            ASTNode::And(a, b) => ASTNode::And(Box::new(a.duplicate()), Box::new(b.duplicate())),
            ASTNode::Or(a, b) => ASTNode::Or(Box::new(a.duplicate()), Box::new(b.duplicate())),
            ASTNode::Lt(a, b) => ASTNode::Lt(Box::new(a.duplicate()), Box::new(b.duplicate())),
            ASTNode::Le(a, b) => ASTNode::Le(Box::new(a.duplicate()), Box::new(b.duplicate())),
            ASTNode::Gt(a, b) => ASTNode::Gt(Box::new(a.duplicate()), Box::new(b.duplicate())),
            ASTNode::Ge(a, b) => ASTNode::Ge(Box::new(a.duplicate()), Box::new(b.duplicate())),
            ASTNode::Eq(a, b) => ASTNode::Eq(Box::new(a.duplicate()), Box::new(b.duplicate())),
            ASTNode::Ne(a, b) => ASTNode::Ne(Box::new(a.duplicate()), Box::new(b.duplicate())),
            ASTNode::BitOr(a, b) => ASTNode::BitOr(Box::new(a.duplicate()), Box::new(b.duplicate())),
            ASTNode::BitAnd(a, b) => ASTNode::BitAnd(Box::new(a.duplicate()), Box::new(b.duplicate())),
            ASTNode::BitXor(a, b) => ASTNode::BitXor(Box::new(a.duplicate()), Box::new(b.duplicate())),
            ASTNode::Rsh(a, b) => ASTNode::Rsh(Box::new(a.duplicate()), Box::new(b.duplicate())),
            ASTNode::Lsh(a, b) => ASTNode::Lsh(Box::new(a.duplicate()), Box::new(b.duplicate())),
            ASTNode::Concat(a, b) => ASTNode::Concat(Box::new(a.duplicate()), Box::new(b.duplicate())),
            ASTNode::BinNot(a) => ASTNode::BinNot(Box::new(a.duplicate())),
            ASTNode::Not(a) => ASTNode::Not(Box::new(a.duplicate())),
            ASTNode::Len(a) => ASTNode::Len(Box::new(a.duplicate())),
            ASTNode::UMin(a) => ASTNode::UMin(Box::new(a.duplicate())),
        }
    }

    /// The node and all nodes below it, each before its children.
    pub fn sub_nodes(&self) -> (r: Vec<ASTNode>)
        ensures
            trees_of(r@) == self@.sub_nodes(),
        decreases self@,
    {
        let mut out: Vec<ASTNode> = Vec::new();
        out.push(self.duplicate());
        let kids = self.children();
        assert(trees_of(out@) =~= seq![self@] + self@.sub_nodes_of(0));
        let mut i: usize = 0;
        while i < kids.len()
            invariant
                i <= kids@.len(),
                trees_of_refs(kids@) == self@.children(),
                trees_of(out@) == seq![self@] + self@.sub_nodes_of(i as nat),
            decreases kids@.len() - i,
        {
            let ghost before = trees_of(out@);
            proof {
                assert(trees_of_refs(kids@)[i as int] == kids@[i as int]@);
                lemma_child_is_smaller(self@, i as int);
            }
            let mut below = kids[i].sub_nodes();
            let ghost added = trees_of(below@);
            assert(added == self@.children()[i as int].sub_nodes()) by {
                assert(trees_of_refs(kids@)[i as int] == kids@[i as int]@);
            }
            out.append(&mut below);
            assert(trees_of(out@) =~= before + added);
            assert(trees_of(out@) =~= seq![self@] + self@.sub_nodes_of((i + 1) as nat));
            i += 1;
        }
        out
    }

    /// Whether the node always has exactly two children.
    pub fn paired(&self) -> (r: bool)
        ensures
            r == self@.paired(),
    {
        match self {
            ASTNode::NamedFunction(_, _) => true,
            ASTNode::FieldAssign(_, _) => true,
            ASTNode::VarPrefixed(_, _) => true,
            ASTNode::VarListAccess(_, _) => true,
            _ => self.binary_parts().is_some(),
        }
    }

    /// The edges of the tree under the node. Of a node that always has two
    /// children: the edges to the first and to the second child, then the
    /// edges of the first, then those of the second. Of any other node: for
    /// each child in its order, the edge from the node to the child and then
    /// the edges of the child.
    pub fn generate_edges(&self) -> (r: Vec<(ASTNode, ASTNode)>)
        ensures
            pairs_of(r@) == self@.edges(),
        decreases self@,
    {
        let mut out: Vec<(ASTNode, ASTNode)> = Vec::new();
        let kids = self.children();
        if self.paired() {
            assert(kids@.len() == 2) by {
                assert(trees_of_refs(kids@).len() == self@.children().len());
            }
            proof {
                assert(trees_of_refs(kids@)[0] == kids@[0]@);
                assert(trees_of_refs(kids@)[1] == kids@[1]@);
                lemma_child_is_smaller(self@, 0);
                lemma_child_is_smaller(self@, 1);
            }
            out.push((self.duplicate(), kids[0].duplicate()));
            out.push((self.duplicate(), kids[1].duplicate()));
            let ghost both = pairs_of(out@);
            assert(both =~= seq![(self@, self@.children()[0]), (self@, self@.children()[1])]);
            let mut first = kids[0].generate_edges();
            let ghost left = pairs_of(first@);
            out.append(&mut first);
            let mut second = kids[1].generate_edges();
            let ghost right = pairs_of(second@);
            out.append(&mut second);
            assert(pairs_of(out@) =~= both + left + right);
            return out;
        }
        assert(pairs_of(out@) =~= self@.edges_of(0));
        let mut i: usize = 0;
        while i < kids.len()
            invariant
                i <= kids@.len(),
                trees_of_refs(kids@) == self@.children(),
                !self@.paired(),
                pairs_of(out@) == self@.edges_of(i as nat),
            decreases kids@.len() - i,
        {
            let ghost before = pairs_of(out@);
            proof {
                assert(trees_of_refs(kids@)[i as int] == kids@[i as int]@);
                lemma_child_is_smaller(self@, i as int);
            }
            out.push((self.duplicate(), kids[i].duplicate()));
            let mut below = kids[i].generate_edges();
            let ghost added = pairs_of(below@);
            out.append(&mut below);
            assert(pairs_of(out@) =~= before + seq![(self@, self@.children()[i as int])] + added);
            assert(pairs_of(out@) =~= self@.edges_of((i + 1) as nat));
            i += 1;
        }
        out
    }

    /// The name of the kind of the node.
    pub fn kind_name(&self) -> (r: &'static str)
        ensures
            r@ == self@.kind(),
    {
        match self {
            ASTNode::Integer(_) => "Integer",
            ASTNode::Float(_) => "Float",
            ASTNode::Bool(_) => "Bool",
            ASTNode::String(_) => "String",
            ASTNode::Label(_) => "Label",
            ASTNode::Name(_) => "Name",
            ASTNode::Paren(_) => "Paren",
            ASTNode::Block(_, _) => "Block",
            ASTNode::EmptyStatement => "EmptyStatement",
            ASTNode::Break => "Break",
            ASTNode::Goto(_) => "Goto",
            ASTNode::RetStat(_) => "RetStat",
            ASTNode::Add(_, _) => "Add",
            ASTNode::Sub(_, _) => "Sub",
            ASTNode::Mul(_, _) => "Mul",
            ASTNode::Div(_, _) => "Div",
            ASTNode::Exp(_, _) => "Exp",
            ASTNode::FDiv(_, _) => "FDiv",
            ASTNode::Mod(_, _) => "Mod",
            ASTNode::And(_, _) => "And",
            ASTNode::Or(_, _) => "Or",
            ASTNode::Lt(_, _) => "Lt",
            ASTNode::Le(_, _) => "Le",
            ASTNode::Gt(_, _) => "Gt",
            ASTNode::Ge(_, _) => "Ge",
            ASTNode::Eq(_, _) => "Eq",
            ASTNode::Ne(_, _) => "Ne",
            ASTNode::BitOr(_, _) => "BitOr",
            ASTNode::BitAnd(_, _) => "BitAnd",
            ASTNode::BitXor(_, _) => "BitXor",
            ASTNode::Rsh(_, _) => "Rsh",
            ASTNode::Lsh(_, _) => "Lsh",
            ASTNode::Concat(_, _) => "Concat",
            ASTNode::BinNot(_) => "BinNot",
            ASTNode::Not(_) => "Not",
            ASTNode::Len(_) => "Len",
            ASTNode::UMin(_) => "UMin",
            ASTNode::PrefixExp(_) => "PrefixExp",
            ASTNode::Nil => "Nil",
            ASTNode::VarArg => "VarArg",
            ASTNode::TableConstructor(_) => "TableConstructor",
            ASTNode::Function(_) => "Function",
            ASTNode::FunctionBody(_, _) => "FunctionBody",
            ASTNode::FunctionName(_, _, _) => "FunctionName",
            ASTNode::NamedFunction(_, _) => "NamedFunction",
            ASTNode::ExpList(_) => "ExpList",
            ASTNode::VarList(_) => "VarList",
            ASTNode::NameList(_) => "NameList",
            ASTNode::FieldList(_) => "FieldList",
            ASTNode::ParameterList(_, _) => "ParameterList",
            ASTNode::FieldSingle(_) => "FieldSingle",
            ASTNode::FieldAssign(_, _) => "FieldAssign",
            ASTNode::Local(_) => "Local",
            ASTNode::Var(_) => "Var",
            ASTNode::VarPrefixed(_, _) => "VarPrefixed",
            ASTNode::VarListAccess(_, _) => "VarListAccess",
        }
    }

    /// The label of the node as a node of a graph.
    pub fn label(&self) -> (r: String)
        ensures
            r@ == self@.label(),
    {
        let mut out = String::from_str(self.kind_name());
        match self {
            ASTNode::Integer(value) => {
                out.append("_");
                push_integer(&mut out, *value);
                out.append("_");
            },
            ASTNode::Float(text) | ASTNode::String(text) | ASTNode::Label(text) | ASTNode::Name(
                text,
            ) => {
                out.append("_");
                out.append(text.as_str());
                out.append("_");
            },
            ASTNode::Bool(value) => {
                out.append("_");
                if *value {
                    out.append("true");
                } else {
                    out.append("false");
                }
                out.append("_");
            },
            _ => {},
        }
        assert(out@ =~= self@.label());
        out
    }
}

/// Appends references to the nodes of a list.
fn push_refs<'a>(out: &mut Vec<&'a ASTNode>, list: &'a Vec<ASTNode>)
    ensures
        trees_of_refs(final(out)@) == trees_of_refs(old(out)@) + trees_of(list@),
{
    let mut i: usize = 0;
    assert(trees_of_refs(out@) =~= trees_of_refs(old(out)@) + trees_of(list@.take(0)));
    while i < list.len()
        invariant
            i <= list@.len(),
            out@.len() == old(out)@.len() + i,
            trees_of_refs(out@) == trees_of_refs(old(out)@) + trees_of(list@.take(i as int)),
        decreases list@.len() - i,
    {
        let ghost before = out@;
        out.push(&list[i]);
        assert(trees_of_refs(out@) =~= trees_of_refs(old(out)@) + trees_of(list@.take(i + 1))) by {
            let goal = trees_of_refs(old(out)@) + trees_of(list@.take(i + 1));
            let prev = trees_of_refs(old(out)@) + trees_of(list@.take(i as int));
            assert forall|j: int| 0 <= j < out@.len() implies trees_of_refs(out@)[j] == goal[j] by {
                if j < before.len() {
                    assert(out@[j] == before[j]);
                    assert(trees_of_refs(before)[j] == prev[j]);
                }
            }
        }
        i += 1;
    }
    assert(list@.take(i as int) =~= list@);
}

impl Clone for ASTNode {
    /// A copy of the node.
    fn clone(&self) -> (r: ASTNode)
        ensures
            r@ == self@,
    {
        self.duplicate()
    }
}

} // verus!
