//! The text of a tree: what it looks like written out in Lua.
//!
//! A binary operator with its operands stands in parentheses, and a unary
//! operator directly before its operand. Before `^` an operand that is a
//! unary operator stands in parentheses of its own, without which the text
//! would read as the unary operator over the power. A string is written with
//! every character as an escape.
use crate::ast::{trees_of, ASTNode, BinOp, Tree, UnOp};
use vstd::prelude::*;
use vstd::string::StringExecFns;

verus! {

/// The character of a digit below 16: `0` to `9`, then `A` to `F`.
pub open spec fn digit_char(d: nat) -> char {
    if d < 10 {
        ((0x30 + d) as u8) as char
    } else {
        ((0x41 + d - 10) as u8) as char
    }
}

/// The digits of `n` in base 10 or 16, most significant first, without
/// leading zeros.
pub open spec fn digits(n: nat, base: nat) -> Seq<char>
    decreases n,
{
    if n < base || base < 2 {
        seq![digit_char(n)]
    } else {
        proof {
            assert(n / base < n) by (nonlinear_arith)
                requires
                    n >= base,
                    base >= 2,
            ;
        }
        digits(n / base, base).push(digit_char(n % base))
    }
}

/// An integer in decimal, with `-` before it where it is negative.
pub open spec fn integer_text(v: int) -> Seq<char> {
    if v < 0 {
        seq!['-'] + digits((-v) as nat, 10)
    } else {
        digits(v as nat, 10)
    }
}

/// The characters of a string, each as the escape `\u{..}` of its code point
/// in hexadecimal.
pub open spec fn escaped(text: Seq<char>) -> Seq<char>
    decreases text.len(),
{
    if text.len() == 0 {
        Seq::empty()
    } else {
        escaped(text.drop_last()) + "\\u{"@ + digits(text.last() as nat, 16) + "}"@
    }
}

impl BinOp {
    /// How the operator is written.
    pub open spec fn text(self) -> Seq<char> {
        match self {
            BinOp::Add => "+"@,
            BinOp::Sub => "-"@,
            BinOp::Mul => "*"@,
            BinOp::Div => "/"@,
            BinOp::Exp => "^"@,
            BinOp::FDiv => "//"@,
            BinOp::Mod => "%"@,
            BinOp::And => "and"@,
            BinOp::Or => "or"@,
            BinOp::Lt => "<"@,
            BinOp::Le => "<="@,
            BinOp::Gt => ">"@,
            BinOp::Ge => ">="@,
            BinOp::Eq => "=="@,
            BinOp::Ne => "~="@,
            BinOp::BitOr => "|"@,
            BinOp::BitAnd => "&"@,
            BinOp::BitXor => "~"@,
            BinOp::Rsh => ">>"@,
            BinOp::Lsh => "<<"@,
            BinOp::Concat => ".."@,
        }
    }

    /// How the operator is written.
    pub fn symbol(&self) -> (r: &'static str)
        ensures
            r@ == self.text(),
    {
        match self {
            BinOp::Add => "+",
            BinOp::Sub => "-",
            BinOp::Mul => "*",
            BinOp::Div => "/",
            BinOp::Exp => "^",
            BinOp::FDiv => "//",
            BinOp::Mod => "%",
            BinOp::And => "and",
            BinOp::Or => "or",
            BinOp::Lt => "<",
            BinOp::Le => "<=",
            BinOp::Gt => ">",
            BinOp::Ge => ">=",
            BinOp::Eq => "==",
            BinOp::Ne => "~=",
            BinOp::BitOr => "|",
            BinOp::BitAnd => "&",
            BinOp::BitXor => "~",
            BinOp::Rsh => ">>",
            BinOp::Lsh => "<<",
            BinOp::Concat => "..",
        }
    }
}

impl UnOp {
    /// How the operator is written before its operand.
    pub open spec fn text(self) -> Seq<char> {
        match self {
            UnOp::BinNot => "~"@,
            UnOp::Not => "not "@,
            UnOp::Len => "#"@,
            UnOp::UMin => "-"@,
        }
    }

    /// How the operator is written before its operand.
    pub fn symbol(&self) -> (r: &'static str)
        ensures
            r@ == self.text(),
    {
        match self {
            UnOp::BinNot => "~",
            UnOp::Not => "not ",
            UnOp::Len => "#",
            UnOp::UMin => "-",
        }
    }
}

/// The texts of the trees of a list, one after the other: `first` before the
/// first text, `between` before each of the others, `after` after each.
pub open spec fn each(
    list: Seq<Tree>,
    first: Seq<char>,
    between: Seq<char>,
    after: Seq<char>,
) -> Seq<char>
    decreases list,
{
    if list.len() == 0 {
        Seq::empty()
    } else {
        each(list.drop_last(), first, between, after) + (if list.len() == 1 {
            first
        } else {
            between
        }) + list.last().text() + after
    }
}

/// The text of an optional tree; nothing where there is none.
pub open spec fn optional(tree: Option<Box<Tree>>) -> Seq<char>
    decreases tree,
{
    match tree {
        Some(inner) => inner.text(),
        None => Seq::empty(),
    }
}

/// Whether `a` as the operand before `op` is written in parentheses of its
/// own: a unary operator before `^`.
pub open spec fn shielded(op: BinOp, a: Tree) -> bool {
    op == BinOp::Exp && a is Unary
}

impl Tree {
    /// The text of the tree.
    pub open spec fn text(self) -> Seq<char>
        decreases self,
    {
        match self {
            Tree::Integer(value) => integer_text(value),
            Tree::Float(text) => text,
            Tree::Bool(value) => if value {
                "true"@
            } else {
                "false"@
            },
            Tree::Text(text) => "\""@ + escaped(text) + "\""@,
            Tree::Label(text) => "::"@ + text + "::"@,
            Tree::Name(text) => text,
            Tree::Paren(a) => "("@ + a.text() + ")"@,
            Tree::Block(list, last) => each(list, Seq::empty(), Seq::empty(), "\n"@) + (match last {
                Some(inner) => inner.text() + "\n"@,
                None => Seq::empty(),
            }),
            Tree::EmptyStatement => ";"@,
            Tree::Break => "break"@,
            Tree::Goto(a) => "goto "@ + a.text(),
            Tree::RetStat(a) => match a {
                Some(inner) => "return "@ + inner.text(),
                None => "return"@,
            },
            Tree::Binary(op, a, b) => "("@ + (if shielded(op, *a) {
                "("@ + a.text() + ")"@
            } else {
                a.text()
            }) + " "@ + op.text() + " "@ + b.text() + ")"@,
            Tree::Unary(op, a) => op.text() + a.text(),
            Tree::PrefixExp(a) => a.text(),
            Tree::Nil => "nil"@,
            Tree::VarArg => "..."@,
            Tree::TableConstructor(a) => "{"@ + optional(a) + "}"@,
            Tree::Function(a) => "function "@ + a.text(),
            Tree::FunctionBody(a, b) => "("@ + optional(a) + ") "@ + b.text() + "end"@,
            Tree::FunctionName(a, path, last) => a.text() + (match path {
                Some(list) => each(list, "."@, "."@, Seq::empty()),
                None => Seq::empty(),
            }) + (match last {
                Some(inner) => ":"@ + inner.text(),
                None => Seq::empty(),
            }),
            Tree::NamedFunction(a, b) => "local function "@ + a.text() + b.text(),
            Tree::ExpList(list) => each(list, Seq::empty(), ", "@, Seq::empty()),
            Tree::VarList(list) => each(list, Seq::empty(), ", "@, Seq::empty()),
            Tree::NameList(list) => each(list, Seq::empty(), ", "@, Seq::empty()),
            Tree::FieldList(list) => each(list, Seq::empty(), ", "@, Seq::empty()),
            Tree::ParameterList(a, vararg) => match a {
                Some(inner) => inner.text() + (if vararg {
                    ", ..."@
                } else {
                    Seq::empty()
                }),
                None => if vararg {
                    "..."@
                } else {
                    Seq::empty()
                },
            },
            Tree::FieldSingle(a) => a.text(),
            Tree::FieldAssign(a, b) => (if *a is Name {
                a.text()
            } else {
                "["@ + a.text() + "]"@
            }) + " = "@ + b.text(),
            Tree::Local(a) => "local "@ + a.text(),
            Tree::Var(a) => a.text(),
            Tree::VarPrefixed(a, b) => a.text() + "["@ + b.text() + "]"@,
            Tree::VarListAccess(a, b) => a.text() + "."@ + b.text(),
        }
    }
}

/// Appends the digits of `n` in base 10 or 16.
pub(crate) fn push_digits(out: &mut String, n: u64, base: u64)
    requires
        base == 10 || base == 16,
    ensures
        final(out)@ == old(out)@ + digits(n as nat, base as nat),
    decreases n,
{
    if n >= base {
        push_digits(out, n / base, base);
    }
    let d = (n % base) as u8;
    let c = if d < 10 {
        (0x30 + d) as char
    } else {
        (0x41 + d - 10) as char
    };
    out.push(c);
    assert(final(out)@ =~= old(out)@ + digits(n as nat, base as nat));
}

/// Appends an integer in decimal.
pub(crate) fn push_integer(out: &mut String, v: i64)
    ensures
        final(out)@ == old(out)@ + integer_text(v as int),
{
    if v < 0 {
        out.push('-');
        let magnitude: u64 = ((-(v + 1)) as u64) + 1;
        push_digits(out, magnitude, 10);
        assert(final(out)@ =~= old(out)@ + integer_text(v as int));
    } else {
        push_digits(out, v as u64, 10);
    }
}

/// The code point of a character.
pub(crate) fn code_point(c: char) -> (r: u32)
    ensures
        r as nat == c as nat,
        r <= 0x10FFFF,
{
    c as u32
}

/// Appends the characters of `text`, each as an escape.
pub(crate) fn push_escaped(out: &mut String, text: &str)
    ensures
        final(out)@ == old(out)@ + escaped(text@),
{
    let ghost start = out@;
    let ghost all = text@;
    for c in it: text.chars()
        invariant
            it.seq() == all,
            out@ == start + escaped(all.take(it.index() as int)),
    {
        let ghost before = out@;
        proof {
            assert(all.take(it.index() + 1).drop_last() =~= all.take(it.index() as int));
            assert(all.take(it.index() + 1).last() == c);
        }
        out.append("\\u{");
        push_digits(out, code_point(c) as u64, 16);
        out.append("}");
        assert(out@ =~= before + "\\u{"@ + digits(c as nat, 16) + "}"@);
        assert(out@ =~= start + escaped(all.take(it.index() + 1)));
    }
    assert(all.take(all.len() as int) =~= all);
}

/// Appends the texts of the nodes of a list.
pub(crate) fn push_each(out: &mut String, list: &Vec<ASTNode>, first: &str, between: &str, after: &str)
    ensures
        final(out)@ == old(out)@ + each(trees_of(list@), first@, between@, after@),
    decreases list, 1int,
{
    let ghost start = out@;
    let ghost all = trees_of(list@);
    let mut i: usize = 0;
    while i < list.len()
        invariant
            i <= list@.len(),
            all == trees_of(list@),
            out@ == start + each(all.take(i as int), first@, between@, after@),
        decreases list@.len() - i,
    {
        let ghost before = out@;
        proof {
            assert(all.take(i + 1).drop_last() =~= all.take(i as int));
            assert(all.take(i + 1).last() == list@[i as int]@);
        }
        if i == 0 {
            out.append(first);
        } else {
            out.append(between);
        }
        list[i].render_into(out);
        out.append(after);
        assert(out@ =~= before + (if i == 0 {
            first@
        } else {
            between@
        }) + list@[i as int]@.text() + after@);
        assert(out@ =~= start + each(all.take(i + 1), first@, between@, after@));
        i += 1;
    }
    assert(all.take(i as int) =~= all);
}

/// Appends the text of a node, where there is one.
pub(crate) fn push_optional(out: &mut String, node: &Option<ASTNode>)
    ensures
        final(out)@ == old(out)@ + optional(crate::ast::tree_of_option(*node)),
    decreases node, 1int,
{
    match node {
        Some(inner) => {
            inner.render_into(out);
        },
        None => {
            assert(out@ =~= old(out)@ + Seq::<char>::empty());
        },
    }
}

/// The empty string is empty.
proof fn lemma_empty()
    ensures
        ""@ == Seq::<char>::empty(),
{
    reveal_strlit("");
    assert(""@ =~= Seq::<char>::empty());
}

/// Whether the operator is `^`.
fn is_power(op: &BinOp) -> (r: bool)
    ensures
        r == (*op == BinOp::Exp),
{
    match op {
        BinOp::Exp => true,
        _ => false,
    }
}

impl ASTNode {
    /// The text of the node.
    pub fn to_string(&self) -> (r: String)
        ensures
            r@ == self@.text(),
    {
        let mut out = String::new();
        self.render_into(&mut out);
        assert(out@ =~= self@.text());
        out
    }

    /// Appends the text of the node.
    pub fn render_into(&self, out: &mut String)
        ensures
            final(out)@ == old(out)@ + self@.text(),
        decreases self, 1int,
    {
        if let Some((op, a, b)) = self.binary_parts() {
            out.append("(");
            if is_power(&op) && a.unary_parts().is_some() {
                out.append("(");
                a.render_into(out);
                out.append(")");
            } else {
                a.render_into(out);
            }
            out.append(" ");
            out.append(op.symbol());
            out.append(" ");
            b.render_into(out);
            out.append(")");
            assert(out@ =~= old(out)@ + self@.text());
        } else if let Some((op, a)) = self.unary_parts() {
            out.append(op.symbol());
            a.render_into(out);
            assert(out@ =~= old(out)@ + self@.text());
        } else {
            match self {
                ASTNode::Integer(_)
                | ASTNode::Float(_)
                | ASTNode::Bool(_)
                | ASTNode::String(_)
                | ASTNode::Label(_)
                | ASTNode::Name(_)
                | ASTNode::Nil
                | ASTNode::VarArg
                | ASTNode::EmptyStatement
                | ASTNode::Break => self.render_leaf(out),
                ASTNode::ExpList(_)
                | ASTNode::VarList(_)
                | ASTNode::NameList(_)
                | ASTNode::FieldList(_)
                | ASTNode::ParameterList(_, _)
                | ASTNode::Block(_, _) => self.render_list(out),
                ASTNode::Function(_)
                | ASTNode::FunctionBody(_, _)
                | ASTNode::FunctionName(_, _, _)
                | ASTNode::NamedFunction(_, _)
                | ASTNode::TableConstructor(_)
                | ASTNode::RetStat(_)
                | ASTNode::Goto(_)
                | ASTNode::Local(_) => self.render_construct(out),
                _ => self.render_reference(out),
            }
        }
    }

    /// Appends the text of a node without children.
    fn render_leaf(&self, out: &mut String)
        requires
            self@ is Integer || self@ is Float || self@ is Bool || self@ is Text || self@ is Label
                || self@ is Name || self@ is Nil || self@ is VarArg || self@ is EmptyStatement
                || self@ is Break,
        ensures
            final(out)@ == old(out)@ + self@.text(),
    {
        match self {
            ASTNode::Integer(value) => {
                push_integer(out, *value);
            },
            ASTNode::Float(text) => {
                out.append(text.as_str());
            },
            ASTNode::Bool(value) => {
                if *value {
                    out.append("true");
                } else {
                    out.append("false");
                }
            },
            ASTNode::String(text) => {
                out.append("\"");
                push_escaped(out, text.as_str());
                out.append("\"");
                assert(out@ =~= old(out)@ + self@.text());
            },
            ASTNode::Label(text) => {
                out.append("::");
                out.append(text.as_str());
                out.append("::");
                assert(out@ =~= old(out)@ + self@.text());
            },
            ASTNode::Name(text) => {
                out.append(text.as_str());
            },
            ASTNode::Nil => {
                out.append("nil");
            },
            ASTNode::VarArg => {
                out.append("...");
            },
            ASTNode::EmptyStatement => {
                out.append(";");
            },
            ASTNode::Break => {
                out.append("break");
            },
            _ => {},
        }
    }

    /// Appends the text of a list, a parameter list or a block.
    fn render_list(&self, out: &mut String)
        requires
            self@ is ExpList || self@ is VarList || self@ is NameList || self@ is FieldList
                || self@ is ParameterList || self@ is Block,
        ensures
            final(out)@ == old(out)@ + self@.text(),
        decreases self, 0int,
    {
        proof {
            lemma_empty();
        }
        match self {
            ASTNode::ExpList(list) => {
                push_each(out, list, "", ", ", "");
                assert(self@->ExpList_0 =~= trees_of(list@));
            },
            ASTNode::VarList(list) => {
                push_each(out, list, "", ", ", "");
                assert(self@->VarList_0 =~= trees_of(list@));
            },
            ASTNode::NameList(list) => {
                push_each(out, list, "", ", ", "");
                assert(self@->NameList_0 =~= trees_of(list@));
            },
            ASTNode::FieldList(list) => {
                push_each(out, list, "", ", ", "");
                assert(self@->FieldList_0 =~= trees_of(list@));
            },
            ASTNode::ParameterList(a, vararg) => {
                match &**a {
                    Some(inner) => {
                        inner.render_into(out);
                        if *vararg {
                            out.append(", ...");
                        }
                    },
                    None => {
                        if *vararg {
                            out.append("...");
                        }
                    },
                }
                assert(out@ =~= old(out)@ + self@.text());
            },
            ASTNode::Block(list, last) => {
                push_each(out, list, "", "", "\n");
                assert(self@->Block_0 =~= trees_of(list@));
                match &**last {
                    Some(inner) => {
                        inner.render_into(out);
                        out.append("\n");
                    },
                    None => {},
                }
                assert(out@ =~= old(out)@ + self@.text());
            },
            _ => {},
        }
    }

    /// Appends the text of a function, a table constructor or a statement
    /// with a child.
    fn render_construct(&self, out: &mut String)
        requires
            self@ is Function || self@ is FunctionBody || self@ is FunctionName
                || self@ is NamedFunction || self@ is TableConstructor || self@ is RetStat
                || self@ is Goto || self@ is Local,
        ensures
            final(out)@ == old(out)@ + self@.text(),
        decreases self, 0int,
    {
        match self {
            ASTNode::Function(a) => {
                out.append("function ");
                a.render_into(out);
                assert(out@ =~= old(out)@ + self@.text());
            },
            ASTNode::FunctionBody(a, b) => {
                out.append("(");
                push_optional(out, &**a);
                out.append(") ");
                b.render_into(out);
                out.append("end");
                assert(out@ =~= old(out)@ + self@.text());
            },
            ASTNode::FunctionName(a, path, last) => {
                a.render_into(out);
                match path {
                    Some(list) => {
                        push_each(out, list, ".", ".", "");
                        proof {
                            lemma_empty();
                            assert(self@->FunctionName_1->0 =~= trees_of(list@));
                        }
                    },
                    None => {},
                }
                match last {
                    Some(inner) => {
                        out.append(":");
                        inner.render_into(out);
                    },
                    None => {},
                }
                assert(out@ =~= old(out)@ + self@.text());
            },
            ASTNode::NamedFunction(a, b) => {
                out.append("local function ");
                a.render_into(out);
                b.render_into(out);
                assert(out@ =~= old(out)@ + self@.text());
            },
            ASTNode::TableConstructor(a) => {
                out.append("{");
                push_optional(out, &**a);
                out.append("}");
                assert(out@ =~= old(out)@ + self@.text());
            },
            ASTNode::RetStat(a) => {
                match &**a {
                    Some(inner) => {
                        out.append("return ");
                        inner.render_into(out);
                    },
                    None => {
                        out.append("return");
                    },
                }
                assert(out@ =~= old(out)@ + self@.text());
            },
            ASTNode::Goto(a) => {
                out.append("goto ");
                a.render_into(out);
                assert(out@ =~= old(out)@ + self@.text());
            },
            ASTNode::Local(a) => {
                out.append("local ");
                a.render_into(out);
                assert(out@ =~= old(out)@ + self@.text());
            },
            _ => {},
        }
    }

    /// Appends the text of a variable, a field, a prefix expression or an
    /// expression in parentheses.
    fn render_reference(&self, out: &mut String)
        requires
            self@ is Paren || self@ is PrefixExp || self@ is FieldSingle || self@ is FieldAssign
                || self@ is Var || self@ is VarPrefixed || self@ is VarListAccess,
        ensures
            final(out)@ == old(out)@ + self@.text(),
        decreases self, 0int,
    {
        match self {
            ASTNode::Paren(a) => {
                out.append("(");
                a.render_into(out);
                out.append(")");
                assert(out@ =~= old(out)@ + self@.text());
            },
            ASTNode::PrefixExp(a) => {
                a.render_into(out);
            },
            ASTNode::FieldSingle(a) => {
                a.render_into(out);
            },
            ASTNode::FieldAssign(a, b) => {
                match &**a {
                    ASTNode::Name(_) => {
                        a.render_into(out);
                    },
                    _ => {
                        out.append("[");
                        a.render_into(out);
                        out.append("]");
                    },
                }
                out.append(" = ");
                b.render_into(out);
                assert(out@ =~= old(out)@ + self@.text());
            },
            ASTNode::Var(a) => {
                a.render_into(out);
            },
            ASTNode::VarPrefixed(a, b) => {
                a.render_into(out);
                out.append("[");
                b.render_into(out);
                out.append("]");
                assert(out@ =~= old(out)@ + self@.text());
            },
            ASTNode::VarListAccess(a, b) => {
                a.render_into(out);
                out.append(".");
                b.render_into(out);
                assert(out@ =~= old(out)@ + self@.text());
            },
            _ => {},
        }
    }
}

} // verus!
