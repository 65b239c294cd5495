//! The text of an expression reads back as the expression.
//!
//! The law is stated for the trees made of integers that are not negative,
//! floats whose text is a float numeral, strings, `true`, `false`, `nil`,
//! `...`, operators and parentheses, where no unary operator is the operand
//! after `^`. Their texts put every binary operator in parentheses, and a
//! unary operator before `^` as well, so a text reads back with a `Paren`
//! around each of these: the same tree but for its parentheses.
use crate::ast::{binary, unary, ASTNode, BinOp, Tree, UnOp};
use crate::exp::parse_exp;
use crate::numerals::lemma_float_text_ascii;
use crate::quoted::lemma_quoted_ascii;
use crate::error::ParseFailure;
use crate::grammar::{exp, levels};
use crate::render::shielded;
use crate::lexical::{lemma_run_len, skip_space, Class};

use crate::steps::{
    delimited, follows, is_float_numeral, lemma_parentheses, lemma_skip_space_more,
    lemma_skip_space_none, lemma_written_add, level_of, opens_atom, reads, step_boolean,
    step_closed, step_exp, step_fold, step_fold_end, step_integer, step_leading_space, step_level,
    step_lift, step_nil, step_no_unary, step_operator, step_parentheses, step_prefixed, step_float,
    step_text, step_unary_found, step_vararg, written, is_ascii, lemma_ascii_add, lemma_digits, lemma_tokens,
};
use vstd::prelude::*;
use vstd::utf8::{encode_utf8, is_ascii_chars, is_ascii_chars_encode_utf8};

verus! {

/// The trees for which the law is stated: integers that are not negative,
/// floats whose text is a float numeral, strings, `true`, `false`, `nil`,
/// `...`, and operators and parentheses over these, but no unary operator as
/// the operand after `^`: there the text holds no parentheses, and what
/// follows `^` is read as an operand without operators.
pub open spec fn plain(t: Tree) -> bool
    decreases t,
{
    match t {
        Tree::Integer(value) => 0 <= value <= i64::MAX,
        Tree::Float(text) => is_float_numeral(text),
        Tree::Bool(_) => true,
        Tree::Text(_) => true,
        Tree::Nil => true,
        Tree::VarArg => true,
        Tree::Binary(op, a, b) => plain(*a) && plain(*b) && !(op == BinOp::Exp && *b is Unary),
        Tree::Unary(_, a) => plain(*a),
        Tree::Paren(a) => plain(*a),
        _ => false,
    }
}

/// What the operand before `op` reads as, where `a` reads as `read`: in
/// parentheses where it is written so.
pub open spec fn reread_before(op: BinOp, a: Tree, read: Tree) -> Tree {
    if shielded(op, a) {
        Tree::Paren(Box::new(read))
    } else {
        read
    }
}

/// What the text of a plain tree reads as: the tree with a `Paren` wherever
/// the text has parentheses, around every binary operator and around a unary
/// operator before `^`.
pub open spec fn reread(t: Tree) -> Tree
    decreases t,
{
    match t {
        Tree::Binary(op, a, b) => Tree::Paren(
            Box::new(binary(op, reread_before(op, *a, reread(*a)), reread(*b))),
        ),
        Tree::Unary(op, a) => unary(op, reread(*a)),
        Tree::Paren(a) => Tree::Paren(Box::new(reread(*a))),
        _ => t,
    }
}

/// A tree of operators without its parentheses.
pub open spec fn bare(t: Tree) -> Tree
    decreases t,
{
    match t {
        Tree::Binary(op, a, b) => binary(op, bare(*a), bare(*b)),
        Tree::Unary(op, a) => unary(op, bare(*a)),
        Tree::Paren(a) => bare(*a),
        _ => t,
    }
}

/// What a text reads as is the tree of the text, but for parentheses.
pub proof fn lemma_same_shape(t: Tree)
    requires
        plain(t),
    ensures
        bare(reread(t)) == bare(t),
    decreases t,
{
    match t {
        Tree::Binary(op, a, b) => {
            lemma_same_shape(*a);
            lemma_same_shape(*b);
            assert(bare(reread_before(op, *a, reread(*a))) == bare(reread(*a)));
            assert(bare(reread(t)) == bare(
                binary(op, reread_before(op, *a, reread(*a)), reread(*b)),
            ));
        },
        Tree::Unary(op, a) => {
            lemma_same_shape(*a);
            assert(bare(reread(t)) == unary(op, bare(reread(*a))));
        },
        Tree::Paren(a) => {
            lemma_same_shape(*a);
            assert(bare(reread(t)) == bare(reread(*a)));
        },
        _ => {},
    }
}

/// The bytes of the text of an operator between its operands, in
/// parentheses.
proof fn lemma_written_binary(a: Seq<char>, o: Seq<char>, b: Seq<char>, tail: Seq<u8>)
    ensures
        written("("@ + a + " "@ + o + " "@ + b + ")"@) + tail == seq![0x28u8] + (written(a) + (
            seq![0x20u8] + (written(o) + (seq![0x20u8] + (written(b) + (seq![0x29u8] + tail))))
        )),
{
    lemma_parentheses();
    reveal_strlit(" ");
    lemma_written_add("("@ + a + " "@ + o + " "@ + b, ")"@);
    lemma_written_add("("@ + a + " "@ + o + " "@, b);
    lemma_written_add("("@ + a + " "@ + o, " "@);
    lemma_written_add("("@ + a + " "@, o);
    lemma_written_add("("@ + a, " "@);
    lemma_written_add("("@, a);
    assert(written("("@ + a + " "@ + o + " "@ + b + ")"@) + tail =~= seq![0x28u8] + (written(a)
        + (seq![0x20u8] + (written(o) + (seq![0x20u8] + (written(b) + (seq![0x29u8] + tail)))))));
}

/// The bytes of the text of an operator before its operand.
proof fn lemma_written_unary(o: Seq<char>, a: Seq<char>, tail: Seq<u8>)
    ensures
        written(o + a) + tail == written(o) + (written(a) + tail),
{
    lemma_written_add(o, a);
    assert(written(o + a) + tail =~= written(o) + (written(a) + tail));
}

/// The bytes of a text in parentheses.
proof fn lemma_written_paren(a: Seq<char>, tail: Seq<u8>)
    ensures
        written("("@ + a + ")"@) + tail == seq![0x28u8] + (written(a) + (seq![0x29u8] + tail)),
{
    lemma_parentheses();
    lemma_written_add("("@ + a, ")"@);
    lemma_written_add("("@, a);
    assert(written("("@ + a + ")"@) + tail =~= seq![0x28u8] + (written(a) + (seq![0x29u8]
        + tail)));
}

/// Whether `s` begins as a written expression does: with no white space.
pub open spec fn begins(s: Seq<u8>) -> bool {
    s.len() > 0 && !Class::Space.has(s[0])
}

/// The text of a plain tree that is no unary operator, before what may
/// follow an operand, reads as a factor: as what it reads back as, and the
/// white space after it is skipped.
pub proof fn lemma_reads_back(t: Tree, tail: Seq<u8>)
    requires
        plain(t),
        !(t is Unary),
        delimited(tail),
    ensures
        reads(levels(), written(t.text()) + tail) == Ok::<_, ParseFailure>(
            (skip_space(tail), reread(t)),
        ),
        opens_atom(written(t.text()) + tail),
    decreases t, 1int,
{
    match t {
        Tree::Integer(value) => {
            step_integer(value as nat, tail);
        },
        Tree::Bool(value) => {
            step_boolean(value, tail);
        },
        Tree::Nil => {
            step_nil(tail);
        },
        Tree::VarArg => {
            step_vararg(tail);
        },
        Tree::Text(text) => {
            step_text(text, tail);
        },
        Tree::Float(text) => {
            step_float(text, tail);
        },
        Tree::Binary(op, a, b) => {
            let k = level_of(op);
            let close = seq![0x29u8] + tail;
            let right = written(b.text()) + close;
            let from_op = written(op.text()) + (seq![0x20u8] + right);
            let after_left = seq![0x20u8] + from_op;
            let left_text = if shielded(op, *a) {
                "("@ + a.text() + ")"@
            } else {
                a.text()
            };
            lemma_written_binary(left_text, op.text(), b.text(), tail);
            step_closed(close);
            lemma_skip_space_none(close);
            lemma_reads_back_at(*b, k + 1, close);
            step_leading_space(k + 1, right);
            step_operator(op, right, close, reread(*b));
            lemma_skip_space_none(from_op);
            lemma_skip_space_more(from_op);
            if shielded(op, *a) {
                let inner_close = seq![0x29u8] + after_left;
                lemma_written_paren(a.text(), after_left);
                step_closed(inner_close);
                lemma_skip_space_none(inner_close);
                lemma_reads_back_at(*a, 0, inner_close);
                step_parentheses(written(a.text()) + inner_close, after_left, reread(*a));
            } else {
                lemma_reads_back_at(*a, k + 1, after_left);
            }
            lemma_binary_reads(
                op,
                written(left_text),
                reread_before(op, *a, reread(*a)),
                written(b.text()),
                reread(*b),
                tail,
            );
        },
        Tree::Paren(a) => {
            let close = seq![0x29u8] + tail;
            let inner = written(a.text()) + close;
            lemma_written_paren(a.text(), tail);
            step_closed(close);
            lemma_skip_space_none(close);
            lemma_reads_back_at(*a, 0, close);
            step_parentheses(inner, tail, reread(*a));
        },
        _ => {},
    }
}

/// The text of a unary operator over a plain tree, before what may follow an
/// operand and is no `^`, reads at the level of the unary operators as the
/// operator over what the operand reads back as.
pub proof fn lemma_unary_reads_back(t: Tree, tail: Seq<u8>)
    requires
        plain(t),
        t is Unary,
        delimited(tail),
        forall|j: int| 10 <= j < levels() ==> (#[trigger] follows(j, skip_space(tail))) is None,
    ensures
        reads(10, written(t.text()) + tail) == Ok::<_, ParseFailure>(
            (skip_space(tail), reread(t)),
        ),
        begins(written(t.text()) + tail),
    decreases t, 1int,
{
    match t {
        Tree::Unary(op, a) => {
            let operand = written(a.text()) + tail;
            let s = written(op.text()) + operand;
            lemma_written_unary(op.text(), a.text(), tail);
            lemma_reads_back_at(*a, 10, tail);
            step_unary_found(op, operand);
            let after = if op == UnOp::Not {
                seq![0x20u8] + operand
            } else {
                operand
            };
            if op == UnOp::Not {
                step_leading_space(10, operand);
            }
            assert(s[0] == written(op.text())[0]);
            lemma_skip_space_none(s);
            lemma_run_len(tail, Class::Space);
            step_prefixed(s, op, after, skip_space(tail), reread(*a));
        },
        _ => {},
    }
}

/// Two operands with an operator between them, in parentheses, read as the
/// operator over what the operands read as.
proof fn lemma_binary_reads(
    op: BinOp,
    left: Seq<u8>,
    a: Tree,
    right: Seq<u8>,
    b: Tree,
    tail: Seq<u8>,
)
    requires
        delimited(tail),
        begins(
            left + (seq![0x20u8] + (written(op.text()) + (seq![0x20u8] + (right + (seq![0x29u8]
                + tail))))),
        ),
        level_of(op) > 10 ==> opens_atom(
            left + (seq![0x20u8] + (written(op.text()) + (seq![0x20u8] + (right + (seq![0x29u8]
                + tail))))),
        ),
        reads(
            level_of(op) + 1,
            left + (seq![0x20u8] + (written(op.text()) + (seq![0x20u8] + (right + (seq![0x29u8]
                + tail))))),
        ) == Ok::<_, ParseFailure>(
            (written(op.text()) + (seq![0x20u8] + (right + (seq![0x29u8] + tail))), a),
        ),
        follows(
            level_of(op),
            written(op.text()) + (seq![0x20u8] + (right + (seq![0x29u8] + tail))),
        ) == Some((seq![0x29u8] + tail, op, b)),
    ensures
        reads(
            levels(),
            seq![0x28u8] + (left + (seq![0x20u8] + (written(op.text()) + (seq![0x20u8] + (right + (
                seq![0x29u8] + tail
            )))))),
        ) == Ok::<_, ParseFailure>((skip_space(tail), Tree::Paren(Box::new(binary(op, a, b))))),
        opens_atom(
            seq![0x28u8] + (left + (seq![0x20u8] + (written(op.text()) + (seq![0x20u8] + (right + (
                seq![0x29u8] + tail
            )))))),
        ),
{
    let k = level_of(op);
    let close = seq![0x29u8] + tail;
    let from_op = written(op.text()) + (seq![0x20u8] + (right + close));
    let inner = left + (seq![0x20u8] + from_op);
    let both = binary(op, a, b);
    assert(0 <= k < levels() && k != 10);
    step_closed(close);
    step_level(k, inner, from_op, a);
    step_fold(k, from_op, a, close, op, b);
    step_fold_end(k, close, both);
    assert(reads(k, inner) == Ok::<_, ParseFailure>((close, both)));
    lemma_skip_space_none(inner);
    if k > 10 {
        step_no_unary(inner);
    }
    step_lift(k, 0, inner, close, both);
    step_parentheses(inner, tail, both);
}

/// The text of a plain tree reads as an expression of level `k` where no
/// operator of that level or a tighter one follows it; a unary operator at
/// its own level and the looser ones.
pub proof fn lemma_reads_back_at(t: Tree, k: int, tail: Seq<u8>)
    requires
        plain(t),
        delimited(tail),
        0 <= k <= levels(),
        t is Unary ==> k <= 10,
        forall|j: int| k <= j < levels() ==> (#[trigger] follows(j, skip_space(tail))) is None,
    ensures
        reads(k, written(t.text()) + tail) == Ok::<_, ParseFailure>((skip_space(tail), reread(t))),
        begins(written(t.text()) + tail),
        !(t is Unary) ==> opens_atom(written(t.text()) + tail),
    decreases t, 2int,
{
    let s = written(t.text()) + tail;
    lemma_run_len(tail, Class::Space);
    if t is Unary {
        lemma_unary_reads_back(t, tail);
        step_lift(10, k, s, skip_space(tail), reread(t));
    } else {
        lemma_reads_back(t, tail);
        lemma_skip_space_none(s);
        step_no_unary(s);
        step_lift(levels(), k, s, skip_space(tail), reread(t));
    }
}

/// The text of a plain tree reads back, all of it, as the tree with a `Paren`
/// wherever the text has parentheses: as the same tree, but for parentheses.
pub proof fn law_text_reads_back(t: Tree)
    requires
        plain(t),
    ensures
        exp(written(t.text())) == Ok::<_, ParseFailure>((Seq::<u8>::empty(), reread(t))),
        bare(reread(t)) == bare(t),
{
    let nothing = Seq::<u8>::empty();
    lemma_same_shape(t);
    lemma_skip_space_none(nothing);
    step_closed(nothing);
    lemma_reads_back_at(t, 0, nothing);
    assert(written(t.text()) + nothing =~= written(t.text()));
    step_exp(written(t.text()));
}

/// The text of a plain tree is made of ASCII characters.
pub proof fn lemma_plain_ascii(t: Tree)
    requires
        plain(t),
    ensures
        is_ascii(t.text()),
    decreases t,
{
    lemma_parentheses();
    reveal_strlit(" ");
    match t {
        Tree::Integer(value) => {
            lemma_digits(value as nat);
        },
        Tree::Float(text) => {
            lemma_float_text_ascii(written(text), Seq::empty(), text);
        },
        Tree::Bool(value) => {
            reveal_strlit("true");
            reveal_strlit("false");
        },
        Tree::Text(text) => {
            lemma_quoted_ascii(text);
        },
        Tree::Nil => {
            reveal_strlit("nil");
        },
        Tree::VarArg => {
            reveal_strlit("...");
        },
        Tree::Binary(op, a, b) => {
            lemma_plain_ascii(*a);
            lemma_plain_ascii(*b);
            lemma_tokens();
            let left = if shielded(op, *a) {
                "("@ + a.text() + ")"@
            } else {
                a.text()
            };
            lemma_ascii_add("("@, a.text());
            lemma_ascii_add("("@ + a.text(), ")"@);
            lemma_ascii_add("("@, left);
            lemma_ascii_add("("@ + left, " "@);
            lemma_ascii_add("("@ + left + " "@, op.text());
            lemma_ascii_add("("@ + left + " "@ + op.text(), " "@);
            lemma_ascii_add("("@ + left + " "@ + op.text() + " "@, b.text());
            lemma_ascii_add("("@ + left + " "@ + op.text() + " "@ + b.text(), ")"@);
        },
        Tree::Unary(op, a) => {
            lemma_plain_ascii(*a);
            lemma_tokens();
            reveal_strlit("not ");
            lemma_ascii_add(op.text(), a.text());
        },
        Tree::Paren(a) => {
            lemma_plain_ascii(*a);
            lemma_ascii_add("("@, a.text());
            lemma_ascii_add("("@ + a.text(), ")"@);
        },
        _ => {},
    }
}

/// What the whole of `s` reads as, where all of it is an expression.
pub open spec fn whole(s: Seq<u8>) -> Option<Tree> {
    match exp(s) {
        Ok((rest, tree)) => if rest.len() == 0 {
            Some(tree)
        } else {
            None
        },
        Err(_) => None,
    }
}

impl ASTNode {
    /// Reads the text of the node back: the node that the whole text reads
    /// as, where all of it is an expression. The text of a plain tree reads
    /// back as the tree with a `Paren` wherever the text has parentheses.
    pub fn read_back(&self) -> (r: Option<ASTNode>)
        ensures
            crate::seen_node(r) == whole(encode_utf8(self@.text())),
            plain(self@) ==> crate::seen_node(r) == Some(reread(self@)),
    {
        let text = self.to_string();
        let r = match parse_exp(text.as_str().as_bytes()) {
            Ok((rest, node)) => {
                if rest.len() == 0 {
                    Some(node)
                } else {
                    None
                }
            },
            Err(_) => None,
        };
        proof {
            if plain(self@) {
                lemma_plain_ascii(self@);
                assert(is_ascii_chars(text@));
                is_ascii_chars_encode_utf8(text@);
                assert(encode_utf8(text@) =~= written(text@));
                law_text_reads_back(self@);
            }
        }
        r
    }
}

} // verus!
