//! Operators by precedence: one level of the grammar for each, the loosest
//! first.
use crate::ast::{binary, ASTNode, BinOp, Tree};
use crate::error::{seen, ParseFailure, Parsed};
use crate::exp::{parse_atom, parse_exp};
use crate::grammar::{
    exp, levels, operand, operation, pair, paren, parenthesised, rank, tail,
};
use crate::lexical::{match_tag, read_token, read_word, skip};
use vstd::prelude::*;

pub mod arithmetic_ops;
pub mod binary_ops;
pub mod concat_ops;
pub mod logic_ops;
pub mod relational_ops;
pub mod unary_ops;

verus! {

/// The operand `left` and the pairs of an operator and an operand after it,
/// folded to the left: each pair takes all that stands before it as its left
/// operand.
pub open spec fn fold(left: Tree, pairs: Seq<(BinOp, Tree)>) -> Tree
    decreases pairs.len(),
{
    if pairs.len() == 0 {
        left
    } else {
        binary(pairs.last().0, fold(left, pairs.drop_last()), pairs.last().1)
    }
}

/// Reads an expression: the operators of all levels and their operands.
pub fn parse_op<'a>(input: &'a [u8]) -> (r: Parsed<'a, ASTNode>)
    ensures
        seen(r) == exp(input@),
        r matches Ok((rest, _)) ==> rest@.len() <= input@.len(),
{
    parse_exp(input)
}

/// Reads an expression between `(` and `)`.
pub fn parse_parenthesised<'a>(input: &'a [u8]) -> (r: Parsed<'a, ASTNode>)
    ensures
        seen(r) == parenthesised(input@),
        r matches Ok((rest, _)) ==> rest@.len() < input@.len(),
    decreases input@.len(), 1int,
{
    match read_token(input, "(") {
        Ok((rest, _)) => match parse_exp(rest) {
            Ok((rest, inner)) => match match_tag(rest, ")") {
                Ok((rest, _)) => Ok((rest, inner)),
                Err(e) => Err(e),
            },
            Err(e) => Err(e),
        },
        Err(e) => Err(e),
    }
}

/// Reads an expression in parentheses as an operand.
pub fn parens<'a>(input: &'a [u8]) -> (r: Parsed<'a, ASTNode>)
    ensures
        seen(r) == paren(input@),
        r matches Ok((rest, _)) ==> rest@.len() < input@.len(),
    decreases input@.len(), 2int,
{
    match parse_parenthesised(input) {
        Ok((rest, inner)) => Ok((rest, ASTNode::Paren(Box::new(inner)))),
        Err(e) => Err(e),
    }
}

/// Reads a factor: an atom and the white space around it.
pub fn factor<'a>(input: &'a [u8]) -> (r: Parsed<'a, ASTNode>)
    ensures
        seen(r) == crate::grammar::factor(input@),
        r matches Ok((rest, _)) ==> rest@.len() <= input@.len(),
    decreases input@.len(), 4int,
{
    match parse_atom(skip(input)) {
        Ok((rest, value)) => Ok((skip(rest), value)),
        Err(e) => Err(e),
    }
}

/// Reads an operand of level `k`.
pub fn parse_operand<'a>(k: u8, input: &'a [u8]) -> (r: Parsed<'a, ASTNode>)
    ensures
        seen(r) == operand(k as int, input@),
        r matches Ok((rest, _)) ==> rest@.len() <= input@.len(),
    decreases input@.len(), rank(k as int),
{
    match k {
        0 => logic_ops::parse_logic_and(input),
        1 => relational_ops::parse_relational_ops(input),
        2 => binary_ops::parse_binary_or(input),
        3 => binary_ops::parse_binary_xor(input),
        4 => binary_ops::parse_binary_and(input),
        5 => binary_ops::parse_binary_shift(input),
        6 => concat_ops::parse_concat(input),
        7 => arithmetic_ops::parse_addsub(input),
        8 => arithmetic_ops::parse_multdiv(input),
        9 => unary_ops::parse_unop(input),
        10 => arithmetic_ops::parse_exponent(input),
        11 => self::factor(input),
        _ => Err(ParseFailure::SyntaxMismatch),
    }
}

/// Reads the operator written `text`, as a whole word where it is
/// `reserved`, and an operand of level `k` after it.
pub(crate) fn parse_operation<'a>(
    k: u8,
    input: &'a [u8],
    text: &str,
    reserved: bool,
    Ghost(op): Ghost<BinOp>,
) -> (r: Option<(&'a [u8], ASTNode)>)
    ensures
        match r {
            Some((rest, right)) => operation(k as int, input@, text@, reserved, op) == Some(
                (rest@, op, right@),
            ) && rest@.len() < input@.len(),
            None => operation(k as int, input@, text@, reserved, op) is None,
        },
    decreases input@.len(), rank(k as int) + 1,
{
    let opened = if reserved {
        read_word(input, text)
    } else {
        read_token(input, text)
    };
    match opened {
        Ok((rest, _)) => match parse_operand(k, rest) {
            Ok((rest, right)) => Some((rest, right)),
            Err(_) => None,
        },
        Err(_) => None,
    }
}

/// The operators of level `k` and their operands that follow at the start of
/// `s`, as many as are there.
pub open spec fn following(k: int, s: Seq<u8>) -> Seq<(BinOp, Tree)>
    decreases s.len(),
{
    match pair(k, s) {
        Some((rest, op, right)) => if 0 <= k < levels() && rest.len() < s.len() {
            seq![(op, right)] + following(k, rest)
        } else {
            Seq::empty()
        },
        None => Seq::empty(),
    }
}

/// What is left of `s` after the operators of level `k` and their operands.
pub open spec fn after(k: int, s: Seq<u8>) -> Seq<u8>
    decreases s.len(),
{
    match pair(k, s) {
        Some((rest, op, right)) => if 0 <= k < levels() && rest.len() < s.len() {
            after(k, rest)
        } else {
            s
        },
        None => s,
    }
}

/// Folding a first pair and then others is folding the others into what the
/// first pair makes of the operand.
pub proof fn lemma_fold_first(left: Tree, first: (BinOp, Tree), others: Seq<(BinOp, Tree)>)
    ensures
        fold(left, seq![first] + others) == fold(binary(first.0, left, first.1), others),
    decreases others.len(),
{
    let all = seq![first] + others;
    let made = binary(first.0, left, first.1);
    assert(fold(left, all) == binary(all.last().0, fold(left, all.drop_last()), all.last().1));
    if others.len() == 0 {
        assert(all.drop_last() =~= Seq::<(BinOp, Tree)>::empty());
        assert(all.last() == first);
        assert(fold(left, all.drop_last()) == left);
        assert(fold(made, others) == made);
    } else {
        assert(all.drop_last() =~= seq![first] + others.drop_last());
        assert(all.last() == others.last());
        lemma_fold_first(left, first, others.drop_last());
        assert(fold(made, others) == binary(
            others.last().0,
            fold(made, others.drop_last()),
            others.last().1,
        ));
    }
}

/// The operators of one level fold to the left: what follows an operand is
/// folded into it pair by pair, each pair taking all that stands before it as
/// its left operand.
pub proof fn law_operators_fold_left(k: int, s: Seq<u8>, left: Tree)
    ensures
        tail(k, s, left) == (after(k, s), fold(left, following(k, s))),
    decreases s.len(),
{
    match pair(k, s) {
        Some((rest, op, right)) => {
            if 0 <= k < levels() && rest.len() < s.len() {
                law_operators_fold_left(k, rest, binary(op, left, right));
                lemma_fold_first(left, (op, right), following(k, rest));
            }
        },
        None => {},
    }
}

} // verus!
