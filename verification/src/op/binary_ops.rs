//! The bitwise operators with two operands.
use crate::ast::{ASTNode, BinOp, Tree};
use crate::error::{seen, Parsed};
use crate::grammar::{
    level, level_bit_and, level_bit_or, level_bit_xor, level_shift, pair, rank, tail,
};
use crate::op::{fold, parse_operand, parse_operation};
use vstd::prelude::*;

verus! {

/// A bitwise operator with two operands.
#[derive(Clone, Copy, Debug, PartialEq, Eq, Structural)]
pub enum BinaryOps {
    BitOr,
    BitAnd,
    BitXor,
    Rsh,
    Lsh,
}

impl BinaryOps {
    /// The operator among all binary operators.
    pub open spec fn binop(self) -> BinOp {
        match self {
            BinaryOps::BitOr => BinOp::BitOr,
            BinaryOps::BitAnd => BinOp::BitAnd,
            BinaryOps::BitXor => BinOp::BitXor,
            BinaryOps::Rsh => BinOp::Rsh,
            BinaryOps::Lsh => BinOp::Lsh,
        }
    }
}

/// What pairs of an operator and a node stand for.
pub open spec fn binary_pairs(remainder: Seq<(BinaryOps, ASTNode)>) -> Seq<(BinOp, Tree)> {
    Seq::new(remainder.len(), |i: int| (remainder[i].0.binop(), remainder[i].1@))
}

/// Folds an operand and the pairs of an operator and an operand after it into
/// one node, to the left.
pub fn fold_binary_ops(initial: ASTNode, remainder: Vec<(BinaryOps, ASTNode)>) -> (r: ASTNode)
    ensures
        r@ == fold(initial@, binary_pairs(remainder@)),
{
    let ghost first = initial@;
    let ghost all = remainder@;
    let mut acc = initial;
    for found in it: remainder
        invariant
            it.seq() == all,
            acc@ == fold(first, binary_pairs(all.take(it.index() as int))),
    {
        proof {
            let done = binary_pairs(all.take(it.index() as int));
            let next = binary_pairs(all.take(it.index() + 1));
            assert(next.drop_last() =~= done);
            assert(next.last() == (found.0.binop(), found.1@));
        }
        let (ops, expr) = found;
        acc =
        match ops {
            BinaryOps::BitOr => ASTNode::BitOr(Box::new(acc), Box::new(expr)),
            BinaryOps::BitAnd => ASTNode::BitAnd(Box::new(acc), Box::new(expr)),
            BinaryOps::BitXor => ASTNode::BitXor(Box::new(acc), Box::new(expr)),
            BinaryOps::Rsh => ASTNode::Rsh(Box::new(acc), Box::new(expr)),
            BinaryOps::Lsh => ASTNode::Lsh(Box::new(acc), Box::new(expr)),
        };
    }
    assert(all.take(all.len() as int) =~= all);
    acc
}

/// Reads an operator of level `k` and the operand after it.
fn binary_pair<'a>(k: u8, input: &'a [u8]) -> (r: Option<(&'a [u8], BinaryOps, ASTNode)>)
    requires
        k == 6 || k == 5 || k == 4 || k == 3,
    ensures
        match r {
            Some((rest, ops, right)) => pair(k as int, input@) == Some(
                (rest@, ops.binop(), right@),
            ) && rest@.len() < input@.len(),
            None => pair(k as int, input@) is None,
        },
    decreases input@.len(), rank(k as int) + 2,
{
    if k == 6 {
        match parse_operation(6, input, "<<", false, Ghost(BinOp::Lsh)) {
            Some((rest, right)) => {
                return Some((rest, BinaryOps::Lsh, right));
            },
            None => {},
        }
        match parse_operation(6, input, ">>", false, Ghost(BinOp::Rsh)) {
            Some((rest, right)) => {
                return Some((rest, BinaryOps::Rsh, right));
            },
            None => {},
        }
        None
    } else if k == 5 {
        match parse_operation(5, input, "&", false, Ghost(BinOp::BitAnd)) {
            Some((rest, right)) => {
                return Some((rest, BinaryOps::BitAnd, right));
            },
            None => {},
        }
        None
    } else if k == 4 {
        match parse_operation(4, input, "~", false, Ghost(BinOp::BitXor)) {
            Some((rest, right)) => {
                return Some((rest, BinaryOps::BitXor, right));
            },
            None => {},
        }
        None
    } else {
        match parse_operation(3, input, "|", false, Ghost(BinOp::BitOr)) {
            Some((rest, right)) => {
                return Some((rest, BinaryOps::BitOr, right));
            },
            None => {},
        }
        None
    }
}

/// Reads what follows the first operand at level `k`: pairs of an operator
/// and an operand, as many as are there.
fn binary_remainder<'a>(k: u8, input: &'a [u8], Ghost(left): Ghost<Tree>) -> (r: (
    &'a [u8],
    Vec<(BinaryOps, ASTNode)>,
))
    requires
        k == 6 || k == 5 || k == 4 || k == 3,
    ensures
        tail(k as int, input@, left) == (r.0@, fold(left, binary_pairs(r.1@))),
        r.0@.len() <= input@.len(),
    decreases input@.len(), rank(k as int) + 3,
{
    let mut rest = input;
    let mut remainder: Vec<(BinaryOps, ASTNode)> = Vec::new();
    loop
        invariant
            k == 6 || k == 5 || k == 4 || k == 3,
            rest@.len() <= input@.len(),
            tail(k as int, input@, left) == tail(
                k as int,
                rest@,
                fold(left, binary_pairs(remainder@)),
            ),
        ensures
            rest@.len() <= input@.len(),
            tail(k as int, input@, left) == (rest@, fold(left, binary_pairs(remainder@))),
        decreases rest@.len(),
    {
        match binary_pair(k, rest) {
            Some((next, ops, right)) => {
                proof {
                    let before = binary_pairs(remainder@);
                    let after = binary_pairs(remainder@.push((ops, right)));
                    assert(after.drop_last() =~= before);
                    assert(after.last() == (ops.binop(), right@));
                }
                remainder.push((ops, right));
                rest = next;
            },
            None => {
                break ;
            },
        }
    }
    (rest, remainder)
}

/// Reads an expression of `<<` and `>>`.
pub fn parse_binary_shift<'a>(input: &'a [u8]) -> (r: Parsed<'a, ASTNode>)
    ensures
        seen(r) == level(level_shift(), input@),
        r matches Ok((rest, _)) ==> rest@.len() <= input@.len(),
    decreases input@.len(), rank(level_shift()) + 4,
{
    match parse_operand(6, input) {
        Ok((rest, initial)) => {
            let (rest, remainder) = binary_remainder(6, rest, Ghost(initial@));
            Ok((rest, fold_binary_ops(initial, remainder)))
        },
        Err(e) => Err(e),
    }
}

/// Reads an expression of `&`.
pub fn parse_binary_and<'a>(input: &'a [u8]) -> (r: Parsed<'a, ASTNode>)
    ensures
        seen(r) == level(level_bit_and(), input@),
        r matches Ok((rest, _)) ==> rest@.len() <= input@.len(),
    decreases input@.len(), rank(level_bit_and()) + 4,
{
    match parse_operand(5, input) {
        Ok((rest, initial)) => {
            let (rest, remainder) = binary_remainder(5, rest, Ghost(initial@));
            Ok((rest, fold_binary_ops(initial, remainder)))
        },
        Err(e) => Err(e),
    }
}

/// Reads an expression of the binary `~`.
pub fn parse_binary_xor<'a>(input: &'a [u8]) -> (r: Parsed<'a, ASTNode>)
    ensures
        seen(r) == level(level_bit_xor(), input@),
        r matches Ok((rest, _)) ==> rest@.len() <= input@.len(),
    decreases input@.len(), rank(level_bit_xor()) + 4,
{
    match parse_operand(4, input) {
        Ok((rest, initial)) => {
            let (rest, remainder) = binary_remainder(4, rest, Ghost(initial@));
            Ok((rest, fold_binary_ops(initial, remainder)))
        },
        Err(e) => Err(e),
    }
}

/// Reads an expression of `|`.
pub fn parse_binary_or<'a>(input: &'a [u8]) -> (r: Parsed<'a, ASTNode>)
    ensures
        seen(r) == level(level_bit_or(), input@),
        r matches Ok((rest, _)) ==> rest@.len() <= input@.len(),
    decreases input@.len(), rank(level_bit_or()) + 4,
{
    match parse_operand(3, input) {
        Ok((rest, initial)) => {
            let (rest, remainder) = binary_remainder(3, rest, Ghost(initial@));
            Ok((rest, fold_binary_ops(initial, remainder)))
        },
        Err(e) => Err(e),
    }
}

} // verus!
