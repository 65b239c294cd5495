//! The concatenation operator.
use crate::ast::{ASTNode, BinOp, Tree};
use crate::error::{seen, Parsed};
use crate::grammar::{level, level_concat, pair, rank, tail};
use crate::op::{fold, parse_operand, parse_operation};
use vstd::prelude::*;

verus! {

/// The concatenation operator.
#[derive(Clone, Copy, Debug, PartialEq, Eq, Structural)]
pub enum ConcatenationOps {
    Concat,
}

impl ConcatenationOps {
    /// The operator among all binary operators.
    pub open spec fn binop(self) -> BinOp {
        match self {
            ConcatenationOps::Concat => BinOp::Concat,
        }
    }
}

/// What pairs of an operator and a node stand for.
pub open spec fn concat_pairs(remainder: Seq<(ConcatenationOps, ASTNode)>) -> Seq<(BinOp, Tree)> {
    Seq::new(remainder.len(), |i: int| (remainder[i].0.binop(), remainder[i].1@))
}

/// Folds an operand and the pairs of an operator and an operand after it into
/// one node, to the left.
pub fn fold_concat_ops(initial: ASTNode, remainder: Vec<(ConcatenationOps, ASTNode)>) -> (r: ASTNode)
    ensures
        r@ == fold(initial@, concat_pairs(remainder@)),
{
    let ghost first = initial@;
    let ghost all = remainder@;
    let mut acc = initial;
    for found in it: remainder
        invariant
            it.seq() == all,
            acc@ == fold(first, concat_pairs(all.take(it.index() as int))),
    {
        proof {
            let done = concat_pairs(all.take(it.index() as int));
            let next = concat_pairs(all.take(it.index() + 1));
            assert(next.drop_last() =~= done);
            assert(next.last() == (found.0.binop(), found.1@));
        }
        let (ops, expr) = found;
        acc =
        match ops {
            ConcatenationOps::Concat => ASTNode::Concat(Box::new(acc), Box::new(expr)),
        };
    }
    assert(all.take(all.len() as int) =~= all);
    acc
}

/// Reads an operator of the level and the operand after it.
fn concat_pair<'a>(input: &'a [u8]) -> (r: Option<(&'a [u8], ConcatenationOps, ASTNode)>)
    ensures
        match r {
            Some((rest, ops, right)) => pair(level_concat(), input@) == Some(
                (rest@, ops.binop(), right@),
            ) && rest@.len() < input@.len(),
            None => pair(level_concat(), input@) is None,
        },
    decreases input@.len(), rank(level_concat()) + 2,
{
    match parse_operation(7, input, "..", false, Ghost(BinOp::Concat)) {
        Some((rest, right)) => {
            return Some((rest, ConcatenationOps::Concat, right));
        },
        None => {},
    }
    None
}

/// Reads what follows the first operand: pairs of an operator
/// and an operand, as many as are there.
fn concat_remainder<'a>(input: &'a [u8], Ghost(left): Ghost<Tree>) -> (r: (
    &'a [u8],
    Vec<(ConcatenationOps, ASTNode)>,
))
    ensures
        tail(level_concat(), input@, left) == (r.0@, fold(left, concat_pairs(r.1@))),
        r.0@.len() <= input@.len(),
    decreases input@.len(), rank(level_concat()) + 3,
{
    let mut rest = input;
    let mut remainder: Vec<(ConcatenationOps, ASTNode)> = Vec::new();
    loop
        invariant
            rest@.len() <= input@.len(),
            tail(level_concat(), input@, left) == tail(
                level_concat(),
                rest@,
                fold(left, concat_pairs(remainder@)),
            ),
        ensures
            rest@.len() <= input@.len(),
            tail(level_concat(), input@, left) == (rest@, fold(left, concat_pairs(remainder@))),
        decreases rest@.len(),
    {
        match concat_pair(rest) {
            Some((next, ops, right)) => {
                proof {
                    let before = concat_pairs(remainder@);
                    let after = concat_pairs(remainder@.push((ops, right)));
                    assert(after.drop_last() =~= before);
                    assert(after.last() == (ops.binop(), right@));
                }
                remainder.push((ops, right));
                rest = next;
            },
            None => {
                break ;
            },
        }
    }
    (rest, remainder)
}

/// Reads an expression of `..`.
pub fn parse_concat<'a>(input: &'a [u8]) -> (r: Parsed<'a, ASTNode>)
    ensures
        seen(r) == level(level_concat(), input@),
        r matches Ok((rest, _)) ==> rest@.len() <= input@.len(),
    decreases input@.len(), rank(level_concat()) + 4,
{
    match parse_operand(7, input) {
        Ok((rest, initial)) => {
            let (rest, remainder) = concat_remainder(rest, Ghost(initial@));
            Ok((rest, fold_concat_ops(initial, remainder)))
        },
        Err(e) => Err(e),
    }
}

} // verus!
