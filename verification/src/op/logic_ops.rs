//! The logic operators with two operands.
use crate::ast::{ASTNode, BinOp, Tree};
use crate::error::{seen, Parsed};
use crate::grammar::{level, level_and, level_or, pair, rank, tail};
use crate::op::{fold, parse_operand, parse_operation};
use vstd::prelude::*;

verus! {

/// A logic operator with two operands.
#[derive(Clone, Copy, Debug, PartialEq, Eq, Structural)]
pub enum LogicOps {
    Or,
    And,
}

impl LogicOps {
    /// The operator among all binary operators.
    pub open spec fn binop(self) -> BinOp {
        match self {
            LogicOps::Or => BinOp::Or,
            LogicOps::And => BinOp::And,
        }
    }
}

/// What pairs of an operator and a node stand for.
pub open spec fn logic_pairs(remainder: Seq<(LogicOps, ASTNode)>) -> Seq<(BinOp, Tree)> {
    Seq::new(remainder.len(), |i: int| (remainder[i].0.binop(), remainder[i].1@))
}

/// Folds an operand and the pairs of an operator and an operand after it into
/// one node, to the left.
pub fn fold_logic_ops(initial: ASTNode, remainder: Vec<(LogicOps, ASTNode)>) -> (r: ASTNode)
    ensures
        r@ == fold(initial@, logic_pairs(remainder@)),
{
    let ghost first = initial@;
    let ghost all = remainder@;
    let mut acc = initial;
    for found in it: remainder
        invariant
            it.seq() == all,
            acc@ == fold(first, logic_pairs(all.take(it.index() as int))),
    {
        proof {
            let done = logic_pairs(all.take(it.index() as int));
            let next = logic_pairs(all.take(it.index() + 1));
            assert(next.drop_last() =~= done);
            assert(next.last() == (found.0.binop(), found.1@));
        }
        let (ops, expr) = found;
        acc =
        match ops {
            LogicOps::Or => ASTNode::Or(Box::new(acc), Box::new(expr)),
            LogicOps::And => ASTNode::And(Box::new(acc), Box::new(expr)),
        };
    }
    assert(all.take(all.len() as int) =~= all);
    acc
}

/// Reads an operator of level `k` and the operand after it.
fn logic_pair<'a>(k: u8, input: &'a [u8]) -> (r: Option<(&'a [u8], LogicOps, ASTNode)>)
    requires
        k == 1 || k == 0,
    ensures
        match r {
            Some((rest, ops, right)) => pair(k as int, input@) == Some(
                (rest@, ops.binop(), right@),
            ) && rest@.len() < input@.len(),
            None => pair(k as int, input@) is None,
        },
    decreases input@.len(), rank(k as int) + 2,
{
    if k == 1 {
        match parse_operation(1, input, "and", true, Ghost(BinOp::And)) {
            Some((rest, right)) => {
                return Some((rest, LogicOps::And, right));
            },
            None => {},
        }
        None
    } else {
        match parse_operation(0, input, "or", true, Ghost(BinOp::Or)) {
            Some((rest, right)) => {
                return Some((rest, LogicOps::Or, right));
            },
            None => {},
        }
        None
    }
}

/// Reads what follows the first operand at level `k`: pairs of an operator
/// and an operand, as many as are there.
fn logic_remainder<'a>(k: u8, input: &'a [u8], Ghost(left): Ghost<Tree>) -> (r: (
    &'a [u8],
    Vec<(LogicOps, ASTNode)>,
))
    requires
        k == 1 || k == 0,
    ensures
        tail(k as int, input@, left) == (r.0@, fold(left, logic_pairs(r.1@))),
        r.0@.len() <= input@.len(),
    decreases input@.len(), rank(k as int) + 3,
{
    let mut rest = input;
    let mut remainder: Vec<(LogicOps, ASTNode)> = Vec::new();
    loop
        invariant
            k == 1 || k == 0,
            rest@.len() <= input@.len(),
            tail(k as int, input@, left) == tail(
                k as int,
                rest@,
                fold(left, logic_pairs(remainder@)),
            ),
        ensures
            rest@.len() <= input@.len(),
            tail(k as int, input@, left) == (rest@, fold(left, logic_pairs(remainder@))),
        decreases rest@.len(),
    {
        match logic_pair(k, rest) {
            Some((next, ops, right)) => {
                proof {
                    let before = logic_pairs(remainder@);
                    let after = logic_pairs(remainder@.push((ops, right)));
                    assert(after.drop_last() =~= before);
                    assert(after.last() == (ops.binop(), right@));
                }
                remainder.push((ops, right));
                rest = next;
            },
            None => {
                break ;
            },
        }
    }
    (rest, remainder)
}

/// Reads an expression of `and`.
pub fn parse_logic_and<'a>(input: &'a [u8]) -> (r: Parsed<'a, ASTNode>)
    ensures
        seen(r) == level(level_and(), input@),
        r matches Ok((rest, _)) ==> rest@.len() <= input@.len(),
    decreases input@.len(), rank(level_and()) + 4,
{
    match parse_operand(1, input) {
        Ok((rest, initial)) => {
            let (rest, remainder) = logic_remainder(1, rest, Ghost(initial@));
            Ok((rest, fold_logic_ops(initial, remainder)))
        },
        Err(e) => Err(e),
    }
}

/// Reads an expression of `or`.
pub fn parse_logic_or<'a>(input: &'a [u8]) -> (r: Parsed<'a, ASTNode>)
    ensures
        seen(r) == level(level_or(), input@),
        r matches Ok((rest, _)) ==> rest@.len() <= input@.len(),
    decreases input@.len(), rank(level_or()) + 4,
{
    match parse_operand(0, input) {
        Ok((rest, initial)) => {
            let (rest, remainder) = logic_remainder(0, rest, Ghost(initial@));
            Ok((rest, fold_logic_ops(initial, remainder)))
        },
        Err(e) => Err(e),
    }
}

} // verus!
