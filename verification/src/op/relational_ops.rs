//! The relational operators.
use crate::ast::{ASTNode, BinOp, Tree};
use crate::error::{seen, Parsed};
use crate::grammar::{level, level_relational, pair, rank, tail};
use crate::op::{fold, parse_operand, parse_operation};
use vstd::prelude::*;

verus! {

/// A relational operator.
#[derive(Clone, Copy, Debug, PartialEq, Eq, Structural)]
pub enum RelationalOps {
    Lt,
    Le,
    Gt,
    Ge,
    Eq,
    Ne,
}

impl RelationalOps {
    /// The operator among all binary operators.
    pub open spec fn binop(self) -> BinOp {
        match self {
            RelationalOps::Lt => BinOp::Lt,
            RelationalOps::Le => BinOp::Le,
            RelationalOps::Gt => BinOp::Gt,
            RelationalOps::Ge => BinOp::Ge,
            RelationalOps::Eq => BinOp::Eq,
            RelationalOps::Ne => BinOp::Ne,
        }
    }
}

/// What pairs of an operator and a node stand for.
pub open spec fn relational_pairs(remainder: Seq<(RelationalOps, ASTNode)>) -> Seq<(BinOp, Tree)> {
    Seq::new(remainder.len(), |i: int| (remainder[i].0.binop(), remainder[i].1@))
}

/// Folds an operand and the pairs of an operator and an operand after it into
/// one node, to the left.
pub fn fold_relational_ops(initial: ASTNode, remainder: Vec<(RelationalOps, ASTNode)>) -> (r: ASTNode)
    ensures
        r@ == fold(initial@, relational_pairs(remainder@)),
{
    let ghost first = initial@;
    let ghost all = remainder@;
    let mut acc = initial;
    for found in it: remainder
        invariant
            it.seq() == all,
            acc@ == fold(first, relational_pairs(all.take(it.index() as int))),
    {
        proof {
            let done = relational_pairs(all.take(it.index() as int));
            let next = relational_pairs(all.take(it.index() + 1));
            assert(next.drop_last() =~= done);
            assert(next.last() == (found.0.binop(), found.1@));
        }
        let (ops, expr) = found;
        acc =
        match ops {
            RelationalOps::Lt => ASTNode::Lt(Box::new(acc), Box::new(expr)),
            RelationalOps::Le => ASTNode::Le(Box::new(acc), Box::new(expr)),
            RelationalOps::Gt => ASTNode::Gt(Box::new(acc), Box::new(expr)),
            RelationalOps::Ge => ASTNode::Ge(Box::new(acc), Box::new(expr)),
            RelationalOps::Eq => ASTNode::Eq(Box::new(acc), Box::new(expr)),
            RelationalOps::Ne => ASTNode::Ne(Box::new(acc), Box::new(expr)),
        };
    }
    assert(all.take(all.len() as int) =~= all);
    acc
}

/// Reads an operator of the level and the operand after it.
fn relational_pair<'a>(input: &'a [u8]) -> (r: Option<(&'a [u8], RelationalOps, ASTNode)>)
    ensures
        match r {
            Some((rest, ops, right)) => pair(level_relational(), input@) == Some(
                (rest@, ops.binop(), right@),
            ) && rest@.len() < input@.len(),
            None => pair(level_relational(), input@) is None,
        },
    decreases input@.len(), rank(level_relational()) + 2,
{
    match parse_operation(2, input, "<", false, Ghost(BinOp::Lt)) {
        Some((rest, right)) => {
            return Some((rest, RelationalOps::Lt, right));
        },
        None => {},
    }
    match parse_operation(2, input, "<=", false, Ghost(BinOp::Le)) {
        Some((rest, right)) => {
            return Some((rest, RelationalOps::Le, right));
        },
        None => {},
    }
    match parse_operation(2, input, ">", false, Ghost(BinOp::Gt)) {
        Some((rest, right)) => {
            return Some((rest, RelationalOps::Gt, right));
        },
        None => {},
    }
    match parse_operation(2, input, ">=", false, Ghost(BinOp::Ge)) {
        Some((rest, right)) => {
            return Some((rest, RelationalOps::Ge, right));
        },
        None => {},
    }
    match parse_operation(2, input, "==", false, Ghost(BinOp::Eq)) {
        Some((rest, right)) => {
            return Some((rest, RelationalOps::Eq, right));
        },
        None => {},
    }
    match parse_operation(2, input, "~=", false, Ghost(BinOp::Ne)) {
        Some((rest, right)) => {
            return Some((rest, RelationalOps::Ne, right));
        },
        None => {},
    }
    None
}

/// Reads what follows the first operand: pairs of an operator
/// and an operand, as many as are there.
fn relational_remainder<'a>(input: &'a [u8], Ghost(left): Ghost<Tree>) -> (r: (
    &'a [u8],
    Vec<(RelationalOps, ASTNode)>,
))
    ensures
        tail(level_relational(), input@, left) == (r.0@, fold(left, relational_pairs(r.1@))),
        r.0@.len() <= input@.len(),
    decreases input@.len(), rank(level_relational()) + 3,
{
    let mut rest = input;
    let mut remainder: Vec<(RelationalOps, ASTNode)> = Vec::new();
    loop
        invariant
            rest@.len() <= input@.len(),
            tail(level_relational(), input@, left) == tail(
                level_relational(),
                rest@,
                fold(left, relational_pairs(remainder@)),
            ),
        ensures
            rest@.len() <= input@.len(),
            tail(level_relational(), input@, left) == (rest@, fold(left, relational_pairs(remainder@))),
        decreases rest@.len(),
    {
        match relational_pair(rest) {
            Some((next, ops, right)) => {
                proof {
                    let before = relational_pairs(remainder@);
                    let after = relational_pairs(remainder@.push((ops, right)));
                    assert(after.drop_last() =~= before);
                    assert(after.last() == (ops.binop(), right@));
                }
                remainder.push((ops, right));
                rest = next;
            },
            None => {
                break ;
            },
        }
    }
    (rest, remainder)
}

/// Reads an expression of `<`, `<=`, `>`, `>=`, `==` and `~=`.
pub fn parse_relational_ops<'a>(input: &'a [u8]) -> (r: Parsed<'a, ASTNode>)
    ensures
        seen(r) == level(level_relational(), input@),
        r matches Ok((rest, _)) ==> rest@.len() <= input@.len(),
    decreases input@.len(), rank(level_relational()) + 4,
{
    match parse_operand(2, input) {
        Ok((rest, initial)) => {
            let (rest, remainder) = relational_remainder(rest, Ghost(initial@));
            Ok((rest, fold_relational_ops(initial, remainder)))
        },
        Err(e) => Err(e),
    }
}

} // verus!
