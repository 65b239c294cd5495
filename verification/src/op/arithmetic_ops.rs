//! The arithmetic operators.
use crate::ast::{ASTNode, BinOp, Tree};
use crate::error::{seen, Parsed};
use crate::grammar::{level, level_additive, level_exponent, level_multiplicative, pair, rank, tail};
use crate::op::{fold, parse_operand, parse_operation};
use vstd::prelude::*;

verus! {

/// An arithmetic operator.
#[derive(Clone, Copy, Debug, PartialEq, Eq, Structural)]
pub enum ArithmeticOps {
    Add,
    Sub,
    Mul,
    Div,
    FDiv,
    Mod,
    Exp,
}

impl ArithmeticOps {
    /// The operator among all binary operators.
    pub open spec fn binop(self) -> BinOp {
        match self {
            ArithmeticOps::Add => BinOp::Add,
            ArithmeticOps::Sub => BinOp::Sub,
            ArithmeticOps::Mul => BinOp::Mul,
            ArithmeticOps::Div => BinOp::Div,
            ArithmeticOps::FDiv => BinOp::FDiv,
            ArithmeticOps::Mod => BinOp::Mod,
            ArithmeticOps::Exp => BinOp::Exp,
        }
    }
}

/// What pairs of an operator and a node stand for.
pub open spec fn arithmetic_pairs(remainder: Seq<(ArithmeticOps, ASTNode)>) -> Seq<(BinOp, Tree)> {
    Seq::new(remainder.len(), |i: int| (remainder[i].0.binop(), remainder[i].1@))
}

/// Folds an operand and the pairs of an operator and an operand after it into
/// one node, to the left.
pub fn fold_arithmetic_ops(initial: ASTNode, remainder: Vec<(ArithmeticOps, ASTNode)>) -> (r: ASTNode)
    ensures
        r@ == fold(initial@, arithmetic_pairs(remainder@)),
{
    let ghost first = initial@;
    let ghost all = remainder@;
    let mut acc = initial;
    for found in it: remainder
        invariant
            it.seq() == all,
            acc@ == fold(first, arithmetic_pairs(all.take(it.index() as int))),
    {
        proof {
            let done = arithmetic_pairs(all.take(it.index() as int));
            let next = arithmetic_pairs(all.take(it.index() + 1));
            assert(next.drop_last() =~= done);
            assert(next.last() == (found.0.binop(), found.1@));
        }
        let (ops, expr) = found;
        acc =
        match ops {
            ArithmeticOps::Add => ASTNode::Add(Box::new(acc), Box::new(expr)),
            ArithmeticOps::Sub => ASTNode::Sub(Box::new(acc), Box::new(expr)),
            ArithmeticOps::Mul => ASTNode::Mul(Box::new(acc), Box::new(expr)),
            ArithmeticOps::Div => ASTNode::Div(Box::new(acc), Box::new(expr)),
            ArithmeticOps::FDiv => ASTNode::FDiv(Box::new(acc), Box::new(expr)),
            ArithmeticOps::Mod => ASTNode::Mod(Box::new(acc), Box::new(expr)),
            ArithmeticOps::Exp => ASTNode::Exp(Box::new(acc), Box::new(expr)),
        };
    }
    assert(all.take(all.len() as int) =~= all);
    acc
}

/// Reads an operator of level `k` and the operand after it.
fn arithmetic_pair<'a>(k: u8, input: &'a [u8]) -> (r: Option<(&'a [u8], ArithmeticOps, ASTNode)>)
    requires
        k == 11 || k == 9 || k == 8,
    ensures
        match r {
            Some((rest, ops, right)) => pair(k as int, input@) == Some(
                (rest@, ops.binop(), right@),
            ) && rest@.len() < input@.len(),
            None => pair(k as int, input@) is None,
        },
    decreases input@.len(), rank(k as int) + 2,
{
    if k == 11 {
        match parse_operation(11, input, "^", false, Ghost(BinOp::Exp)) {
            Some((rest, right)) => {
                return Some((rest, ArithmeticOps::Exp, right));
            },
            None => {},
        }
        None
    } else if k == 9 {
        match parse_operation(9, input, "*", false, Ghost(BinOp::Mul)) {
            Some((rest, right)) => {
                return Some((rest, ArithmeticOps::Mul, right));
            },
            None => {},
        }
        match parse_operation(9, input, "//", false, Ghost(BinOp::FDiv)) {
            Some((rest, right)) => {
                return Some((rest, ArithmeticOps::FDiv, right));
            },
            None => {},
        }
        match parse_operation(9, input, "%", false, Ghost(BinOp::Mod)) {
            Some((rest, right)) => {
                return Some((rest, ArithmeticOps::Mod, right));
            },
            None => {},
        }
        match parse_operation(9, input, "/", false, Ghost(BinOp::Div)) {
            Some((rest, right)) => {
                return Some((rest, ArithmeticOps::Div, right));
            },
            None => {},
        }
        None
    } else {
        match parse_operation(8, input, "+", false, Ghost(BinOp::Add)) {
            Some((rest, right)) => {
                return Some((rest, ArithmeticOps::Add, right));
            },
            None => {},
        }
        match parse_operation(8, input, "-", false, Ghost(BinOp::Sub)) {
            Some((rest, right)) => {
                return Some((rest, ArithmeticOps::Sub, right));
            },
            None => {},
        }
        None
    }
}

/// Reads what follows the first operand at level `k`: pairs of an operator
/// and an operand, as many as are there.
fn arithmetic_remainder<'a>(k: u8, input: &'a [u8], Ghost(left): Ghost<Tree>) -> (r: (
    &'a [u8],
    Vec<(ArithmeticOps, ASTNode)>,
))
    requires
        k == 11 || k == 9 || k == 8,
    ensures
        tail(k as int, input@, left) == (r.0@, fold(left, arithmetic_pairs(r.1@))),
        r.0@.len() <= input@.len(),
    decreases input@.len(), rank(k as int) + 3,
{
    let mut rest = input;
    let mut remainder: Vec<(ArithmeticOps, ASTNode)> = Vec::new();
    loop
        invariant
            k == 11 || k == 9 || k == 8,
            rest@.len() <= input@.len(),
            tail(k as int, input@, left) == tail(
                k as int,
                rest@,
                fold(left, arithmetic_pairs(remainder@)),
            ),
        ensures
            rest@.len() <= input@.len(),
            tail(k as int, input@, left) == (rest@, fold(left, arithmetic_pairs(remainder@))),
        decreases rest@.len(),
    {
        match arithmetic_pair(k, rest) {
            Some((next, ops, right)) => {
                proof {
                    let before = arithmetic_pairs(remainder@);
                    let after = arithmetic_pairs(remainder@.push((ops, right)));
                    assert(after.drop_last() =~= before);
                    assert(after.last() == (ops.binop(), right@));
                }
                remainder.push((ops, right));
                rest = next;
            },
            None => {
                break ;
            },
        }
    }
    (rest, remainder)
}

/// Reads an expression of `^`.
pub fn parse_exponent<'a>(input: &'a [u8]) -> (r: Parsed<'a, ASTNode>)
    ensures
        seen(r) == level(level_exponent(), input@),
        r matches Ok((rest, _)) ==> rest@.len() <= input@.len(),
    decreases input@.len(), rank(level_exponent()) + 4,
{
    match parse_operand(11, input) {
        Ok((rest, initial)) => {
            let (rest, remainder) = arithmetic_remainder(11, rest, Ghost(initial@));
            Ok((rest, fold_arithmetic_ops(initial, remainder)))
        },
        Err(e) => Err(e),
    }
}

/// Reads an expression of `*`, `//`, `%` and `/`.
pub fn parse_multdiv<'a>(input: &'a [u8]) -> (r: Parsed<'a, ASTNode>)
    ensures
        seen(r) == level(level_multiplicative(), input@),
        r matches Ok((rest, _)) ==> rest@.len() <= input@.len(),
    decreases input@.len(), rank(level_multiplicative()) + 4,
{
    match parse_operand(9, input) {
        Ok((rest, initial)) => {
            let (rest, remainder) = arithmetic_remainder(9, rest, Ghost(initial@));
            Ok((rest, fold_arithmetic_ops(initial, remainder)))
        },
        Err(e) => Err(e),
    }
}

/// Reads an expression of `+` and `-`.
pub fn parse_addsub<'a>(input: &'a [u8]) -> (r: Parsed<'a, ASTNode>)
    ensures
        seen(r) == level(level_additive(), input@),
        r matches Ok((rest, _)) ==> rest@.len() <= input@.len(),
    decreases input@.len(), rank(level_additive()) + 4,
{
    match parse_operand(8, input) {
        Ok((rest, initial)) => {
            let (rest, remainder) = arithmetic_remainder(8, rest, Ghost(initial@));
            Ok((rest, fold_arithmetic_ops(initial, remainder)))
        },
        Err(e) => Err(e),
    }
}

} // verus!
