//! The unary operators.
use crate::ast::{unary, ASTNode, Tree, UnOp};
use crate::error::{seen, Outcome, ParseFailure, Parsed};
use crate::grammar::{level, level_unary, rank, unary_operator};
use crate::lexical::{read_token, read_word, skip};
use crate::op::arithmetic_ops::parse_exponent;
use vstd::prelude::*;

verus! {

/// A unary operator.
#[derive(Clone, Copy, Debug, PartialEq, Eq, Structural)]
pub enum UnaryOps {
    BinNot,
    Not,
    Len,
    UMin,
}

impl UnaryOps {
    /// The operator as a mark on a tree.
    pub open spec fn unop(self) -> UnOp {
        match self {
            UnaryOps::BinNot => UnOp::BinNot,
            UnaryOps::Not => UnOp::Not,
            UnaryOps::Len => UnOp::Len,
            UnaryOps::UMin => UnOp::UMin,
        }
    }
}

/// The operand under the operator, where there is one; the operand itself,
/// where there is none.
pub open spec fn applied(ops: Option<UnaryOps>, operand: Tree) -> Tree {
    match ops {
        Some(op) => unary(op.unop(), operand),
        None => operand,
    }
}

/// Puts a node under a unary operator, where there is one.
pub fn fold_unary_ops(ops: Option<UnaryOps>, num: ASTNode) -> (r: ASTNode)
    ensures
        r@ == applied(ops, num@),
{
    if let Some(op) = ops {
        match op {
            UnaryOps::BinNot => ASTNode::BinNot(Box::new(num)),
            UnaryOps::Not => ASTNode::Not(Box::new(num)),
            UnaryOps::Len => ASTNode::Len(Box::new(num)),
            UnaryOps::UMin => ASTNode::UMin(Box::new(num)),
        }
    } else {
        num
    }
}

/// What an executable result that holds a unary operator stands for.
pub open spec fn seen_unary(r: Result<(&[u8], UnaryOps), ParseFailure>) -> Outcome<UnOp> {
    match r {
        Ok((rest, ops)) => Ok((rest@, ops.unop())),
        Err(e) => Err(e),
    }
}

/// Reads a unary operator.
pub fn parse_unary_operator<'a>(input: &'a [u8]) -> (r: Parsed<'a, UnaryOps>)
    ensures
        seen_unary(r) == unary_operator(input@),
        r matches Ok((rest, _)) ==> rest@.len() < input@.len(),
{
    let e = match read_word(input, "not") {
        Ok((rest, _)) => {
            return Ok((rest, UnaryOps::Not));
        },
        Err(e) => e,
    };
    let e = match read_token(input, "#") {
        Ok((rest, _)) => {
            return Ok((rest, UnaryOps::Len));
        },
        Err(later) => e.join(later),
    };
    let e = match read_token(input, "-") {
        Ok((rest, _)) => {
            return Ok((rest, UnaryOps::UMin));
        },
        Err(later) => e.join(later),
    };
    match read_token(input, "~") {
        Ok((rest, _)) => Ok((rest, UnaryOps::BinNot)),
        Err(later) => Err(e.join(later)),
    }
}

/// Reads unary operators, as many as are there, and the expression of `^`
/// that they apply to.
pub fn parse_unop<'a>(input: &'a [u8]) -> (r: Parsed<'a, ASTNode>)
    ensures
        seen(r) == level(level_unary(), input@),
        r matches Ok((rest, _)) ==> rest@.len() <= input@.len(),
    decreases input@.len(), rank(level_unary()) + 4,
{
    match parse_unary_operator(skip(input)) {
        Ok((rest, ops)) => match parse_unop(rest) {
            Ok((rest, inner)) => Ok((rest, fold_unary_ops(Some(ops), inner))),
            Err(e) => Err(e),
        },
        Err(_) => match parse_exponent(input) {
            Ok((rest, inner)) => Ok((rest, fold_unary_ops(None, inner))),
            Err(e) => Err(e),
        },
    }
}

} // verus!
