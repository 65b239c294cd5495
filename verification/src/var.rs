//! Variables and lists of variables.
use crate::ast::{trees_of, ASTNode, Tree};
use crate::error::{seen, Parsed};
use crate::exp::parse_exp;
use crate::grammar::{base, index, member, more_vars, var, varlist};
use crate::lexical::{match_tag, read_token, skip};
use crate::name::{parse_comma, parse_name};
use vstd::prelude::*;

verus! {

/// Reads `[`, an expression and `]`.
pub fn parse_index<'a>(input: &'a [u8]) -> (r: Parsed<'a, ASTNode>)
    ensures
        seen(r) == index(input@),
        r matches Ok((rest, _)) ==> rest@.len() < input@.len(),
    decreases input@.len(), 0int,
{
    match read_token(skip(input), "[") {
        Ok((rest, _)) => match parse_exp(rest) {
            Ok((rest, inner)) => match match_tag(rest, "]") {
                Ok((rest, _)) => Ok((rest, inner)),
                Err(e) => Err(e),
            },
            Err(e) => Err(e),
        },
        Err(e) => Err(e),
    }
}

/// Reads `.` and a name.
pub fn parse_member<'a>(input: &'a [u8]) -> (r: Parsed<'a, ASTNode>)
    ensures
        seen(r) == member(input@),
        r matches Ok((rest, _)) ==> rest@.len() < input@.len(),
{
    match match_tag(skip(input), ".") {
        Ok((rest, _)) => parse_name(skip(rest)),
        Err(e) => Err(e),
    }
}

/// A name as a prefix expression.
fn base_of(named: ASTNode) -> (r: ASTNode)
    ensures
        r@ == base(named@),
{
    let inner = ASTNode::Var(Box::new(named));
    assert(inner@ == Tree::Var(Box::new(named@)));
    ASTNode::PrefixExp(Box::new(inner))
}

/// Reads a variable.
pub fn parse_var<'a>(input: &'a [u8]) -> (r: Parsed<'a, ASTNode>)
    ensures
        seen(r) == var(input@),
        r matches Ok((rest, _)) ==> rest@.len() < input@.len(),
    decreases input@.len(), 1int,
{
    match parse_name(input) {
        Ok((rest, named)) => match parse_index(rest) {
            Ok((rest, inner)) => Ok(
                (rest, ASTNode::VarPrefixed(Box::new(base_of(named)), Box::new(inner))),
            ),
            Err(_) => match parse_member(rest) {
                Ok((rest, field)) => Ok(
                    (rest, ASTNode::VarListAccess(Box::new(base_of(named)), Box::new(field))),
                ),
                Err(_) => Ok((rest, ASTNode::Var(Box::new(named)))),
            },
        },
        Err(e) => Err(e),
    }
}

/// Reads a list of variables.
pub fn parse_varlist<'a>(input: &'a [u8]) -> (r: Parsed<'a, ASTNode>)
    ensures
        seen(r) == varlist(input@),
        r matches Ok((rest, _)) ==> rest@.len() < input@.len(),
{
    match parse_var(input) {
        Ok((after, first)) => {
            let mut rest = after;
            let mut list: Vec<ASTNode> = Vec::new();
            list.push(first);
            assert(trees_of(list@) =~= seq![first@]);
            loop
                invariant
                    rest@.len() <= after@.len(),
                    more_vars(after@, seq![first@]) == more_vars(rest@, trees_of(list@)),
                ensures
                    rest@.len() <= after@.len(),
                    more_vars(after@, seq![first@]) == (rest@, trees_of(list@)),
                decreases rest@.len(),
            {
                match parse_comma(rest) {
                    Ok((next, _)) => match parse_var(next) {
                        Ok((next, node)) => {
                            let ghost before = list@;
                            list.push(node);
                            assert(trees_of(list@) =~= trees_of(before).push(node@));
                            rest = next;
                        },
                        Err(_) => {
                            break ;
                        },
                    },
                    Err(_) => {
                        break ;
                    },
                }
            }
            let node = ASTNode::VarList(list);
            assert(node@ == Tree::VarList(trees_of(list@))) by {
                assert(node@->VarList_0 =~= trees_of(list@));
            }
            Ok((rest, node))
        },
        Err(e) => Err(e),
    }
}

} // verus!
