//! Expressions, their atoms, and lists of expressions.
use crate::ast::{trees_of, ASTNode, Tree};
use crate::error::{seen, Parsed};
use crate::field::parse_fieldlist;
use crate::function::parse_functiondef;
use crate::grammar::{
    atom, boolean, exp, explist, more_exps, nil, numeral, prefixexp, rank, tableconstructor,
    vararg,
};
use crate::lexical::{match_tag, read_token, read_word, skip};
use crate::name::parse_comma;
use crate::number::{parse_number, Number};
use crate::op::logic_ops::parse_logic_or;
use crate::op::{parens, parse_parenthesised};
use crate::string::parse_string;
use crate::var::parse_var;
use vstd::prelude::*;

verus! {

/// Reads a numeral as a node.
pub fn parse_numeral<'a>(input: &'a [u8]) -> (r: Parsed<'a, ASTNode>)
    ensures
        seen(r) == numeral(input@),
        r matches Ok((rest, _)) ==> rest@.len() < input@.len(),
{
    match parse_number(input) {
        Ok((rest, Number::Integer(value))) => Ok((rest, ASTNode::Integer(value))),
        Ok((rest, Number::Float(text))) => Ok((rest, ASTNode::Float(text))),
        Err(e) => Err(e),
    }
}

/// Reads `...`.
pub fn parse_vararg<'a>(input: &'a [u8]) -> (r: Parsed<'a, ASTNode>)
    ensures
        seen(r) == vararg(input@),
        r matches Ok((rest, _)) ==> rest@.len() < input@.len(),
{
    match read_token(input, "...") {
        Ok((rest, _)) => Ok((rest, ASTNode::VarArg)),
        Err(e) => Err(e),
    }
}

/// Reads `nil`.
pub fn parse_nil<'a>(input: &'a [u8]) -> (r: Parsed<'a, ASTNode>)
    ensures
        seen(r) == nil(input@),
        r matches Ok((rest, _)) ==> rest@.len() < input@.len(),
{
    match read_word(input, "nil") {
        Ok((rest, _)) => Ok((rest, ASTNode::Nil)),
        Err(e) => Err(e),
    }
}

/// Reads `false` or `true`.
pub fn parse_bool<'a>(input: &'a [u8]) -> (r: Parsed<'a, ASTNode>)
    ensures
        seen(r) == boolean(input@),
        r matches Ok((rest, _)) ==> rest@.len() < input@.len(),
{
    match read_word(input, "false") {
        Ok((rest, _)) => Ok((rest, ASTNode::Bool(false))),
        Err(e) => match read_word(input, "true") {
            Ok((rest, _)) => Ok((rest, ASTNode::Bool(true))),
            Err(later) => Err(e.join(later)),
        },
    }
}

/// Reads an atom.
pub fn parse_atom<'a>(input: &'a [u8]) -> (r: Parsed<'a, ASTNode>)
    ensures
        seen(r) == atom(input@),
        r matches Ok((rest, _)) ==> rest@.len() <= input@.len(),
    decreases input@.len(), 3int,
{
    let e = match parse_numeral(input) {
        Ok(found) => {
            return Ok(found);
        },
        Err(e) => e,
    };
    let e = match parens(input) {
        Ok(found) => {
            return Ok(found);
        },
        Err(later) => e.join(later),
    };
    let e = match parse_nil(input) {
        Ok(found) => {
            return Ok(found);
        },
        Err(later) => e.join(later),
    };
    let e = match parse_bool(input) {
        Ok(found) => {
            return Ok(found);
        },
        Err(later) => e.join(later),
    };
    let e = match parse_string(input) {
        Ok(found) => {
            return Ok(found);
        },
        Err(later) => e.join(later),
    };
    let e = match parse_vararg(input) {
        Ok(found) => {
            return Ok(found);
        },
        Err(later) => e.join(later),
    };
    let e = match parse_functiondef(input) {
        Ok(found) => {
            return Ok(found);
        },
        Err(later) => e.join(later),
    };
    let e = match parse_prefixexp(input) {
        Ok(found) => {
            return Ok(found);
        },
        Err(later) => e.join(later),
    };
    match parse_tableconstructor(input) {
        Ok(found) => Ok(found),
        Err(later) => Err(e.join(later)),
    }
}

/// Reads a prefix expression.
pub fn parse_prefixexp<'a>(input: &'a [u8]) -> (r: Parsed<'a, ASTNode>)
    ensures
        seen(r) == prefixexp(input@),
        r matches Ok((rest, _)) ==> rest@.len() <= input@.len(),
    decreases input@.len(), 2int,
{
    match parse_parenthesised(input) {
        Ok((rest, inner)) => Ok((rest, ASTNode::PrefixExp(Box::new(inner)))),
        Err(e) => match parse_var(input) {
            Ok((rest, inner)) => Ok((rest, ASTNode::PrefixExp(Box::new(inner)))),
            Err(later) => Err(e.join(later)),
        },
    }
}

/// Reads a list of expressions.
pub fn parse_explist<'a>(input: &'a [u8]) -> (r: Parsed<'a, ASTNode>)
    ensures
        seen(r) == explist(input@),
        r matches Ok((rest, _)) ==> rest@.len() <= input@.len(),
    decreases input@.len(), rank(0) + 7,
{
    match parse_exp(input) {
        Ok((after, first)) => {
            let mut rest = after;
            let mut list: Vec<ASTNode> = Vec::new();
            list.push(first);
            assert(trees_of(list@) =~= seq![first@]);
            loop
                invariant
                    rest@.len() <= after@.len(),
                    after@.len() <= input@.len(),
                    more_exps(after@, seq![first@]) == more_exps(rest@, trees_of(list@)),
                ensures
                    rest@.len() <= after@.len(),
                    more_exps(after@, seq![first@]) == (rest@, trees_of(list@)),
                decreases rest@.len(),
            {
                match parse_comma(rest) {
                    Ok((next, _)) => match parse_exp(next) {
                        Ok((next, node)) => {
                            let ghost before = list@;
                            list.push(node);
                            assert(trees_of(list@) =~= trees_of(before).push(node@));
                            rest = next;
                        },
                        Err(_) => {
                            break ;
                        },
                    },
                    Err(_) => {
                        break ;
                    },
                }
            }
            let node = ASTNode::ExpList(list);
            assert(node@ == Tree::ExpList(trees_of(list@))) by {
                assert(node@->ExpList_0 =~= trees_of(list@));
            }
            Ok((rest, node))
        },
        Err(e) => Err(e),
    }
}

/// Reads an expression.
pub fn parse_exp<'a>(input: &'a [u8]) -> (r: Parsed<'a, ASTNode>)
    ensures
        seen(r) == exp(input@),
        r matches Ok((rest, _)) ==> rest@.len() <= input@.len(),
    decreases input@.len(), rank(0) + 5,
{
    parse_logic_or(input)
}

/// Reads a table constructor.
pub fn parse_tableconstructor<'a>(input: &'a [u8]) -> (r: Parsed<'a, ASTNode>)
    ensures
        seen(r) == tableconstructor(input@),
        r matches Ok((rest, _)) ==> rest@.len() <= input@.len(),
    decreases input@.len(), 2int,
{
    match read_token(input, "{") {
        Ok((rest, _)) => {
            let inside = skip(rest);
            match parse_fieldlist(inside) {
                Ok((rest, fields)) => match match_tag(skip(rest), "}") {
                    Ok((rest, _)) => Ok((rest, ASTNode::TableConstructor(Box::new(Some(fields))))),
                    Err(e) => Err(e),
                },
                Err(_) => match match_tag(inside, "}") {
                    Ok((rest, _)) => Ok((rest, ASTNode::TableConstructor(Box::new(None)))),
                    Err(e) => Err(e),
                },
            }
        },
        Err(e) => Err(e),
    }
}

} // verus!
