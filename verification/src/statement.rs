//! Statements.
use crate::ast::ASTNode;
use crate::error::{seen, Parsed};
use crate::exp::parse_explist;
use crate::grammar::{goto, rank, retstat, semicolon, statement};
use crate::lexical::{match_tag, read_word, skip};
use crate::name::{parse_label, parse_name};
use vstd::prelude::*;

verus! {

/// Reads `goto` and a name.
pub fn parse_goto<'a>(input: &'a [u8]) -> (r: Parsed<'a, ASTNode>)
    ensures
        seen(r) == goto(input@),
        r matches Ok((rest, _)) ==> rest@.len() < input@.len(),
{
    match read_word(input, "goto") {
        Ok((rest, _)) => match parse_name(skip(rest)) {
            Ok((rest, target)) => Ok((skip(rest), ASTNode::Goto(Box::new(target)))),
            Err(e) => Err(e),
        },
        Err(e) => Err(e),
    }
}

/// Reads `;` as the empty statement.
pub fn parse_semicolon_statement<'a>(input: &'a [u8]) -> (r: Parsed<'a, ASTNode>)
    ensures
        seen(r) == semicolon(input@),
        r matches Ok((rest, _)) ==> rest@.len() <= input@.len(),
{
    match match_tag(skip(input), ";") {
        Ok((rest, _)) => Ok((skip(rest), ASTNode::EmptyStatement)),
        Err(e) => Err(e),
    }
}

/// Reads a statement.
pub fn parse_statement<'a>(input: &'a [u8]) -> (r: Parsed<'a, ASTNode>)
    ensures
        seen(r) == statement(input@),
        r matches Ok((rest, _)) ==> rest@.len() <= input@.len(),
{
    match parse_semicolon_statement(input) {
        Ok(found) => Ok(found),
        Err(e) => match parse_label(input) {
            Ok(found) => Ok(found),
            Err(later) => {
                let e = e.join(later);
                match parse_goto(input) {
                    Ok(found) => Ok(found),
                    Err(later) => Err(e.join(later)),
                }
            },
        },
    }
}

/// Reads a return statement.
pub fn parse_retstat<'a>(input: &'a [u8]) -> (r: Parsed<'a, ASTNode>)
    ensures
        seen(r) == retstat(input@),
        r matches Ok((rest, _)) ==> rest@.len() < input@.len(),
    decreases input@.len(), rank(0) + 8,
{
    match read_word(input, "return") {
        Ok((rest, _)) => {
            let inside = skip(rest);
            let (rest, values) = match parse_explist(inside) {
                Ok((rest, list)) => (skip(rest), Some(list)),
                Err(_) => (inside, None),
            };
            match match_tag(rest, ";") {
                Ok((rest, _)) => Ok((rest, ASTNode::RetStat(Box::new(values)))),
                Err(_) => Ok((rest, ASTNode::RetStat(Box::new(values)))),
            }
        },
        Err(e) => Err(e),
    }
}

} // verus!
