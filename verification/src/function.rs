//! Functions, their parameters and their blocks.
use crate::ast::{trees_of, ASTNode};
use crate::error::{seen, Parsed};
use crate::grammar::{
    block, funcbody, funcname, functiondef, local_function, method, more_members, parlist, rank,
    statements,
};
use crate::lexical::{match_tag, read_token, read_word, skip};
use crate::name::{parse_comma, parse_name, parse_namelist};
use crate::statement::{parse_retstat, parse_statement};
use crate::var::parse_member;
use vstd::prelude::*;

verus! {

/// Reads a function.
pub fn parse_functiondef<'a>(input: &'a [u8]) -> (r: Parsed<'a, ASTNode>)
    ensures
        seen(r) == functiondef(input@),
        r matches Ok((rest, _)) ==> rest@.len() < input@.len(),
    decreases input@.len(), 2int,
{
    match read_word(input, "function") {
        Ok((rest, _)) => match parse_funcbody(skip(rest)) {
            Ok((rest, body)) => Ok((skip(rest), ASTNode::Function(Box::new(body)))),
            Err(e) => Err(e),
        },
        Err(e) => Err(e),
    }
}

/// Reads a local function.
pub fn parse_local_function<'a>(input: &'a [u8]) -> (r: Parsed<'a, ASTNode>)
    ensures
        seen(r) == local_function(input@),
        r matches Ok((rest, _)) ==> rest@.len() < input@.len(),
{
    match read_word(input, "local") {
        Ok((rest, _)) => match read_word(skip(rest), "function") {
            Ok((rest, _)) => match parse_name(skip(rest)) {
                Ok((rest, named)) => match parse_funcbody(rest) {
                    Ok((rest, body)) => Ok(
                        (rest, ASTNode::NamedFunction(Box::new(named), Box::new(body))),
                    ),
                    Err(e) => Err(e),
                },
                Err(e) => Err(e),
            },
            Err(e) => Err(e),
        },
        Err(e) => Err(e),
    }
}

/// Reads a function body.
pub fn parse_funcbody<'a>(input: &'a [u8]) -> (r: Parsed<'a, ASTNode>)
    ensures
        seen(r) == funcbody(input@),
        r matches Ok((rest, _)) ==> rest@.len() < input@.len(),
    decreases input@.len(), 1int,
{
    match read_token(input, "(") {
        Ok((rest, _)) => match parse_parlist(skip(rest)) {
            Ok((rest, parameters)) => match match_tag(skip(rest), ")") {
                Ok((rest, _)) => match parse_block(skip(rest)) {
                    Ok((rest, body)) => match read_word(skip(rest), "end") {
                        Ok((rest, _)) => Ok(
                            (
                                rest,
                                ASTNode::FunctionBody(
                                    Box::new(Some(parameters)),
                                    Box::new(body),
                                ),
                            ),
                        ),
                        Err(e) => Err(e),
                    },
                    Err(e) => Err(e),
                },
                Err(e) => Err(e),
            },
            Err(e) => Err(e),
        },
        Err(e) => Err(e),
    }
}

/// Reads the names after a point in the name of a function: one or more.
pub fn parse_multiname<'a>(input: &'a [u8]) -> (r: (&'a [u8], Vec<ASTNode>))
    ensures
        more_members(input@, Seq::empty()) == (r.0@, trees_of(r.1@)),
        r.0@.len() <= input@.len(),
{
    let mut rest = input;
    let mut list: Vec<ASTNode> = Vec::new();
    assert(trees_of(list@) =~= Seq::empty());
    loop
        invariant
            rest@.len() <= input@.len(),
            more_members(input@, Seq::empty()) == more_members(rest@, trees_of(list@)),
        ensures
            rest@.len() <= input@.len(),
            more_members(input@, Seq::empty()) == (rest@, trees_of(list@)),
        decreases rest@.len(),
    {
        match parse_member(rest) {
            Ok((next, node)) => {
                let ghost before = list@;
                list.push(node);
                assert(trees_of(list@) =~= trees_of(before).push(node@));
                rest = next;
            },
            Err(_) => {
                break ;
            },
        }
    }
    (rest, list)
}

/// Reads `:` and a name.
pub fn parse_method<'a>(input: &'a [u8]) -> (r: Parsed<'a, ASTNode>)
    ensures
        seen(r) == method(input@),
        r matches Ok((rest, _)) ==> rest@.len() < input@.len(),
{
    match match_tag(skip(input), ":") {
        Ok((rest, _)) => parse_name(skip(rest)),
        Err(e) => Err(e),
    }
}

/// Reads the name of a function.
pub fn parse_funcname<'a>(input: &'a [u8]) -> (r: Parsed<'a, ASTNode>)
    ensures
        seen(r) == funcname(input@),
        r matches Ok((rest, _)) ==> rest@.len() < input@.len(),
{
    match parse_name(input) {
        Ok((rest, first)) => {
            let (rest, list) = parse_multiname(rest);
            let path = if list.len() > 0 {
                Some(list)
            } else {
                None
            };
            match parse_method(rest) {
                Ok((rest, last)) => {
                    let node = ASTNode::FunctionName(Box::new(first), path, Some(Box::new(last)));
                    proof {
                        if path is Some {
                            assert(node@->FunctionName_1->0 =~= trees_of(path->0@));
                        }
                    }
                    Ok((rest, node))
                },
                Err(_) => {
                    let node = ASTNode::FunctionName(Box::new(first), path, None);
                    proof {
                        if path is Some {
                            assert(node@->FunctionName_1->0 =~= trees_of(path->0@));
                        }
                    }
                    Ok((rest, node))
                },
            }
        },
        Err(e) => Err(e),
    }
}

/// Reads a parameter list.
pub fn parse_parlist<'a>(input: &'a [u8]) -> (r: Parsed<'a, ASTNode>)
    ensures
        seen(r) == parlist(input@),
        r is Ok,
        r matches Ok((rest, _)) ==> rest@.len() <= input@.len(),
{
    let (rest, names) = match parse_namelist(input) {
        Ok((rest, list)) => (rest, Some(list)),
        Err(_) => (input, None),
    };
    let rest = match parse_comma(rest) {
        Ok((rest, _)) => rest,
        Err(_) => rest,
    };
    match match_tag(skip(rest), "...") {
        Ok((after, _)) => Ok((skip(after), ASTNode::ParameterList(Box::new(names), true))),
        Err(_) => Ok((rest, ASTNode::ParameterList(Box::new(names), false))),
    }
}

/// Reads a block.
pub fn parse_block<'a>(input: &'a [u8]) -> (r: Parsed<'a, ASTNode>)
    ensures
        seen(r) == block(input@),
        r is Ok,
        r matches Ok((rest, _)) ==> rest@.len() <= input@.len(),
    decreases input@.len(), rank(0) + 9,
{
    let mut rest = input;
    let mut list: Vec<ASTNode> = Vec::new();
    assert(trees_of(list@) =~= Seq::empty());
    loop
        invariant
            rest@.len() <= input@.len(),
            statements(input@, Seq::empty()) == statements(rest@, trees_of(list@)),
        ensures
            rest@.len() <= input@.len(),
            statements(input@, Seq::empty()) == (rest@, trees_of(list@)),
        decreases rest@.len(),
    {
        match parse_statement(rest) {
            Ok((next, node)) => {
                if next.len() >= rest.len() {
                    break ;
                }
                let ghost before = list@;
                list.push(node);
                assert(trees_of(list@) =~= trees_of(before).push(node@));
                rest = next;
            },
            Err(_) => {
                break ;
            },
        }
    }
    match parse_retstat(skip(rest)) {
        Ok((after, last)) => {
            let node = ASTNode::Block(list, Box::new(Some(last)));
            assert(node@->Block_0 =~= trees_of(list@));
            Ok((skip(after), node))
        },
        Err(_) => {
            let node = ASTNode::Block(list, Box::new(None));
            assert(node@->Block_0 =~= trees_of(list@));
            Ok((rest, node))
        },
    }
}

} // verus!
