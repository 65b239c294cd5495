//! The fields of a table constructor.
use crate::ast::{trees_of, ASTNode, Tree};
use crate::error::{seen, Parsed};
use crate::exp::parse_exp;
use crate::grammar::{
    field, fieldlist, fieldsep, keyed_field, more_fields, named_field, rank, single_field,
};
use crate::lexical::{match_tag, read_token, skip};
use crate::name::parse_name;
use vstd::prelude::*;

verus! {

/// Reads a field with a computed key.
fn parse_keyed_field<'a>(input: &'a [u8]) -> (r: Parsed<'a, ASTNode>)
    ensures
        seen(r) == keyed_field(input@),
        r matches Ok((rest, _)) ==> rest@.len() <= input@.len(),
    decreases input@.len(), rank(0) + 6,
{
    match read_token(input, "[") {
        Ok((rest, _)) => match parse_exp(rest) {
            Ok((rest, key)) => match match_tag(rest, "]") {
                Ok((rest, _)) => match match_tag(skip(rest), "=") {
                    Ok((rest, _)) => match parse_exp(rest) {
                        Ok((rest, value)) => Ok(
                            (rest, ASTNode::FieldAssign(Box::new(key), Box::new(value))),
                        ),
                        Err(e) => Err(e),
                    },
                    Err(e) => Err(e),
                },
                Err(e) => Err(e),
            },
            Err(e) => Err(e),
        },
        Err(e) => Err(e),
    }
}

/// Reads a field with a name as its key.
fn parse_named_field<'a>(input: &'a [u8]) -> (r: Parsed<'a, ASTNode>)
    ensures
        seen(r) == named_field(input@),
        r matches Ok((rest, _)) ==> rest@.len() <= input@.len(),
    decreases input@.len(), rank(0) + 6,
{
    match parse_name(input) {
        Ok((rest, key)) => match match_tag(skip(rest), "=") {
            Ok((rest, _)) => match parse_exp(rest) {
                Ok((rest, value)) => Ok(
                    (rest, ASTNode::FieldAssign(Box::new(key), Box::new(value))),
                ),
                Err(e) => Err(e),
            },
            Err(e) => Err(e),
        },
        Err(e) => Err(e),
    }
}

/// Reads a field that is an expression.
fn parse_single_field<'a>(input: &'a [u8]) -> (r: Parsed<'a, ASTNode>)
    ensures
        seen(r) == single_field(input@),
        r matches Ok((rest, _)) ==> rest@.len() <= input@.len(),
    decreases input@.len(), rank(0) + 6,
{
    match parse_exp(input) {
        Ok((rest, value)) => Ok((rest, ASTNode::FieldSingle(Box::new(value)))),
        Err(e) => Err(e),
    }
}

/// Reads a field.
pub fn parse_field<'a>(input: &'a [u8]) -> (r: Parsed<'a, ASTNode>)
    ensures
        seen(r) == field(input@),
        r matches Ok((rest, _)) ==> rest@.len() <= input@.len(),
    decreases input@.len(), rank(0) + 7,
{
    let inside = skip(input);
    let found = match parse_keyed_field(inside) {
        Ok(found) => Ok(found),
        Err(e) => match parse_named_field(inside) {
            Ok(found) => Ok(found),
            Err(later) => {
                let e = e.join(later);
                match parse_single_field(inside) {
                    Ok(found) => Ok(found),
                    Err(later) => Err(e.join(later)),
                }
            },
        },
    };
    match found {
        Ok((rest, value)) => Ok((skip(rest), value)),
        Err(e) => Err(e),
    }
}

/// Reads what parts two fields: `,` or `;`.
pub fn parse_fieldsep<'a>(input: &'a [u8]) -> (r: Parsed<'a, ()>)
    ensures
        seen(r) == fieldsep(input@),
        r matches Ok((rest, _)) ==> rest@.len() < input@.len(),
{
    match read_token(input, ",") {
        Ok(found) => Ok(found),
        Err(e) => match read_token(input, ";") {
            Ok(found) => Ok(found),
            Err(later) => Err(e.join(later)),
        },
    }
}

/// Reads a list of fields.
pub fn parse_fieldlist<'a>(input: &'a [u8]) -> (r: Parsed<'a, ASTNode>)
    ensures
        seen(r) == fieldlist(input@),
        r matches Ok((rest, _)) ==> rest@.len() <= input@.len(),
    decreases input@.len(), rank(0) + 9,
{
    match parse_field(input) {
        Ok((after, first)) => {
            let mut rest = after;
            let mut list: Vec<ASTNode> = Vec::new();
            list.push(first);
            assert(trees_of(list@) =~= seq![first@]);
            loop
                invariant
                    rest@.len() <= after@.len(),
                    after@.len() <= input@.len(),
                    more_fields(after@, seq![first@]) == more_fields(rest@, trees_of(list@)),
                ensures
                    rest@.len() <= after@.len(),
                    more_fields(after@, seq![first@]) == (rest@, trees_of(list@)),
                decreases rest@.len(),
            {
                match parse_fieldsep(rest) {
                    Ok((next, _)) => match parse_field(next) {
                        Ok((next, node)) => {
                            let ghost before = list@;
                            list.push(node);
                            assert(trees_of(list@) =~= trees_of(before).push(node@));
                            rest = next;
                        },
                        Err(_) => {
                            break ;
                        },
                    },
                    Err(_) => {
                        break ;
                    },
                }
            }
            let node = ASTNode::FieldList(list);
            assert(node@ == Tree::FieldList(trees_of(list@))) by {
                assert(node@->FieldList_0 =~= trees_of(list@));
            }
            Ok((rest, node))
        },
        Err(e) => Err(e),
    }
}

} // verus!
