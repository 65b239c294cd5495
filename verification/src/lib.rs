//! A parser for Lua 5.3 expressions that builds a syntax tree.
//!
//! Every parser takes the bytes to read and gives the bytes left over and the
//! value read, or the reason why it read nothing. What each parser reads is
//! stated by the rule of the same name in [`grammar`], [`number`], [`string`]
//! and [`name`].
use vstd::prelude::*;

pub mod ast;
pub mod error;
pub mod exp;
pub mod field;
pub mod function;
pub mod grammar;
pub mod graph;
pub mod lexer;
pub mod lexical;
pub mod name;
pub mod number;
pub mod numerals;
pub mod op;
pub mod quoted;
pub mod remainder;
pub mod render;
pub mod roundtrip;
pub mod statement;
pub mod steps;
pub mod string;
pub mod var;

pub use ast::ASTNode;
pub use error::ParseFailure;

verus! {

/// Reads a chunk: an expression with white space allowed around it.
pub fn parse_chunk<'a>(input: &'a [u8]) -> (r: error::Parsed<'a, ASTNode>)
    ensures
        error::seen(r) == grammar::chunk(input@),
{
    exp::parse_exp(input)
}

/// The tree of the chunk that `s` begins with, where it begins with one.
pub open spec fn chunk_tree(s: Seq<u8>) -> Option<ast::Tree> {
    match grammar::chunk(s) {
        Ok((_, tree)) => Some(tree),
        Err(_) => None,
    }
}

/// What an optional node stands for.
pub open spec fn seen_node(r: Option<ASTNode>) -> Option<ast::Tree> {
    match r {
        Some(node) => Some(node@),
        None => None,
    }
}

/// Reads the chunk that the bytes begin with. What follows the chunk is not
/// looked at.
pub fn parse_string(s: &[u8]) -> (r: Option<ASTNode>)
    ensures
        seen_node(r) == chunk_tree(s@),
{
    match parse_chunk(s) {
        Ok((_, node)) => Some(node),
        Err(_) => None,
    }
}

/// Reads the chunk that a source begins with, from the bytes of the source
/// read to its end. Every byte read takes part: the result is that of
/// `parse_string` on the same bytes.
pub fn parse(buf: Vec<u8>) -> (r: Option<ASTNode>)
    ensures
        seen_node(r) == chunk_tree(buf@),
{
    parse_string(buf.as_slice())
}

} // verus!
