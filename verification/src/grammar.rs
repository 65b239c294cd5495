//! The grammar of expressions, fields, variables, functions and statements:
//! what each rule yields on a sequence of bytes.
//!
//! A rule is an ordered choice: of its alternatives the first that matches is
//! taken. White space is allowed around the atoms of an expression and where
//! a rule says so.
use crate::ast::{binary, unary, BinOp, Tree, UnOp};
use crate::error::{Outcome, ParseFailure};
use crate::lexical::{lemma_run_len, shorter, skip_space, tag, token, within, word, Class};
use crate::name::{comma, label, name, namelist};
use crate::number::{either, number, Numeral};
use crate::string::string;
use vstd::prelude::*;

verus! {

/// The first of two options that holds a value.
pub open spec fn prefer<T>(first: Option<T>, second: Option<T>) -> Option<T> {
    match first {
        Some(found) => Some(found),
        None => second,
    }
}

/// The number of levels of operators. Level 0 binds loosest.
pub open spec fn levels() -> int {
    12
}

/// The level of `or`.
pub open spec fn level_or() -> int {
    0
}

/// The level of `and`.
pub open spec fn level_and() -> int {
    1
}

/// The level of `<`, `<=`, `>`, `>=`, `==` and `~=`.
pub open spec fn level_relational() -> int {
    2
}

/// The level of `|`.
pub open spec fn level_bit_or() -> int {
    3
}

/// The level of the binary `~`.
pub open spec fn level_bit_xor() -> int {
    4
}

/// The level of `&`.
pub open spec fn level_bit_and() -> int {
    5
}

/// The level of `<<` and `>>`.
pub open spec fn level_shift() -> int {
    6
}

/// The level of `..`.
pub open spec fn level_concat() -> int {
    7
}

/// The level of `+` and `-`.
pub open spec fn level_additive() -> int {
    8
}

/// The level of `*`, `//`, `%` and `/`.
pub open spec fn level_multiplicative() -> int {
    9
}

/// The level of the unary operators `not`, `#`, `-` and `~`.
pub open spec fn level_unary() -> int {
    10
}

/// The level of `^`, which binds tightest.
pub open spec fn level_exponent() -> int {
    11
}

/// A number that falls by 5 from each level to the next tighter one, by which
/// the rules of the levels are ordered.
pub open spec fn rank(k: int) -> int {
    5 * (12 - k)
}

/// A numeral as a node.
pub open spec fn numeral(s: Seq<u8>) -> Outcome<Tree> {
    match number(s) {
        Ok((rest, Numeral::Integer(value))) => Ok((rest, Tree::Integer(value))),
        Ok((rest, Numeral::Float(text))) => Ok((rest, Tree::Float(text))),
        Err(e) => Err(e),
    }
}

/// `nil`.
pub open spec fn nil(s: Seq<u8>) -> Outcome<Tree> {
    match word(s, "nil"@) {
        Ok((rest, _)) => Ok((rest, Tree::Nil)),
        Err(e) => Err(e),
    }
}

/// `false` or `true`.
pub open spec fn boolean(s: Seq<u8>) -> Outcome<Tree> {
    either(
        match word(s, "false"@) {
            Ok((rest, _)) => Ok((rest, Tree::Bool(false))),
            Err(e) => Err(e),
        },
        match word(s, "true"@) {
            Ok((rest, _)) => Ok((rest, Tree::Bool(true))),
            Err(e) => Err(e),
        },
    )
}

/// `...`.
pub open spec fn vararg(s: Seq<u8>) -> Outcome<Tree> {
    match token(s, "..."@) {
        Ok((rest, _)) => Ok((rest, Tree::VarArg)),
        Err(e) => Err(e),
    }
}

/// A unary operator: `not` as a whole word, `#`, `-` or `~`.
pub open spec fn unary_operator(s: Seq<u8>) -> Outcome<UnOp> {
    either(
        either(
            either(
                match word(s, "not"@) {
                    Ok((rest, _)) => Ok((rest, UnOp::Not)),
                    Err(e) => Err(e),
                },
                match token(s, "#"@) {
                    Ok((rest, _)) => Ok((rest, UnOp::Len)),
                    Err(e) => Err(e),
                },
            ),
            match token(s, "-"@) {
                Ok((rest, _)) => Ok((rest, UnOp::UMin)),
                Err(e) => Err(e),
            },
        ),
        match token(s, "~"@) {
            Ok((rest, _)) => Ok((rest, UnOp::BinNot)),
            Err(e) => Err(e),
        },
    )
}

/// An expression: the loosest level of operators.
pub open spec fn exp(s: Seq<u8>) -> Outcome<Tree>
    decreases s.len(), rank(0) + 5,
{
    level(0, s)
}

/// The expressions of level `k`: an operand and then, as often as both are
/// there, an operator of the level and another operand, folded to the left. At
/// the level of the unary operators, any number of them before an operand.
pub open spec fn level(k: int, s: Seq<u8>) -> Outcome<Tree>
    decreases s.len(), rank(k) + 4,
{
    if k < 0 || k >= levels() {
        Err(ParseFailure::SyntaxMismatch)
    } else if k == level_unary() {
        prefixed(s)
    } else {
        match within(operand(k, s), s) {
            Ok((rest, first)) => {
                let (rest, all) = tail(k, rest, first);
                Ok((rest, all))
            },
            Err(e) => Err(e),
        }
    }
}

/// What follows the first operand at level `k`, folded into `left`.
pub open spec fn tail(k: int, s: Seq<u8>, left: Tree) -> (Seq<u8>, Tree)
    decreases s.len(), rank(k) + 3,
{
    if k < 0 || k >= levels() {
        (s, left)
    } else {
        match pair(k, s) {
            Some((rest, op, right)) => if rest.len() < s.len() {
                tail(k, rest, binary(op, left, right))
            } else {
                (s, left)
            },
            None => (s, left),
        }
    }
}

/// An operator of level `k` and the operand after it: of the operators of the
/// level, in their order, the first with which both are there.
pub open spec fn pair(k: int, s: Seq<u8>) -> Option<(Seq<u8>, BinOp, Tree)>
    decreases s.len(), rank(k) + 2,
{
    if k == level_or() {
        operation(k, s, "or"@, true, BinOp::Or)
    } else if k == level_and() {
        operation(k, s, "and"@, true, BinOp::And)
    } else if k == level_relational() {
        prefer(
            operation(k, s, "<"@, false, BinOp::Lt),
            prefer(
                operation(k, s, "<="@, false, BinOp::Le),
                prefer(
                    operation(k, s, ">"@, false, BinOp::Gt),
                    prefer(
                        operation(k, s, ">="@, false, BinOp::Ge),
                        prefer(
                            operation(k, s, "=="@, false, BinOp::Eq),
                            operation(k, s, "~="@, false, BinOp::Ne),
                        ),
                    ),
                ),
            ),
        )
    } else if k == level_bit_or() {
        operation(k, s, "|"@, false, BinOp::BitOr)
    } else if k == level_bit_xor() {
        operation(k, s, "~"@, false, BinOp::BitXor)
    } else if k == level_bit_and() {
        operation(k, s, "&"@, false, BinOp::BitAnd)
    } else if k == level_shift() {
        prefer(
            operation(k, s, "<<"@, false, BinOp::Lsh),
            operation(k, s, ">>"@, false, BinOp::Rsh),
        )
    } else if k == level_concat() {
        operation(k, s, ".."@, false, BinOp::Concat)
    } else if k == level_additive() {
        prefer(
            operation(k, s, "+"@, false, BinOp::Add),
            operation(k, s, "-"@, false, BinOp::Sub),
        )
    } else if k == level_multiplicative() {
        prefer(
            operation(k, s, "*"@, false, BinOp::Mul),
            prefer(
                operation(k, s, "//"@, false, BinOp::FDiv),
                prefer(
                    operation(k, s, "%"@, false, BinOp::Mod),
                    operation(k, s, "/"@, false, BinOp::Div),
                ),
            ),
        )
    } else if k == level_exponent() {
        operation(k, s, "^"@, false, BinOp::Exp)
    } else {
        None
    }
}

/// The operator `op`, written `text`, and an operand of level `k` after it.
/// An operator that is a reserved word is read as a whole word.
pub open spec fn operation(k: int, s: Seq<u8>, text: Seq<char>, reserved: bool, op: BinOp) -> Option<
    (Seq<u8>, BinOp, Tree),
>
    decreases s.len(), rank(k) + 1,
{
    if k < 0 || k >= levels() {
        None
    } else {
        match (if reserved {
            word(s, text)
        } else {
            token(s, text)
        }) {
            Ok((rest, _)) => match within(operand(k, rest), rest) {
                Ok((rest, right)) => Some((rest, op, right)),
                Err(_) => None,
            },
            Err(_) => None,
        }
    }
}

/// An operand of level `k`: an expression of the next tighter level, and at
/// the tightest level a factor.
pub open spec fn operand(k: int, s: Seq<u8>) -> Outcome<Tree>
    decreases s.len(), rank(k),
{
    if k < 0 || k >= levels() {
        Err(ParseFailure::SyntaxMismatch)
    } else if k == level_exponent() {
        factor(s)
    } else {
        level(k + 1, s)
    }
}

/// Unary operators, each with white space allowed before it, and the
/// expression of the tightest level that they apply to. The first operator
/// written is the outermost.
pub open spec fn prefixed(s: Seq<u8>) -> Outcome<Tree>
    decreases s.len(), rank(level_unary()) + 3,
{
    let t = skip_space(s);
    match unary_operator(t) {
        Ok((rest, op)) => {
            proof {
                lemma_run_len(s, Class::Space);
            }
            match within(prefixed(rest), rest) {
                Ok((rest, inner)) => Ok((rest, unary(op, inner))),
                Err(e) => Err(e),
            }
        },
        Err(_) => level(level_exponent(), s),
    }
}

/// A factor: an atom with white space allowed before and after it.
pub open spec fn factor(s: Seq<u8>) -> Outcome<Tree>
    decreases s.len(), 4int,
{
    let t = skip_space(s);
    proof {
        lemma_run_len(s, Class::Space);
    }
    match within(atom(t), t) {
        Ok((rest, value)) => Ok((skip_space(rest), value)),
        Err(e) => Err(e),
    }
}

/// An atom: the first that matches of numeral, expression in parentheses,
/// `nil`, `false`, `true`, string, `...`, function, prefix expression and
/// table constructor.
pub open spec fn atom(s: Seq<u8>) -> Outcome<Tree>
    decreases s.len(), 3int,
{
    let found = either(numeral(s), paren(s));
    let found = either(found, nil(s));
    let found = either(found, boolean(s));
    let found = either(found, string(s));
    let found = either(found, vararg(s));
    let found = either(found, functiondef(s));
    let found = either(found, prefixexp(s));
    either(found, tableconstructor(s))
}

/// An expression between `(` and `)`.
pub open spec fn parenthesised(s: Seq<u8>) -> Outcome<Tree>
    decreases s.len(), 1int,
{
    match token(s, "("@) {
        Ok((rest, _)) => match within(exp(rest), rest) {
            Ok((rest, inner)) => match tag(rest, ")"@) {
                Ok((rest, _)) => Ok((rest, inner)),
                Err(e) => Err(e),
            },
            Err(e) => Err(e),
        },
        Err(e) => Err(e),
    }
}

/// An expression in parentheses, as an operand.
pub open spec fn paren(s: Seq<u8>) -> Outcome<Tree>
    decreases s.len(), 2int,
{
    match parenthesised(s) {
        Ok((rest, inner)) => Ok((rest, Tree::Paren(Box::new(inner)))),
        Err(e) => Err(e),
    }
}

/// A prefix expression: an expression in parentheses, or a variable.
pub open spec fn prefixexp(s: Seq<u8>) -> Outcome<Tree>
    decreases s.len(), 2int,
{
    match either(parenthesised(s), var(s)) {
        Ok((rest, inner)) => Ok((rest, Tree::PrefixExp(Box::new(inner)))),
        Err(e) => Err(e),
    }
}

/// `[`, an expression and `]`, white space allowed before the `[`.
pub open spec fn index(s: Seq<u8>) -> Outcome<Tree>
    decreases s.len(), 0int,
{
    let t = skip_space(s);
    proof {
        lemma_run_len(s, Class::Space);
    }
    match token(t, "["@) {
        Ok((rest, _)) => match within(exp(rest), rest) {
            Ok((rest, inner)) => match tag(rest, "]"@) {
                Ok((rest, _)) => Ok((rest, inner)),
                Err(e) => Err(e),
            },
            Err(e) => Err(e),
        },
        Err(e) => Err(e),
    }
}

/// `.` and a name, white space allowed around the `.`.
pub open spec fn member(s: Seq<u8>) -> Outcome<Tree> {
    match tag(skip_space(s), "."@) {
        Ok((rest, _)) => name(skip_space(rest)),
        Err(e) => Err(e),
    }
}

/// A name as a prefix expression.
pub open spec fn base(named: Tree) -> Tree {
    Tree::PrefixExp(Box::new(Tree::Var(Box::new(named))))
}

/// A variable: a name and at most one step after it, which is an index or a
/// member.
pub open spec fn var(s: Seq<u8>) -> Outcome<Tree>
    decreases s.len(), 1int,
{
    match shorter(name(s), s) {
        Ok((rest, named)) => match index(rest) {
            Ok((rest, inner)) => Ok(
                (rest, Tree::VarPrefixed(Box::new(base(named)), Box::new(inner))),
            ),
            Err(_) => match member(rest) {
                Ok((rest, field)) => Ok(
                    (rest, Tree::VarListAccess(Box::new(base(named)), Box::new(field))),
                ),
                Err(_) => Ok((rest, Tree::Var(Box::new(named)))),
            },
        },
        Err(e) => Err(e),
    }
}

/// The variables that follow the first of a list: a comma and a variable, as
/// often as both are there.
pub open spec fn more_vars(s: Seq<u8>, found: Seq<Tree>) -> (Seq<u8>, Seq<Tree>)
    decreases s.len(), 3int,
{
    match shorter(comma(s), s) {
        Ok((rest, _)) => match within(var(rest), rest) {
            Ok((rest, node)) => more_vars(rest, found.push(node)),
            Err(_) => (s, found),
        },
        Err(_) => (s, found),
    }
}

/// A list of variables: one or more, with commas between.
pub open spec fn varlist(s: Seq<u8>) -> Outcome<Tree>
    decreases s.len(), 4int,
{
    match within(var(s), s) {
        Ok((rest, first)) => {
            let (rest, all) = more_vars(rest, seq![first]);
            Ok((rest, Tree::VarList(all)))
        },
        Err(e) => Err(e),
    }
}

/// The expressions that follow the first of a list: a comma and an
/// expression, as often as both are there.
pub open spec fn more_exps(s: Seq<u8>, found: Seq<Tree>) -> (Seq<u8>, Seq<Tree>)
    decreases s.len(), rank(0) + 6,
{
    match shorter(comma(s), s) {
        Ok((rest, _)) => match within(exp(rest), rest) {
            Ok((rest, node)) => more_exps(rest, found.push(node)),
            Err(_) => (s, found),
        },
        Err(_) => (s, found),
    }
}

/// A list of expressions: one or more, with commas between.
pub open spec fn explist(s: Seq<u8>) -> Outcome<Tree>
    decreases s.len(), rank(0) + 7,
{
    match within(exp(s), s) {
        Ok((rest, first)) => {
            let (rest, all) = more_exps(rest, seq![first]);
            Ok((rest, Tree::ExpList(all)))
        },
        Err(e) => Err(e),
    }
}

/// A field with a computed key: `[`, an expression, `]`, `=` and an
/// expression.
pub open spec fn keyed_field(s: Seq<u8>) -> Outcome<Tree>
    decreases s.len(), rank(0) + 6,
{
    match token(s, "["@) {
        Ok((rest, _)) => match within(exp(rest), rest) {
            Ok((rest, key)) => match within(tag(rest, "]"@), rest) {
                Ok((rest, _)) => match within(tag(skip_space(rest), "="@), rest) {
                    Ok((rest, _)) => match exp(rest) {
                        Ok((rest, value)) => Ok(
                            (rest, Tree::FieldAssign(Box::new(key), Box::new(value))),
                        ),
                        Err(e) => Err(e),
                    },
                    Err(e) => Err(e),
                },
                Err(e) => Err(e),
            },
            Err(e) => Err(e),
        },
        Err(e) => Err(e),
    }
}

/// A field with a name as its key: a name, `=` and an expression.
pub open spec fn named_field(s: Seq<u8>) -> Outcome<Tree>
    decreases s.len(), rank(0) + 6,
{
    match shorter(name(s), s) {
        Ok((rest, key)) => match within(tag(skip_space(rest), "="@), rest) {
            Ok((rest, _)) => match exp(rest) {
                Ok((rest, value)) => Ok((rest, Tree::FieldAssign(Box::new(key), Box::new(value)))),
                Err(e) => Err(e),
            },
            Err(e) => Err(e),
        },
        Err(e) => Err(e),
    }
}

/// A field that is an expression.
pub open spec fn single_field(s: Seq<u8>) -> Outcome<Tree>
    decreases s.len(), rank(0) + 6,
{
    match exp(s) {
        Ok((rest, value)) => Ok((rest, Tree::FieldSingle(Box::new(value)))),
        Err(e) => Err(e),
    }
}

/// A field: the first that matches of a field with a computed key, a field
/// with a name as its key and an expression; white space allowed around it.
pub open spec fn field(s: Seq<u8>) -> Outcome<Tree>
    decreases s.len(), rank(0) + 7,
{
    let t = skip_space(s);
    proof {
        lemma_run_len(s, Class::Space);
    }
    match either(either(keyed_field(t), named_field(t)), single_field(t)) {
        Ok((rest, value)) => Ok((skip_space(rest), value)),
        Err(e) => Err(e),
    }
}

/// What parts two fields: `,` or `;`.
pub open spec fn fieldsep(s: Seq<u8>) -> Outcome<()> {
    either(token(s, ","@), token(s, ";"@))
}

/// The fields that follow the first of a list: a separator and a field, as
/// often as both are there.
pub open spec fn more_fields(s: Seq<u8>, found: Seq<Tree>) -> (Seq<u8>, Seq<Tree>)
    decreases s.len(), rank(0) + 8,
{
    match fieldsep(s) {
        Ok((rest, _)) => match within(field(rest), rest) {
            Ok((rest, node)) => more_fields(rest, found.push(node)),
            Err(_) => (s, found),
        },
        Err(_) => (s, found),
    }
}

/// A list of fields: one or more, with separators between.
pub open spec fn fieldlist(s: Seq<u8>) -> Outcome<Tree>
    decreases s.len(), rank(0) + 9,
{
    match within(field(s), s) {
        Ok((rest, first)) => {
            let (rest, all) = more_fields(rest, seq![first]);
            Ok((rest, Tree::FieldList(all)))
        },
        Err(e) => Err(e),
    }
}

/// A table constructor: `{`, an optional list of fields and `}`.
pub open spec fn tableconstructor(s: Seq<u8>) -> Outcome<Tree>
    decreases s.len(), 2int,
{
    match token(s, "{"@) {
        Ok((rest, _)) => {
            let t = skip_space(rest);
            proof {
                lemma_run_len(rest, Class::Space);
            }
            match fieldlist(t) {
                Ok((rest, fields)) => match tag(skip_space(rest), "}"@) {
                    Ok((rest, _)) => Ok((rest, Tree::TableConstructor(Some(Box::new(fields))))),
                    Err(e) => Err(e),
                },
                Err(_) => match tag(t, "}"@) {
                    Ok((rest, _)) => Ok((rest, Tree::TableConstructor(None))),
                    Err(e) => Err(e),
                },
            }
        },
        Err(e) => Err(e),
    }
}

/// `;` with white space allowed around it: the empty statement.
pub open spec fn semicolon(s: Seq<u8>) -> Outcome<Tree> {
    match tag(skip_space(s), ";"@) {
        Ok((rest, _)) => Ok((skip_space(rest), Tree::EmptyStatement)),
        Err(e) => Err(e),
    }
}

/// `goto` and a name, white space allowed around the name.
pub open spec fn goto(s: Seq<u8>) -> Outcome<Tree> {
    match word(s, "goto"@) {
        Ok((rest, _)) => match name(skip_space(rest)) {
            Ok((rest, target)) => Ok((skip_space(rest), Tree::Goto(Box::new(target)))),
            Err(e) => Err(e),
        },
        Err(e) => Err(e),
    }
}

/// A statement: the first that matches of the empty statement, a label and a
/// `goto`.
pub open spec fn statement(s: Seq<u8>) -> Outcome<Tree> {
    either(either(semicolon(s), label(s)), goto(s))
}

/// Statements, as many as are there, added to those `found` before.
pub open spec fn statements(s: Seq<u8>, found: Seq<Tree>) -> (Seq<u8>, Seq<Tree>)
    decreases s.len(),
{
    match statement(s) {
        Ok((rest, node)) => if rest.len() < s.len() {
            statements(rest, found.push(node))
        } else {
            (s, found)
        },
        Err(_) => (s, found),
    }
}

/// A return statement: `return`, an optional list of expressions and an
/// optional `;`.
pub open spec fn retstat(s: Seq<u8>) -> Outcome<Tree>
    decreases s.len(), rank(0) + 8,
{
    match word(s, "return"@) {
        Ok((rest, _)) => {
            let t = skip_space(rest);
            proof {
                lemma_run_len(rest, Class::Space);
            }
            let (rest, values) = match explist(t) {
                Ok((rest, list)) => (skip_space(rest), Some(Box::new(list))),
                Err(_) => (t, None),
            };
            match tag(rest, ";"@) {
                Ok((rest, _)) => Ok((rest, Tree::RetStat(values))),
                Err(_) => Ok((rest, Tree::RetStat(values))),
            }
        },
        Err(e) => Err(e),
    }
}

/// A block: statements, as many as are there, and an optional return
/// statement with white space allowed around it. Every input begins with a
/// block, which may be empty.
pub open spec fn block(s: Seq<u8>) -> Outcome<Tree>
    decreases s.len(), rank(0) + 9,
{
    let (rest, list) = statements(s, Seq::empty());
    if rest.len() <= s.len() {
        proof {
            lemma_run_len(rest, Class::Space);
        }
        match retstat(skip_space(rest)) {
            Ok((after, last)) => Ok((skip_space(after), Tree::Block(list, Some(Box::new(last))))),
            Err(_) => Ok((rest, Tree::Block(list, None))),
        }
    } else {
        Ok((s, Tree::Block(Seq::empty(), None)))
    }
}

/// A parameter list: an optional list of names, an optional comma and an
/// optional `...`. Every input begins with a parameter list, which may be
/// empty.
pub open spec fn parlist(s: Seq<u8>) -> Outcome<Tree> {
    let (rest, names) = match namelist(s) {
        Ok((rest, list)) => (rest, Some(Box::new(list))),
        Err(_) => (s, None),
    };
    let rest = match comma(rest) {
        Ok((rest, _)) => rest,
        Err(_) => rest,
    };
    match tag(skip_space(rest), "..."@) {
        Ok((after, _)) => Ok((skip_space(after), Tree::ParameterList(names, true))),
        Err(_) => Ok((rest, Tree::ParameterList(names, false))),
    }
}

/// A function body: `(`, a parameter list, `)`, a block and `end`, white
/// space allowed around the parameter list and the block.
pub open spec fn funcbody(s: Seq<u8>) -> Outcome<Tree>
    decreases s.len(), 1int,
{
    match token(s, "("@) {
        Ok((rest, _)) => match within(parlist(skip_space(rest)), rest) {
            Ok((rest, parameters)) => match within(tag(skip_space(rest), ")"@), rest) {
                Ok((rest, _)) => {
                    proof {
                        lemma_run_len(rest, Class::Space);
                    }
                    match block(skip_space(rest)) {
                        Ok((after, body)) => match word(skip_space(after), "end"@) {
                            Ok((rest, _)) => Ok(
                                (
                                    rest,
                                    Tree::FunctionBody(
                                        Some(Box::new(parameters)),
                                        Box::new(body),
                                    ),
                                ),
                            ),
                            Err(e) => Err(e),
                        },
                        Err(e) => Err(e),
                    }
                },
                Err(e) => Err(e),
            },
            Err(e) => Err(e),
        },
        Err(e) => Err(e),
    }
}

/// A function: `function` and a function body, white space allowed around
/// the body.
pub open spec fn functiondef(s: Seq<u8>) -> Outcome<Tree>
    decreases s.len(), 2int,
{
    match word(s, "function"@) {
        Ok((rest, _)) => {
            proof {
                lemma_run_len(rest, Class::Space);
            }
            match funcbody(skip_space(rest)) {
                Ok((rest, body)) => Ok((skip_space(rest), Tree::Function(Box::new(body)))),
                Err(e) => Err(e),
            }
        },
        Err(e) => Err(e),
    }
}

/// A local function: `local`, `function`, a name and a function body.
pub open spec fn local_function(s: Seq<u8>) -> Outcome<Tree> {
    match word(s, "local"@) {
        Ok((rest, _)) => match word(skip_space(rest), "function"@) {
            Ok((rest, _)) => match name(skip_space(rest)) {
                Ok((rest, named)) => match funcbody(rest) {
                    Ok((rest, body)) => Ok(
                        (rest, Tree::NamedFunction(Box::new(named), Box::new(body))),
                    ),
                    Err(e) => Err(e),
                },
                Err(e) => Err(e),
            },
            Err(e) => Err(e),
        },
        Err(e) => Err(e),
    }
}

/// The names after a point in the name of a function, as many as are there.
pub open spec fn more_members(s: Seq<u8>, found: Seq<Tree>) -> (Seq<u8>, Seq<Tree>)
    decreases s.len(),
{
    match member(s) {
        Ok((rest, node)) => if rest.len() < s.len() {
            more_members(rest, found.push(node))
        } else {
            (s, found)
        },
        Err(_) => (s, found),
    }
}

/// `:` and a name, white space allowed around the `:`.
pub open spec fn method(s: Seq<u8>) -> Outcome<Tree> {
    match tag(skip_space(s), ":"@) {
        Ok((rest, _)) => name(skip_space(rest)),
        Err(e) => Err(e),
    }
}

/// The name of a function: a name, the names after a point, if there are
/// any, and an optional name after a colon.
pub open spec fn funcname(s: Seq<u8>) -> Outcome<Tree> {
    match name(s) {
        Ok((rest, first)) => {
            let (rest, path) = more_members(rest, Seq::empty());
            let path = if path.len() > 0 {
                Some(path)
            } else {
                None
            };
            match method(rest) {
                Ok((rest, last)) => Ok(
                    (rest, Tree::FunctionName(Box::new(first), path, Some(Box::new(last)))),
                ),
                Err(_) => Ok((rest, Tree::FunctionName(Box::new(first), path, None))),
            }
        },
        Err(e) => Err(e),
    }
}

/// A chunk: an expression with white space allowed around it.
pub open spec fn chunk(s: Seq<u8>) -> Outcome<Tree> {
    exp(s)
}

/// The expressions found after the first are added to those found before.
pub proof fn lemma_more_exps_grows(s: Seq<u8>, found: Seq<Tree>)
    ensures
        more_exps(s, found).1.len() >= found.len(),
    decreases s.len(),
{
    match shorter(comma(s), s) {
        Ok((after, _)) => match within(exp(after), after) {
            Ok((next, node)) => {
                lemma_more_exps_grows(next, found.push(node));
            },
            Err(_) => {},
        },
        Err(_) => {},
    }
}

/// The variables found after the first are added to those found before.
pub proof fn lemma_more_vars_grows(s: Seq<u8>, found: Seq<Tree>)
    ensures
        more_vars(s, found).1.len() >= found.len(),
    decreases s.len(),
{
    match shorter(comma(s), s) {
        Ok((after, _)) => match within(var(after), after) {
            Ok((next, node)) => {
                lemma_more_vars_grows(next, found.push(node));
            },
            Err(_) => {},
        },
        Err(_) => {},
    }
}

/// The fields found after the first are added to those found before.
pub proof fn lemma_more_fields_grows(s: Seq<u8>, found: Seq<Tree>)
    ensures
        more_fields(s, found).1.len() >= found.len(),
    decreases s.len(),
{
    match fieldsep(s) {
        Ok((after, _)) => match within(field(after), after) {
            Ok((next, node)) => {
                lemma_more_fields_grows(next, found.push(node));
            },
            Err(_) => {},
        },
        Err(_) => {},
    }
}

/// A list of expressions, of variables or of fields that is read holds at
/// least one of them.
pub proof fn law_lists_are_not_empty(s: Seq<u8>)
    ensures
        explist(s) matches Ok((_, Tree::ExpList(list))) ==> list.len() >= 1,
        varlist(s) matches Ok((_, Tree::VarList(list))) ==> list.len() >= 1,
        fieldlist(s) matches Ok((_, Tree::FieldList(list))) ==> list.len() >= 1,
        explist(s) is Ok ==> explist(s)->Ok_0.1 is ExpList,
        varlist(s) is Ok ==> varlist(s)->Ok_0.1 is VarList,
        fieldlist(s) is Ok ==> fieldlist(s)->Ok_0.1 is FieldList,
{
    match within(exp(s), s) {
        Ok((rest, first)) => {
            lemma_more_exps_grows(rest, seq![first]);
        },
        Err(_) => {},
    }
    match within(var(s), s) {
        Ok((rest, first)) => {
            lemma_more_vars_grows(rest, seq![first]);
        },
        Err(_) => {},
    }
    match within(field(s), s) {
        Ok((rest, first)) => {
            lemma_more_fields_grows(rest, seq![first]);
        },
        Err(_) => {},
    }
}

} // verus!
