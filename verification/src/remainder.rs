//! What a rule leaves is the end of what it was given, and a rule that reads
//! an expression, a numeral, a string or a name reads at least one byte.
use crate::ast::{binary, BinOp, Tree};
use crate::error::Outcome;
use crate::grammar::{
    atom, block, exp, explist, factor, field, fieldlist, fieldsep, funcbody, functiondef, goto,
    index, keyed_field, level, levels, member, method, more_exps, more_fields, named_field,
    numeral, operand, operation, pair, paren, parenthesised, parlist, prefixed, prefixexp, rank,
    retstat, semicolon, single_field, statement, statements, tableconstructor, tail,
    unary_operator, var,
};
use crate::lexical::{keyword, lemma_run_len, run, skip_space, tag, token, word, Class};
use crate::name::{comma, label, more_names, name, namelist, valid_name};
use crate::number::{either, exponent_len, float_len, number};
use crate::string::{item, items, short_literal, string};
use vstd::prelude::*;

verus! {

/// Whether `rest` is an end of `s`: `s` without some of its first bytes.
pub open spec fn ends(rest: Seq<u8>, s: Seq<u8>) -> bool {
    rest.len() <= s.len() && rest == s.skip(s.len() - rest.len())
}

/// Whether `rest` is an end of `s` and shorter than `s`.
pub open spec fn ends_short(rest: Seq<u8>, s: Seq<u8>) -> bool {
    ends(rest, s) && rest.len() < s.len()
}

/// Whether an outcome leaves an end of `s`.
pub open spec fn leaves<T>(o: Outcome<T>, s: Seq<u8>) -> bool {
    o matches Ok((rest, _)) ==> ends(rest, s)
}

/// Whether an outcome leaves an end of `s` that is shorter than `s`.
pub open spec fn leaves_less<T>(o: Outcome<T>, s: Seq<u8>) -> bool {
    o matches Ok((rest, _)) ==> ends_short(rest, s)
}

/// What is left without its first bytes is an end.
pub proof fn lemma_skip_ends(s: Seq<u8>, n: int)
    requires
        0 <= n <= s.len(),
    ensures
        ends(s.skip(n), s),
{
}

/// An end of an end is an end.
pub broadcast proof fn lemma_ends_of_ends(a: Seq<u8>, b: Seq<u8>, c: Seq<u8>)
    requires
        #[trigger] ends(a, b),
        #[trigger] ends(b, c),
    ensures
        ends(a, c),
{
    assert(c.skip(c.len() - b.len()).skip(b.len() - a.len()) =~= c.skip(c.len() - a.len()));
}

/// White space is skipped from the front.
pub proof fn lemma_space_ends(s: Seq<u8>)
    ensures
        ends(skip_space(s), s),
{
    lemma_run_len(s, Class::Space);
}

/// A token is read from the front.
pub proof fn lemma_token_ends(s: Seq<u8>, text: Seq<char>)
    ensures
        leaves(tag(s, text), s),
        leaves(keyword(s, text), s),
        leaves_less(token(s, text), s),
        leaves_less(word(s, text), s),
{
}

/// A run is read from the front.
pub proof fn lemma_run_ends(s: Seq<u8>, c: Class)
    ensures
        leaves_less(run(s, c), s),
{
    lemma_run_len(s, c);
}

/// An exponent is no longer than the input.
proof fn lemma_exponent_bounds(s: Seq<u8>, hex: bool)
    ensures
        exponent_len(s, hex) matches Ok(e) ==> 1 <= e <= s.len(),
{
    if s.len() > 0 {
        let sign: int = if s.len() > 1 && crate::number::is_sign(s[1]) {
            1
        } else {
            0
        };
        lemma_run_len(s.skip(1 + sign), crate::number::digits_class(hex));
    }
}

/// A float is no longer than the input, and not empty.
proof fn lemma_float_bounds(s: Seq<u8>, hex: bool)
    ensures
        float_len(s, hex) matches Ok(n) ==> 1 <= n <= s.len(),
{
    let c = crate::number::digits_class(hex);
    let whole = crate::lexical::run_len(s, c) as int;
    lemma_run_len(s, c);
    if whole < s.len() && s[whole] == 0x2E {
        let fraction = crate::lexical::run_len(s.skip(whole + 1), c) as int;
        lemma_run_len(s.skip(whole + 1), c);
        lemma_exponent_bounds(s.skip(whole + 1 + fraction), hex);
    } else if whole > 0 {
        lemma_exponent_bounds(s.skip(whole), hex);
    }
}

/// A numeral is read from the front, and is not empty.
pub proof fn lemma_number_ends(s: Seq<u8>)
    ensures
        leaves_less(number(s), s),
        leaves_less(numeral(s), s),
{
    lemma_float_bounds(s, false);
    lemma_run_len(s, Class::Digit);
    if s.len() >= 2 {
        let body = s.skip(2);
        lemma_float_bounds(body, true);
        lemma_run_len(body, Class::HexDigit);
        assert forall|n: int| 0 <= n <= body.len() implies #[trigger] body.skip(n) == s.skip(
            2 + n,
        ) by {
            assert(body.skip(n) =~= s.skip(2 + n));
        }
    }
}

/// One character of a string is read from the front, and is not empty.
pub proof fn lemma_item_ends(s: Seq<u8>)
    ensures
        leaves_less(item(s), s),
{
    lemma_token_ends(s, "\\\r\n"@);
    lemma_token_ends(s, "\\\n\r"@);
    lemma_token_ends(s, "\\\n"@);
    lemma_token_ends(s, "\\x"@);
    lemma_token_ends(s, "\\"@);
    lemma_token_ends(s, "\\u{"@);
    reveal_strlit("\\\r\n");
    reveal_strlit("\\\n\r");
    reveal_strlit("\\\n");
    reveal_strlit("\\x");
    reveal_strlit("\\");
    reveal_strlit("\\u{");
    if s.len() >= 4 {
        assert(s.skip(2).skip(2) =~= s.skip(4));
    }
    if s.len() >= 1 {
        let body = s.skip(1);
        lemma_run_len(body, Class::Digit);
        assert forall|n: int| 0 <= n <= body.len() implies #[trigger] body.skip(n) == s.skip(
            1 + n,
        ) by {
            assert(body.skip(n) =~= s.skip(1 + n));
        }
    }
    if s.len() >= 3 {
        let body = s.skip(3);
        lemma_run_len(body, Class::HexDigit);
        let after = body.skip(crate::lexical::run_len(body, Class::HexDigit) as int);
        lemma_token_ends(after, "}"@);
        match tag(after, "}"@) {
            Ok((rest, _)) => {
                lemma_skip_ends(s, 3);
                lemma_skip_ends(body, crate::lexical::run_len(body, Class::HexDigit) as int);
                lemma_ends_of_ends(after, body, s);
                lemma_ends_of_ends(rest, after, s);
            },
            Err(_) => {},
        }
    }
}

/// The characters of a string and its closing quote are read from the front.
pub proof fn lemma_items_ends(s: Seq<u8>, quote: u8, found: Seq<char>)
    ensures
        leaves_less(items(s, quote, found), s),
    decreases s.len(),
{
    if s.len() > 0 && s[0] != quote {
        lemma_item_ends(s);
        match item(s) {
            Ok((rest, c)) => {
                if rest.len() < s.len() {
                    lemma_items_ends(rest, quote, found.push(c));
                    match items(rest, quote, found.push(c)) {
                        Ok((last, _)) => {
                            lemma_ends_of_ends(last, rest, s);
                        },
                        Err(_) => {},
                    }
                }
            },
            Err(_) => {},
        }
    }
}

/// A string is read from the front, and is not empty.
pub proof fn lemma_string_ends(s: Seq<u8>)
    ensures
        leaves_less(short_literal(s), s),
        leaves_less(string(s), s),
{
    if s.len() > 0 {
        lemma_items_ends(s.skip(1), s[0], Seq::empty());
        match items(s.skip(1), s[0], Seq::empty()) {
            Ok((rest, _)) => {
                lemma_skip_ends(s, 1);
                lemma_ends_of_ends(rest, s.skip(1), s);
            },
            Err(_) => {},
        }
    }
}

/// A name is read from the front, and is not empty.
pub proof fn lemma_name_ends(s: Seq<u8>)
    ensures
        leaves_less(valid_name(s), s),
        leaves_less(name(s), s),
{
    lemma_run_len(s, Class::Word);
}

/// A comma with the white space around it is read from the front.
pub proof fn lemma_comma_ends(s: Seq<u8>)
    ensures
        leaves_less(comma(s), s),
{
    broadcast use lemma_ends_of_ends;
    reveal_strlit(",");
    let t = skip_space(s);
    lemma_space_ends(s);
    lemma_token_ends(t, ","@);
    match tag(t, ","@) {
        Ok((rest, _)) => {
            lemma_space_ends(rest);
            lemma_ends_of_ends(rest, t, s);
            lemma_ends_of_ends(skip_space(rest), rest, s);
        },
        Err(_) => {},
    }
}

/// A unary operator is read from the front, and is not empty.
pub proof fn lemma_unary_operator_ends(s: Seq<u8>)
    ensures
        leaves_less(unary_operator(s), s),
{
    lemma_token_ends(s, "not"@);
    lemma_token_ends(s, "#"@);
    lemma_token_ends(s, "-"@);
    lemma_token_ends(s, "~"@);
}

/// `.` and a name are read from the front.
pub proof fn lemma_member_ends(s: Seq<u8>)
    ensures
        leaves_less(member(s), s),
        leaves_less(method(s), s),
{
    broadcast use lemma_ends_of_ends;

    let t = skip_space(s);
    lemma_space_ends(s);
    lemma_token_ends(t, "."@);
    match tag(t, "."@) {
        Ok((rest, _)) => {
            lemma_space_ends(rest);
            lemma_name_ends(skip_space(rest));
        },
        Err(_) => {},
    }
    lemma_token_ends(t, ":"@);
    match tag(t, ":"@) {
        Ok((rest, _)) => {
            lemma_space_ends(rest);
            lemma_name_ends(skip_space(rest));
        },
        Err(_) => {},
    }
}

/// A label is read from the front, and is not empty.
pub proof fn lemma_label_ends(s: Seq<u8>)
    ensures
        leaves_less(label(s), s),
{
    broadcast use lemma_ends_of_ends;

    lemma_token_ends(s, "::"@);
    match tag(s, "::"@) {
        Ok((rest, _)) => {
            lemma_space_ends(rest);
            lemma_name_ends(skip_space(rest));
            match valid_name(skip_space(rest)) {
                Ok((rest, _)) => {
                    lemma_space_ends(rest);
                    lemma_token_ends(skip_space(rest), "::"@);
                },
                Err(_) => {},
            }
        },
        Err(_) => {},
    }
}

/// A statement is read from the front.
pub proof fn lemma_statement_ends(s: Seq<u8>)
    ensures
        leaves(statement(s), s),
        leaves(semicolon(s), s),
        leaves_less(goto(s), s),
{
    broadcast use lemma_ends_of_ends;

    lemma_label_ends(s);
    let t = skip_space(s);
    lemma_space_ends(s);
    lemma_token_ends(t, ";"@);
    match tag(t, ";"@) {
        Ok((rest, _)) => {
            lemma_space_ends(rest);
        },
        Err(_) => {},
    }
    lemma_token_ends(s, "goto"@);
    match word(s, "goto"@) {
        Ok((rest, _)) => {
            lemma_space_ends(rest);
            lemma_name_ends(skip_space(rest));
            match name(skip_space(rest)) {
                Ok((rest, _)) => {
                    lemma_space_ends(rest);
                },
                Err(_) => {},
            }
        },
        Err(_) => {},
    }
}

/// Statements are read from the front.
pub proof fn lemma_statements_ends(s: Seq<u8>, found: Seq<Tree>)
    ensures
        ends(statements(s, found).0, s),
    decreases s.len(),
{
    broadcast use lemma_ends_of_ends;

    lemma_statement_ends(s);
    lemma_skip_ends(s, 0);
    assert(s.skip(0) =~= s);
    match statement(s) {
        Ok((rest, node)) => {
            if rest.len() < s.len() {
                lemma_statements_ends(rest, found.push(node));
            }
        },
        Err(_) => {},
    }
}

/// The names of a list are read from the front.
pub proof fn lemma_more_names_ends(s: Seq<u8>, found: Seq<Tree>)
    ensures
        ends(more_names(s, found).0, s),
    decreases s.len(),
{
    broadcast use lemma_ends_of_ends;

    lemma_comma_ends(s);
    assert(s.skip(0) =~= s);
    match comma(s) {
        Ok((rest, _)) => {
            lemma_name_ends(rest);
            match name(rest) {
                Ok((rest, node)) => {
                    if rest.len() < s.len() {
                        lemma_more_names_ends(rest, found.push(node));
                    }
                },
                Err(_) => {},
            }
        },
        Err(_) => {},
    }
}

/// A list of names is read from the front, and is not empty.
pub proof fn lemma_namelist_ends(s: Seq<u8>)
    ensures
        leaves_less(namelist(s), s),
{
    broadcast use lemma_ends_of_ends;

    lemma_name_ends(s);
    match name(s) {
        Ok((rest, first)) => {
            lemma_more_names_ends(rest, seq![first]);
        },
        Err(_) => {},
    }
}

/// A parameter list is read from the front.
pub proof fn lemma_parlist_ends(s: Seq<u8>)
    ensures
        leaves(parlist(s), s),
{
    broadcast use lemma_ends_of_ends;

    assert(s.skip(0) =~= s);
    lemma_namelist_ends(s);
    let rest = match namelist(s) {
        Ok((rest, _)) => rest,
        Err(_) => s,
    };
    lemma_comma_ends(rest);
    let rest = match comma(rest) {
        Ok((rest, _)) => rest,
        Err(_) => rest,
    };
    lemma_space_ends(rest);
    lemma_token_ends(skip_space(rest), "..."@);
    match tag(skip_space(rest), "..."@) {
        Ok((after, _)) => {
            lemma_space_ends(after);
        },
        Err(_) => {},
    }
}

/// An expression is read from the front, and is not empty.
pub proof fn lemma_exp_ends(s: Seq<u8>)
    ensures
        leaves_less(exp(s), s),
    decreases s.len(), rank(0) + 5,
{
    lemma_level_ends(0, s);
}

/// An expression of a level is read from the front, and is not empty.
pub proof fn lemma_level_ends(k: int, s: Seq<u8>)
    ensures
        leaves_less(level(k, s), s),
    decreases s.len(), rank(k) + 4,
{
    broadcast use lemma_ends_of_ends;

    if 0 <= k < levels() {
        if k == 10 {
            lemma_prefixed_ends(s);
        } else {
            lemma_operand_ends(k, s);
            match operand(k, s) {
                Ok((rest, first)) => {
                    if rest.len() <= s.len() {
                        lemma_tail_ends(k, rest, first);
                    }
                },
                Err(_) => {},
            }
        }
    }
}

/// What follows an operand is read from the front.
pub proof fn lemma_tail_ends(k: int, s: Seq<u8>, left: Tree)
    ensures
        ends(tail(k, s, left).0, s),
    decreases s.len(), rank(k) + 3,
{
    broadcast use lemma_ends_of_ends;

    assert(s.skip(0) =~= s);
    if 0 <= k < levels() {
        lemma_pair_ends(k, s);
        match pair(k, s) {
            Some((rest, op, right)) => {
                if rest.len() < s.len() {
                    lemma_tail_ends(k, rest, binary(op, left, right));
                }
            },
            None => {},
        }
    }
}

/// An operator and its operand are read from the front, and are not empty.
pub proof fn lemma_pair_ends(k: int, s: Seq<u8>)
    ensures
        pair(k, s) matches Some((rest, _, _)) ==> ends_short(rest, s),
    decreases s.len(), rank(k) + 2,
{
    if 0 <= k < levels() {
        lemma_operation_ends(k, s, "or"@, true, BinOp::Or);
        lemma_operation_ends(k, s, "and"@, true, BinOp::And);
        lemma_operation_ends(k, s, "<"@, false, BinOp::Lt);
        lemma_operation_ends(k, s, "<="@, false, BinOp::Le);
        lemma_operation_ends(k, s, ">"@, false, BinOp::Gt);
        lemma_operation_ends(k, s, ">="@, false, BinOp::Ge);
        lemma_operation_ends(k, s, "=="@, false, BinOp::Eq);
        lemma_operation_ends(k, s, "~="@, false, BinOp::Ne);
        lemma_operation_ends(k, s, "|"@, false, BinOp::BitOr);
        lemma_operation_ends(k, s, "~"@, false, BinOp::BitXor);
        lemma_operation_ends(k, s, "&"@, false, BinOp::BitAnd);
        lemma_operation_ends(k, s, "<<"@, false, BinOp::Lsh);
        lemma_operation_ends(k, s, ">>"@, false, BinOp::Rsh);
        lemma_operation_ends(k, s, ".."@, false, BinOp::Concat);
        lemma_operation_ends(k, s, "+"@, false, BinOp::Add);
        lemma_operation_ends(k, s, "-"@, false, BinOp::Sub);
        lemma_operation_ends(k, s, "*"@, false, BinOp::Mul);
        lemma_operation_ends(k, s, "//"@, false, BinOp::FDiv);
        lemma_operation_ends(k, s, "%"@, false, BinOp::Mod);
        lemma_operation_ends(k, s, "/"@, false, BinOp::Div);
        lemma_operation_ends(k, s, "^"@, false, BinOp::Exp);
    }
}

/// An operator and its operand are read from the front, and are not empty.
pub proof fn lemma_operation_ends(k: int, s: Seq<u8>, text: Seq<char>, reserved: bool, op: BinOp)
    ensures
        operation(k, s, text, reserved, op) matches Some((rest, _, _)) ==> ends_short(rest, s),
    decreases s.len(), rank(k) + 1,
{
    broadcast use lemma_ends_of_ends;

    if 0 <= k < levels() {
        lemma_token_ends(s, text);
        let opened = if reserved {
            word(s, text)
        } else {
            token(s, text)
        };
        match opened {
            Ok((rest, _)) => {
                lemma_operand_ends(k, rest);
            },
            Err(_) => {},
        }
    }
}

/// An operand is read from the front, and is not empty.
pub proof fn lemma_operand_ends(k: int, s: Seq<u8>)
    ensures
        leaves_less(operand(k, s), s),
    decreases s.len(), rank(k),
{
    if 0 <= k < levels() {
        if k == 11 {
            lemma_factor_ends(s);
        } else {
            lemma_level_ends(k + 1, s);
        }
    }
}

/// Unary operators and their operand are read from the front.
pub proof fn lemma_prefixed_ends(s: Seq<u8>)
    ensures
        leaves_less(prefixed(s), s),
    decreases s.len(), rank(10) + 3,
{
    broadcast use lemma_ends_of_ends;

    let t = skip_space(s);
    lemma_space_ends(s);
    lemma_unary_operator_ends(t);
    match unary_operator(t) {
        Ok((rest, _)) => {
            lemma_prefixed_ends(rest);
        },
        Err(_) => {
            lemma_level_ends(11, s);
        },
    }
}

/// A factor is read from the front, and is not empty.
pub proof fn lemma_factor_ends(s: Seq<u8>)
    ensures
        leaves_less(factor(s), s),
    decreases s.len(), 4int,
{
    broadcast use lemma_ends_of_ends;

    let t = skip_space(s);
    lemma_space_ends(s);
    lemma_atom_ends(t);
    match atom(t) {
        Ok((rest, _)) => {
            lemma_space_ends(rest);
        },
        Err(_) => {},
    }
}

/// An atom is read from the front, and is not empty.
pub proof fn lemma_atom_ends(s: Seq<u8>)
    ensures
        leaves_less(atom(s), s),
    decreases s.len(), 3int,
{
    lemma_number_ends(s);
    lemma_paren_ends(s);
    lemma_token_ends(s, "nil"@);
    lemma_token_ends(s, "false"@);
    lemma_token_ends(s, "true"@);
    lemma_string_ends(s);
    lemma_token_ends(s, "..."@);
    lemma_functiondef_ends(s);
    lemma_prefixexp_ends(s);
    lemma_tableconstructor_ends(s);
}

/// An expression between parentheses is read from the front.
pub proof fn lemma_parenthesised_ends(s: Seq<u8>)
    ensures
        leaves_less(parenthesised(s), s),
    decreases s.len(), 1int,
{
    broadcast use lemma_ends_of_ends;

    lemma_token_ends(s, "("@);
    match token(s, "("@) {
        Ok((rest, _)) => {
            lemma_exp_ends(rest);
            match exp(rest) {
                Ok((rest, _)) => {
                    lemma_token_ends(rest, ")"@);
                },
                Err(_) => {},
            }
        },
        Err(_) => {},
    }
}

/// An expression in parentheses is read from the front.
pub proof fn lemma_paren_ends(s: Seq<u8>)
    ensures
        leaves_less(paren(s), s),
    decreases s.len(), 2int,
{
    lemma_parenthesised_ends(s);
}

/// A prefix expression is read from the front, and is not empty.
pub proof fn lemma_prefixexp_ends(s: Seq<u8>)
    ensures
        leaves_less(prefixexp(s), s),
    decreases s.len(), 2int,
{
    lemma_parenthesised_ends(s);
    lemma_var_ends(s);
}

/// An index is read from the front.
pub proof fn lemma_index_ends(s: Seq<u8>)
    ensures
        leaves_less(index(s), s),
    decreases s.len(), 0int,
{
    broadcast use lemma_ends_of_ends;

    let t = skip_space(s);
    lemma_space_ends(s);
    lemma_token_ends(t, "["@);
    match token(t, "["@) {
        Ok((rest, _)) => {
            lemma_exp_ends(rest);
            match exp(rest) {
                Ok((rest, _)) => {
                    lemma_token_ends(rest, "]"@);
                },
                Err(_) => {},
            }
        },
        Err(_) => {},
    }
}

/// A variable is read from the front, and is not empty.
pub proof fn lemma_var_ends(s: Seq<u8>)
    ensures
        leaves_less(var(s), s),
    decreases s.len(), 1int,
{
    broadcast use lemma_ends_of_ends;

    lemma_name_ends(s);
    match name(s) {
        Ok((rest, _)) => {
            if rest.len() < s.len() {
                lemma_index_ends(rest);
                lemma_member_ends(rest);
            }
        },
        Err(_) => {},
    }
}

/// The expressions of a list are read from the front.
pub proof fn lemma_more_exps_ends(s: Seq<u8>, found: Seq<Tree>)
    ensures
        ends(more_exps(s, found).0, s),
    decreases s.len(), rank(0) + 6,
{
    broadcast use lemma_ends_of_ends;

    assert(s.skip(0) =~= s);
    lemma_comma_ends(s);
    match comma(s) {
        Ok((rest, _)) => {
            if rest.len() < s.len() {
                lemma_exp_ends(rest);
                match exp(rest) {
                    Ok((rest, node)) => {
                        if rest.len() < s.len() {
                            lemma_more_exps_ends(rest, found.push(node));
                        }
                    },
                    Err(_) => {},
                }
            }
        },
        Err(_) => {},
    }
}

/// A list of expressions is read from the front, and is not empty.
pub proof fn lemma_explist_ends(s: Seq<u8>)
    ensures
        leaves_less(explist(s), s),
    decreases s.len(), rank(0) + 7,
{
    broadcast use lemma_ends_of_ends;

    lemma_exp_ends(s);
    match exp(s) {
        Ok((rest, first)) => {
            if rest.len() <= s.len() {
                lemma_more_exps_ends(rest, seq![first]);
            }
        },
        Err(_) => {},
    }
}

/// A field with a key is read from the front.
pub proof fn lemma_keyed_field_ends(s: Seq<u8>)
    ensures
        leaves_less(keyed_field(s), s),
        leaves_less(named_field(s), s),
        leaves_less(single_field(s), s),
    decreases s.len(), rank(0) + 6,
{
    broadcast use lemma_ends_of_ends;

    lemma_exp_ends(s);
    lemma_token_ends(s, "["@);
    match token(s, "["@) {
        Ok((rest, _)) => {
            lemma_exp_ends(rest);
            match exp(rest) {
                Ok((rest, _)) => {
                    lemma_token_ends(rest, "]"@);
                    match tag(rest, "]"@) {
                        Ok((rest, _)) => {
                            lemma_space_ends(rest);
                            lemma_token_ends(skip_space(rest), "="@);
                            match tag(skip_space(rest), "="@) {
                                Ok((rest, _)) => {
                                    if rest.len() < s.len() {
                                        lemma_exp_ends(rest);
                                    }
                                },
                                Err(_) => {},
                            }
                        },
                        Err(_) => {},
                    }
                },
                Err(_) => {},
            }
        },
        Err(_) => {},
    }
    lemma_name_ends(s);
    match name(s) {
        Ok((rest, _)) => {
            lemma_space_ends(rest);
            lemma_token_ends(skip_space(rest), "="@);
            match tag(skip_space(rest), "="@) {
                Ok((rest, _)) => {
                    if rest.len() < s.len() {
                        lemma_exp_ends(rest);
                    }
                },
                Err(_) => {},
            }
        },
        Err(_) => {},
    }
}

/// A field is read from the front, and is not empty.
pub proof fn lemma_field_ends(s: Seq<u8>)
    ensures
        leaves_less(field(s), s),
    decreases s.len(), rank(0) + 7,
{
    broadcast use lemma_ends_of_ends;

    let t = skip_space(s);
    lemma_space_ends(s);
    lemma_keyed_field_ends(t);
    match either(either(keyed_field(t), named_field(t)), single_field(t)) {
        Ok((rest, _)) => {
            lemma_space_ends(rest);
        },
        Err(_) => {},
    }
}

/// The fields of a list are read from the front.
pub proof fn lemma_more_fields_ends(s: Seq<u8>, found: Seq<Tree>)
    ensures
        ends(more_fields(s, found).0, s),
    decreases s.len(), rank(0) + 8,
{
    broadcast use lemma_ends_of_ends;

    assert(s.skip(0) =~= s);
    lemma_token_ends(s, ","@);
    lemma_token_ends(s, ";"@);
    match fieldsep(s) {
        Ok((rest, _)) => {
            lemma_field_ends(rest);
            match field(rest) {
                Ok((rest, node)) => {
                    if rest.len() < s.len() {
                        lemma_more_fields_ends(rest, found.push(node));
                    }
                },
                Err(_) => {},
            }
        },
        Err(_) => {},
    }
}

/// A list of fields is read from the front, and is not empty.
pub proof fn lemma_fieldlist_ends(s: Seq<u8>)
    ensures
        leaves_less(fieldlist(s), s),
    decreases s.len(), rank(0) + 9,
{
    broadcast use lemma_ends_of_ends;

    lemma_field_ends(s);
    match field(s) {
        Ok((rest, first)) => {
            if rest.len() <= s.len() {
                lemma_more_fields_ends(rest, seq![first]);
            }
        },
        Err(_) => {},
    }
}

/// A table constructor is read from the front.
pub proof fn lemma_tableconstructor_ends(s: Seq<u8>)
    ensures
        leaves_less(tableconstructor(s), s),
    decreases s.len(), 2int,
{
    broadcast use lemma_ends_of_ends;

    lemma_token_ends(s, "{"@);
    match token(s, "{"@) {
        Ok((rest, _)) => {
            let t = skip_space(rest);
            lemma_space_ends(rest);
            lemma_fieldlist_ends(t);
            lemma_token_ends(t, "}"@);
            match fieldlist(t) {
                Ok((rest, _)) => {
                    lemma_space_ends(rest);
                    lemma_token_ends(skip_space(rest), "}"@);
                },
                Err(_) => {},
            }
        },
        Err(_) => {},
    }
}

/// A return statement is read from the front.
pub proof fn lemma_retstat_ends(s: Seq<u8>)
    ensures
        leaves_less(retstat(s), s),
    decreases s.len(), rank(0) + 8,
{
    broadcast use lemma_ends_of_ends;

    lemma_token_ends(s, "return"@);
    match word(s, "return"@) {
        Ok((rest, _)) => {
            let t = skip_space(rest);
            lemma_space_ends(rest);
            lemma_explist_ends(t);
            let after = match explist(t) {
                Ok((rest, _)) => skip_space(rest),
                Err(_) => t,
            };
            match explist(t) {
                Ok((rest, _)) => {
                    lemma_space_ends(rest);
                },
                Err(_) => {},
            }
            lemma_token_ends(after, ";"@);
        },
        Err(_) => {},
    }
}

/// A block is read from the front.
pub proof fn lemma_block_ends(s: Seq<u8>)
    ensures
        leaves(block(s), s),
    decreases s.len(), rank(0) + 9,
{
    broadcast use lemma_ends_of_ends;

    assert(s.skip(0) =~= s);
    let (rest, _) = statements(s, Seq::empty());
    lemma_statements_ends(s, Seq::empty());
    lemma_space_ends(rest);
    lemma_retstat_ends(skip_space(rest));
    match retstat(skip_space(rest)) {
        Ok((after, _)) => {
            lemma_space_ends(after);
        },
        Err(_) => {},
    }
}

/// A function body is read from the front.
pub proof fn lemma_funcbody_ends(s: Seq<u8>)
    ensures
        leaves_less(funcbody(s), s),
    decreases s.len(), 1int,
{
    broadcast use lemma_ends_of_ends;

    lemma_token_ends(s, "("@);
    match token(s, "("@) {
        Ok((rest, _)) => {
            lemma_space_ends(rest);
            lemma_parlist_ends(skip_space(rest));
            match parlist(skip_space(rest)) {
                Ok((rest, _)) => {
                    lemma_space_ends(rest);
                    lemma_token_ends(skip_space(rest), ")"@);
                    match tag(skip_space(rest), ")"@) {
                        Ok((rest, _)) => {
                            if rest.len() < s.len() {
                                lemma_space_ends(rest);
                                lemma_block_ends(skip_space(rest));
                                match block(skip_space(rest)) {
                                    Ok((after, _)) => {
                                        lemma_space_ends(after);
                                        lemma_token_ends(skip_space(after), "end"@);
                                    },
                                    Err(_) => {},
                                }
                            }
                        },
                        Err(_) => {},
                    }
                },
                Err(_) => {},
            }
        },
        Err(_) => {},
    }
}

/// A function is read from the front.
pub proof fn lemma_functiondef_ends(s: Seq<u8>)
    ensures
        leaves_less(functiondef(s), s),
    decreases s.len(), 2int,
{
    broadcast use lemma_ends_of_ends;

    lemma_token_ends(s, "function"@);
    match word(s, "function"@) {
        Ok((rest, _)) => {
            lemma_space_ends(rest);
            lemma_funcbody_ends(skip_space(rest));
            match funcbody(skip_space(rest)) {
                Ok((rest, _)) => {
                    lemma_space_ends(rest);
                },
                Err(_) => {},
            }
        },
        Err(_) => {},
    }
}

/// What a parser leaves is the end of what it was given; an expression, a
/// numeral, a string, a name and the lists of these are not empty.
pub proof fn law_rules_read_from_the_front(s: Seq<u8>)
    ensures
        leaves_less(exp(s), s),
        leaves_less(number(s), s),
        leaves_less(string(s), s),
        leaves_less(name(s), s),
        leaves_less(label(s), s),
        leaves_less(namelist(s), s),
        leaves_less(explist(s), s),
        leaves_less(var(s), s),
        leaves_less(prefixexp(s), s),
        leaves_less(field(s), s),
        leaves_less(fieldlist(s), s),
        leaves_less(tableconstructor(s), s),
        leaves_less(functiondef(s), s),
        leaves_less(funcbody(s), s),
        leaves_less(retstat(s), s),
        leaves(statement(s), s),
        leaves(block(s), s),
        leaves(parlist(s), s),
{
    lemma_exp_ends(s);
    lemma_number_ends(s);
    lemma_string_ends(s);
    lemma_name_ends(s);
    lemma_label_ends(s);
    lemma_namelist_ends(s);
    lemma_explist_ends(s);
    lemma_var_ends(s);
    lemma_prefixexp_ends(s);
    lemma_field_ends(s);
    lemma_fieldlist_ends(s);
    lemma_tableconstructor_ends(s);
    lemma_functiondef_ends(s);
    lemma_funcbody_ends(s);
    lemma_retstat_ends(s);
    lemma_statement_ends(s);
    lemma_block_ends(s);
    lemma_parlist_ends(s);
}

} // verus!
