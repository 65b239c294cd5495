//! Single steps of reading an expression, stated over names that keep the
//! rules of the grammar out of sight: what is read at a level, what operator
//! follows, how operators fold. Proofs about whole texts are built from these
//! steps alone.
use crate::ast::{binary, unary, BinOp, Tree, UnOp};
use crate::error::{Outcome, ParseFailure};
use crate::grammar::{
    atom, boolean, exp, factor, functiondef, level, levels, nil, numeral, operand, operation, pair,
    paren, parenthesised, prefixed, prefixexp, tableconstructor, tail, unary_operator, var, vararg,
};
use crate::lexical::{
    agrees, is_word_byte, keyword, lemma_run_len, lemma_run_len_unique, run_len, skip_space, tag,
    token, word, Class,
};
use crate::name::{name, valid_name};
use crate::number::{
    decimal_float, decimal_int, exponent_len, float_len, hex_float, hex_int, hex_prefix, number,
    value_of, Numeral,
};
use crate::render::{digit_char, digits};
use crate::string::string;
use vstd::prelude::*;

verus! {

/// The characters as bytes, one for one.
pub open spec fn written(text: Seq<char>) -> Seq<u8> {
    Seq::new(text.len(), |i: int| text[i] as u8)
}

/// Whether every character is an ASCII character.
pub open spec fn is_ascii(text: Seq<char>) -> bool {
    forall|i: int| 0 <= i < text.len() ==> 0 <= (#[trigger] text[i]) as int <= 127
}

/// Two texts of ASCII characters, joined, are a text of ASCII characters.
pub proof fn lemma_ascii_add(a: Seq<char>, b: Seq<char>)
    requires
        is_ascii(a),
        is_ascii(b),
    ensures
        is_ascii(a + b),
{
    assert forall|i: int| 0 <= i < (a + b).len() implies 0 <= (#[trigger] (a + b)[i]) as int
        <= 127 by {
        if i < a.len() {
            assert((a + b)[i] == a[i]);
        } else {
            assert((a + b)[i] == b[i - a.len()]);
        }
    }
}

/// The bytes of two texts, one after the other, are the bytes of the texts
/// joined.
pub proof fn lemma_written_add(a: Seq<char>, b: Seq<char>)
    ensures
        written(a + b) == written(a) + written(b),
{
    assert(written(a + b) =~= written(a) + written(b));
}

/// What is left after the white space before `s` where a space is put before
/// `s`.
pub proof fn lemma_skip_space_more(s: Seq<u8>)
    ensures
        skip_space(seq![0x20u8] + s) == skip_space(s),
{
    let t = seq![0x20u8] + s;
    assert(t.skip(1) =~= s);
    lemma_run_len(s, Class::Space);
    assert(t.skip(1 + run_len(s, Class::Space) as int) =~= s.skip(run_len(s, Class::Space) as int));
}

/// Where `s` begins with no white space, none is skipped.
pub proof fn lemma_skip_space_none(s: Seq<u8>)
    requires
        s.len() == 0 || !Class::Space.has(s[0]),
    ensures
        skip_space(s) == s,
{
    assert(s.skip(0) =~= s);
}

/// A text of ASCII characters, written, begins with itself as a tag.
pub proof fn lemma_tag_found(text: Seq<char>, rest: Seq<u8>)
    requires
        is_ascii(text),
    ensures
        tag(written(text) + rest, text) == Ok::<_, ParseFailure>((rest, ())),
        text.len() > 0 ==> token(written(text) + rest, text) == Ok::<_, ParseFailure>((rest, ())),
        text.len() > 0 && (rest.len() == 0 || !is_word_byte(rest[0])) ==> word(
            written(text) + rest,
            text,
        ) == Ok::<_, ParseFailure>((rest, ())),
{
    let s = written(text) + rest;
    assert forall|i: int| 0 <= i < text.len() implies s[i] as char == #[trigger] text[i] by {
        let c = text[i];
        assert(0 <= c as int <= 127);
        assert(s[i] == c as u8);
    }
    assert(agrees(s, text, text.len() as int));
    assert(s.skip(text.len() as int) =~= rest);
}

/// Input whose first byte is not the first character of a text does not begin
/// with the text.
pub proof fn lemma_tag_missed(s: Seq<u8>, text: Seq<char>)
    requires
        text.len() > 0,
        s.len() == 0 || s[0] as char != text[0],
    ensures
        tag(s, text) is Err,
        token(s, text) is Err,
        keyword(s, text) is Err,
        word(s, text) is Err,
{
    if s.len() > 0 {
        assert(!agrees(s, text, text.len() as int)) by {
            if agrees(s, text, text.len() as int) {
                assert(s[0] as char == text[0]);
            }
        }
    }
}

/// Input whose second byte is not the second character of a text does not
/// begin with the text.
pub proof fn lemma_tag_missed_second(s: Seq<u8>, text: Seq<char>)
    requires
        text.len() > 1,
        s.len() > 1,
        s[1] as char != text[1],
    ensures
        tag(s, text) is Err,
        token(s, text) is Err,
        keyword(s, text) is Err,
        word(s, text) is Err,
{
    assert(!agrees(s, text, text.len() as int)) by {
        if agrees(s, text, text.len() as int) {
            assert(s[1] as char == text[1]);
        }
    }
}

/// What the operators are made of.
pub proof fn lemma_tokens()
    ensures
        "or"@.len() == 2,
        "or"@[0] == 'o',
        "or"@[1] == 'r',
        is_ascii("or"@),
        "and"@.len() == 3,
        "and"@[0] == 'a',
        "and"@[1] == 'n',
        "and"@[2] == 'd',
        is_ascii("and"@),
        "<"@.len() == 1,
        "<"@[0] == '<',
        is_ascii("<"@),
        "<="@.len() == 2,
        "<="@[0] == '<',
        "<="@[1] == '=',
        is_ascii("<="@),
        ">"@.len() == 1,
        ">"@[0] == '>',
        is_ascii(">"@),
        ">="@.len() == 2,
        ">="@[0] == '>',
        ">="@[1] == '=',
        is_ascii(">="@),
        "=="@.len() == 2,
        "=="@[0] == '=',
        "=="@[1] == '=',
        is_ascii("=="@),
        "~="@.len() == 2,
        "~="@[0] == '~',
        "~="@[1] == '=',
        is_ascii("~="@),
        "|"@.len() == 1,
        "|"@[0] == '|',
        is_ascii("|"@),
        "~"@.len() == 1,
        "~"@[0] == '~',
        is_ascii("~"@),
        "&"@.len() == 1,
        "&"@[0] == '&',
        is_ascii("&"@),
        "<<"@.len() == 2,
        "<<"@[0] == '<',
        "<<"@[1] == '<',
        is_ascii("<<"@),
        ">>"@.len() == 2,
        ">>"@[0] == '>',
        ">>"@[1] == '>',
        is_ascii(">>"@),
        ".."@.len() == 2,
        ".."@[0] == '.',
        ".."@[1] == '.',
        is_ascii(".."@),
        "+"@.len() == 1,
        "+"@[0] == '+',
        is_ascii("+"@),
        "-"@.len() == 1,
        "-"@[0] == '-',
        is_ascii("-"@),
        "*"@.len() == 1,
        "*"@[0] == '*',
        is_ascii("*"@),
        "//"@.len() == 2,
        "//"@[0] == '/',
        "//"@[1] == '/',
        is_ascii("//"@),
        "%"@.len() == 1,
        "%"@[0] == '%',
        is_ascii("%"@),
        "/"@.len() == 1,
        "/"@[0] == '/',
        is_ascii("/"@),
        "^"@.len() == 1,
        "^"@[0] == '^',
        is_ascii("^"@),
        "not"@.len() == 3,
        "not"@[0] == 'n',
        "not"@[1] == 'o',
        "not"@[2] == 't',
        is_ascii("not"@),
        "#"@.len() == 1,
        "#"@[0] == '#',
        is_ascii("#"@),
{
    reveal_strlit("or");
    reveal_strlit("and");
    reveal_strlit("<");
    reveal_strlit("<=");
    reveal_strlit(">");
    reveal_strlit(">=");
    reveal_strlit("==");
    reveal_strlit("~=");
    reveal_strlit("|");
    reveal_strlit("~");
    reveal_strlit("&");
    reveal_strlit("<<");
    reveal_strlit(">>");
    reveal_strlit("..");
    reveal_strlit("+");
    reveal_strlit("-");
    reveal_strlit("*");
    reveal_strlit("//");
    reveal_strlit("%");
    reveal_strlit("/");
    reveal_strlit("^");
    reveal_strlit("not");
    reveal_strlit("#");
}

/// Whether `b` is the first byte of a binary operator.
pub open spec fn opens_operator(b: u8) -> bool {
    b == 0x6F || b == 0x61 || b == 0x3C || b == 0x3E || b == 0x3D || b == 0x7E || b == 0x7C || b
        == 0x26 || b == 0x2E || b == 0x2B || b == 0x2D || b == 0x2A || b == 0x2F || b == 0x25 || b
        == 0x5E
}

/// Whether `s` is empty or begins with a byte that begins no binary operator.
pub open spec fn closed(s: Seq<u8>) -> bool {
    s.len() == 0 || !opens_operator(s[0])
}

/// Where no binary operator can begin, no operator and operand are found at
/// any level.
pub proof fn lemma_closed(s: Seq<u8>)
    requires
        closed(s),
    ensures
        forall|j: int| (#[trigger] pair(j, s)) is None,
{
    lemma_tokens();
    lemma_tag_missed(s, "or"@);
    lemma_tag_missed(s, "and"@);
    lemma_tag_missed(s, "<"@);
    lemma_tag_missed(s, "<="@);
    lemma_tag_missed(s, ">"@);
    lemma_tag_missed(s, ">="@);
    lemma_tag_missed(s, "=="@);
    lemma_tag_missed(s, "~="@);
    lemma_tag_missed(s, "|"@);
    lemma_tag_missed(s, "~"@);
    lemma_tag_missed(s, "&"@);
    lemma_tag_missed(s, "<<"@);
    lemma_tag_missed(s, ">>"@);
    lemma_tag_missed(s, ".."@);
    lemma_tag_missed(s, "+"@);
    lemma_tag_missed(s, "-"@);
    lemma_tag_missed(s, "*"@);
    lemma_tag_missed(s, "//"@);
    lemma_tag_missed(s, "%"@);
    lemma_tag_missed(s, "/"@);
    lemma_tag_missed(s, "^"@);
    assert forall|j: int| (#[trigger] pair(j, s)) is None by {
        assert(operation(j, s, "or"@, true, BinOp::Or) is None);
        assert(operation(j, s, "and"@, true, BinOp::And) is None);
        assert(operation(j, s, "<"@, false, BinOp::Lt) is None);
        assert(operation(j, s, "<="@, false, BinOp::Le) is None);
        assert(operation(j, s, ">"@, false, BinOp::Gt) is None);
        assert(operation(j, s, ">="@, false, BinOp::Ge) is None);
        assert(operation(j, s, "=="@, false, BinOp::Eq) is None);
        assert(operation(j, s, "~="@, false, BinOp::Ne) is None);
        assert(operation(j, s, "|"@, false, BinOp::BitOr) is None);
        assert(operation(j, s, "~"@, false, BinOp::BitXor) is None);
        assert(operation(j, s, "&"@, false, BinOp::BitAnd) is None);
        assert(operation(j, s, "<<"@, false, BinOp::Lsh) is None);
        assert(operation(j, s, ">>"@, false, BinOp::Rsh) is None);
        assert(operation(j, s, ".."@, false, BinOp::Concat) is None);
        assert(operation(j, s, "+"@, false, BinOp::Add) is None);
        assert(operation(j, s, "-"@, false, BinOp::Sub) is None);
        assert(operation(j, s, "*"@, false, BinOp::Mul) is None);
        assert(operation(j, s, "//"@, false, BinOp::FDiv) is None);
        assert(operation(j, s, "%"@, false, BinOp::Mod) is None);
        assert(operation(j, s, "/"@, false, BinOp::Div) is None);
        assert(operation(j, s, "^"@, false, BinOp::Exp) is None);
    }
}

/// An expression of any level, and a factor under the number of levels.
pub open spec fn rung(k: int, s: Seq<u8>) -> Outcome<Tree> {
    if k == levels() {
        factor(s)
    } else {
        level(k, s)
    }
}

/// Whether `s` begins with a byte that begins no unary operator.
pub open spec fn opens_no_unary(s: Seq<u8>) -> bool {
    &&& s.len() > 0
    &&& s[0] != 0x23
    &&& s[0] != 0x2D
    &&& s[0] != 0x7E
    &&& (s[0] == 0x6E ==> s.len() > 1 && s[1] != 0x6F)
}

/// Where no unary operator can begin, none is found.
pub proof fn lemma_no_unary(s: Seq<u8>)
    requires
        opens_no_unary(s),
    ensures
        unary_operator(s) is Err,
{
    lemma_tokens();
    lemma_tag_missed(s, "#"@);
    lemma_tag_missed(s, "-"@);
    lemma_tag_missed(s, "~"@);
    if s[0] == 0x6E {
        lemma_tag_missed_second(s, "not"@);
    } else {
        lemma_tag_missed(s, "not"@);
    }
}

/// Input that begins with neither a digit nor a point begins with no numeral.
pub proof fn lemma_miss_numeral(s: Seq<u8>)
    requires
        s.len() > 0,
        !Class::Digit.has(s[0]),
        s[0] != 0x2E,
    ensures
        numeral(s) is Err,
{
    assert(run_len(s, Class::Digit) == 0);
    assert(hex_float(s) is Err);
    assert(hex_int(s) is Err);
    assert(decimal_float(s) is Err);
    assert(decimal_int(s) is Err);
    assert(number(s) is Err);
}

/// Input that does not begin with `(` begins with nothing in parentheses.
pub proof fn lemma_miss_paren(s: Seq<u8>)
    requires
        s.len() > 0,
        s[0] != 0x28,
    ensures
        parenthesised(s) is Err,
        paren(s) is Err,
{
    reveal_strlit("(");
    lemma_tag_missed(s, "("@);
}

/// Input that does not begin with `n` does not begin with `nil`.
pub proof fn lemma_miss_nil(s: Seq<u8>)
    requires
        s.len() > 0,
        s[0] != 0x6E,
    ensures
        nil(s) is Err,
{
    reveal_strlit("nil");
    lemma_tag_missed(s, "nil"@);
}

/// Input that begins with neither `f` nor `t` begins with neither `false`
/// nor `true`.
pub proof fn lemma_miss_boolean(s: Seq<u8>)
    requires
        s.len() > 0,
        s[0] != 0x66,
        s[0] != 0x74,
    ensures
        boolean(s) is Err,
{
    reveal_strlit("false");
    reveal_strlit("true");
    lemma_tag_missed(s, "false"@);
    lemma_tag_missed(s, "true"@);
}

/// Input that begins with no quote begins with no string.
pub proof fn lemma_miss_string(s: Seq<u8>)
    requires
        s.len() > 0,
        s[0] != 0x22,
        s[0] != 0x27,
    ensures
        string(s) is Err,
{
}

/// Input that does not begin with a point does not begin with `...`.
pub proof fn lemma_miss_vararg(s: Seq<u8>)
    requires
        s.len() > 0,
        s[0] != 0x2E,
    ensures
        vararg(s) is Err,
{
    reveal_strlit("...");
    lemma_tag_missed(s, "..."@);
}

/// Input that does not begin with `f` begins with no function.
pub proof fn lemma_miss_function(s: Seq<u8>)
    requires
        s.len() > 0,
        s[0] != 0x66,
    ensures
        functiondef(s) is Err,
{
    reveal_strlit("function");
    lemma_tag_missed(s, "function"@);
}

/// Input that begins with neither a letter, `_` nor `(` begins with no prefix
/// expression.
pub proof fn lemma_miss_prefixexp(s: Seq<u8>)
    requires
        s.len() > 0,
        !Class::Alpha.has(s[0]),
        s[0] != 0x5F,
        s[0] != 0x28,
    ensures
        prefixexp(s) is Err,
{
    lemma_miss_paren(s);
    assert(valid_name(s) is Err);
    assert(name(s) is Err);
    assert(var(s) is Err);
}

/// Input that does not begin with `{` begins with no table constructor.
pub proof fn lemma_miss_table(s: Seq<u8>)
    requires
        s.len() > 0,
        s[0] != 0x7B,
    ensures
        tableconstructor(s) is Err,
{
    reveal_strlit("{");
    lemma_tag_missed(s, "{"@);
}

/// Input that begins with `=` begins with no atom.
pub proof fn lemma_no_atom(s: Seq<u8>)
    requires
        s.len() > 0,
        s[0] == 0x3D,
    ensures
        atom(s) is Err,
        factor(s) is Err,
{
    lemma_skip_space_none(s);
    lemma_miss_numeral(s);
    lemma_miss_paren(s);
    lemma_miss_nil(s);
    lemma_miss_boolean(s);
    lemma_miss_string(s);
    lemma_miss_vararg(s);
    lemma_miss_function(s);
    lemma_miss_prefixexp(s);
    lemma_miss_table(s);
}

/// Input that begins with `=` begins with no expression of any level.
pub proof fn lemma_no_operand(k: int, s: Seq<u8>)
    requires
        0 <= k <= levels(),
        s.len() > 0,
        s[0] == 0x3D,
    ensures
        rung(k, s) is Err,
        k < levels() ==> operand(k, s) is Err,
    decreases levels() - k,
{
    lemma_no_atom(s);
    if k < levels() {
        lemma_no_operand(k + 1, s);
        if k == 10 {
            lemma_skip_space_none(s);
            lemma_no_unary(s);
        }
    }
}

/// A space before an expression does not change what is read.
pub proof fn lemma_leading_space(k: int, s: Seq<u8>)
    requires
        0 <= k <= levels(),
        rung(k, s) is Ok,
    ensures
        rung(k, seq![0x20u8] + s) == rung(k, s),
    decreases levels() - k,
{
    lemma_skip_space_more(s);
    if k < levels() {
        if k == 10 {
            if unary_operator(skip_space(s)) is Err {
                lemma_leading_space(k + 1, s);
            }
        } else {
            assert(operand(k, s) == rung(k + 1, s));
            assert(operand(k, seq![0x20u8] + s) == rung(k + 1, seq![0x20u8] + s));
            lemma_leading_space(k + 1, s);
        }
    }
}

/// An expression of a tighter level that is followed by no operator of the
/// levels from `to` up to its own is the expression of level `to` as well.
pub proof fn lemma_lift(from: int, to: int, s: Seq<u8>, rest: Seq<u8>, value: Tree)
    requires
        0 <= to <= from <= levels(),
        rung(from, s) == Ok::<_, ParseFailure>((rest, value)),
        rest.len() <= s.len(),
        forall|j: int| to <= j < from ==> (#[trigger] pair(j, rest)) is None,
        to <= 10 < from ==> unary_operator(skip_space(s)) is Err,
    ensures
        rung(to, s) == Ok::<_, ParseFailure>((rest, value)),
    decreases from - to,
{
    if to < from {
        lemma_lift(from, to + 1, s, rest, value);
        assert(operand(to, s) == rung(to + 1, s));
        if to != 10 {
            assert(pair(to, rest) is None);
            assert(tail(to, rest, value) == (rest, value));
        }
    }
}

/// The level of a binary operator.
pub open spec fn level_of(op: BinOp) -> int {
    match op {
        BinOp::Or => 0,
        BinOp::And => 1,
        BinOp::Lt => 2,
        BinOp::Le => 2,
        BinOp::Gt => 2,
        BinOp::Ge => 2,
        BinOp::Eq => 2,
        BinOp::Ne => 2,
        BinOp::BitOr => 3,
        BinOp::BitXor => 4,
        BinOp::BitAnd => 5,
        BinOp::Lsh => 6,
        BinOp::Rsh => 6,
        BinOp::Concat => 7,
        BinOp::Add => 8,
        BinOp::Sub => 8,
        BinOp::Mul => 9,
        BinOp::FDiv => 9,
        BinOp::Mod => 9,
        BinOp::Div => 9,
        BinOp::Exp => 11,
    }
}

/// Whether a binary operator is a reserved word.
pub open spec fn is_reserved(op: BinOp) -> bool {
    op == BinOp::And || op == BinOp::Or
}

/// What is read where `s` begins with the operator `op`: no operator of a
/// tighter level, and at the level of `op` no operator before it.
pub open spec fn begins_with(s: Seq<u8>, op: BinOp, rest: Seq<u8>) -> bool {
    &&& forall|j: int| level_of(op) < j ==> (#[trigger] pair(j, s)) is None
    &&& operation(level_of(op), s, op.text(), is_reserved(op), op) is Some ==> pair(
        level_of(op),
        s,
    ) == operation(level_of(op), s, op.text(), is_reserved(op), op)
    &&& (if is_reserved(op) {
        word(s, op.text())
    } else {
        token(s, op.text())
    }) == Ok::<_, ParseFailure>((rest, ()))
    &&& s.len() > rest.len()
    &&& !Class::Space.has(s[0])
}

/// The operator `or`, written with a space after it.
proof fn lemma_operator_or(x: Seq<u8>)
    ensures
        begins_with(written("or"@) + (seq![0x20u8] + x), BinOp::Or, seq![0x20u8] + x),
{
    lemma_tokens();
    let rest = seq![0x20u8] + x;
    let s = written("or"@) + rest;
    assert(s[0] == 0x6Fu8);
    assert(s[1] == 0x72u8);
    assert(s[2] == 0x20u8);
    lemma_tag_found("or"@, rest);
    lemma_tag_missed(s, "and"@);
    lemma_tag_missed(s, "<"@);
    lemma_tag_missed(s, "<="@);
    lemma_tag_missed(s, ">"@);
    lemma_tag_missed(s, ">="@);
    lemma_tag_missed(s, "=="@);
    lemma_tag_missed(s, "~="@);
    lemma_tag_missed(s, "|"@);
    lemma_tag_missed(s, "~"@);
    lemma_tag_missed(s, "&"@);
    lemma_tag_missed(s, "<<"@);
    lemma_tag_missed(s, ">>"@);
    lemma_tag_missed(s, ".."@);
    lemma_tag_missed(s, "+"@);
    lemma_tag_missed(s, "-"@);
    lemma_tag_missed(s, "*"@);
    lemma_tag_missed(s, "//"@);
    lemma_tag_missed(s, "%"@);
    lemma_tag_missed(s, "/"@);
    lemma_tag_missed(s, "^"@);
    assert forall|j: int| 0 < j implies (#[trigger] pair(j, s)) is None by {
        assert(operation(j, s, "and"@, true, BinOp::And) is None);
        assert(operation(j, s, "<"@, false, BinOp::Lt) is None);
        assert(operation(j, s, "<="@, false, BinOp::Le) is None);
        assert(operation(j, s, ">"@, false, BinOp::Gt) is None);
        assert(operation(j, s, ">="@, false, BinOp::Ge) is None);
        assert(operation(j, s, "=="@, false, BinOp::Eq) is None);
        assert(operation(j, s, "~="@, false, BinOp::Ne) is None);
        assert(operation(j, s, "|"@, false, BinOp::BitOr) is None);
        assert(operation(j, s, "~"@, false, BinOp::BitXor) is None);
        assert(operation(j, s, "&"@, false, BinOp::BitAnd) is None);
        assert(operation(j, s, "<<"@, false, BinOp::Lsh) is None);
        assert(operation(j, s, ">>"@, false, BinOp::Rsh) is None);
        assert(operation(j, s, ".."@, false, BinOp::Concat) is None);
        assert(operation(j, s, "+"@, false, BinOp::Add) is None);
        assert(operation(j, s, "-"@, false, BinOp::Sub) is None);
        assert(operation(j, s, "*"@, false, BinOp::Mul) is None);
        assert(operation(j, s, "//"@, false, BinOp::FDiv) is None);
        assert(operation(j, s, "%"@, false, BinOp::Mod) is None);
        assert(operation(j, s, "/"@, false, BinOp::Div) is None);
        assert(operation(j, s, "^"@, false, BinOp::Exp) is None);
    }
}

/// The operator `and`, written with a space after it.
proof fn lemma_operator_and(x: Seq<u8>)
    ensures
        begins_with(written("and"@) + (seq![0x20u8] + x), BinOp::And, seq![0x20u8] + x),
{
    lemma_tokens();
    let rest = seq![0x20u8] + x;
    let s = written("and"@) + rest;
    assert(s[0] == 0x61u8);
    assert(s[1] == 0x6Eu8);
    assert(s[2] == 0x64u8);
    assert(s[3] == 0x20u8);
    lemma_tag_found("and"@, rest);
    lemma_tag_missed(s, "or"@);
    lemma_tag_missed(s, "<"@);
    lemma_tag_missed(s, "<="@);
    lemma_tag_missed(s, ">"@);
    lemma_tag_missed(s, ">="@);
    lemma_tag_missed(s, "=="@);
    lemma_tag_missed(s, "~="@);
    lemma_tag_missed(s, "|"@);
    lemma_tag_missed(s, "~"@);
    lemma_tag_missed(s, "&"@);
    lemma_tag_missed(s, "<<"@);
    lemma_tag_missed(s, ">>"@);
    lemma_tag_missed(s, ".."@);
    lemma_tag_missed(s, "+"@);
    lemma_tag_missed(s, "-"@);
    lemma_tag_missed(s, "*"@);
    lemma_tag_missed(s, "//"@);
    lemma_tag_missed(s, "%"@);
    lemma_tag_missed(s, "/"@);
    lemma_tag_missed(s, "^"@);
    assert forall|j: int| 1 < j implies (#[trigger] pair(j, s)) is None by {
        assert(operation(j, s, "<"@, false, BinOp::Lt) is None);
        assert(operation(j, s, "<="@, false, BinOp::Le) is None);
        assert(operation(j, s, ">"@, false, BinOp::Gt) is None);
        assert(operation(j, s, ">="@, false, BinOp::Ge) is None);
        assert(operation(j, s, "=="@, false, BinOp::Eq) is None);
        assert(operation(j, s, "~="@, false, BinOp::Ne) is None);
        assert(operation(j, s, "|"@, false, BinOp::BitOr) is None);
        assert(operation(j, s, "~"@, false, BinOp::BitXor) is None);
        assert(operation(j, s, "&"@, false, BinOp::BitAnd) is None);
        assert(operation(j, s, "<<"@, false, BinOp::Lsh) is None);
        assert(operation(j, s, ">>"@, false, BinOp::Rsh) is None);
        assert(operation(j, s, ".."@, false, BinOp::Concat) is None);
        assert(operation(j, s, "+"@, false, BinOp::Add) is None);
        assert(operation(j, s, "-"@, false, BinOp::Sub) is None);
        assert(operation(j, s, "*"@, false, BinOp::Mul) is None);
        assert(operation(j, s, "//"@, false, BinOp::FDiv) is None);
        assert(operation(j, s, "%"@, false, BinOp::Mod) is None);
        assert(operation(j, s, "/"@, false, BinOp::Div) is None);
        assert(operation(j, s, "^"@, false, BinOp::Exp) is None);
    }
}

/// The operator `<`, written with a space after it.
proof fn lemma_operator_lt(x: Seq<u8>)
    ensures
        begins_with(written("<"@) + (seq![0x20u8] + x), BinOp::Lt, seq![0x20u8] + x),
{
    lemma_tokens();
    let rest = seq![0x20u8] + x;
    let s = written("<"@) + rest;
    assert(s[0] == 0x3Cu8);
    assert(s[1] == 0x20u8);
    lemma_tag_found("<"@, rest);
    lemma_tag_missed(s, "or"@);
    lemma_tag_missed(s, "and"@);
    lemma_tag_missed_second(s, "<="@);
    lemma_tag_missed(s, ">"@);
    lemma_tag_missed(s, ">="@);
    lemma_tag_missed(s, "=="@);
    lemma_tag_missed(s, "~="@);
    lemma_tag_missed(s, "|"@);
    lemma_tag_missed(s, "~"@);
    lemma_tag_missed(s, "&"@);
    lemma_tag_missed_second(s, "<<"@);
    lemma_tag_missed(s, ">>"@);
    lemma_tag_missed(s, ".."@);
    lemma_tag_missed(s, "+"@);
    lemma_tag_missed(s, "-"@);
    lemma_tag_missed(s, "*"@);
    lemma_tag_missed(s, "//"@);
    lemma_tag_missed(s, "%"@);
    lemma_tag_missed(s, "/"@);
    lemma_tag_missed(s, "^"@);
    assert forall|j: int| 2 < j implies (#[trigger] pair(j, s)) is None by {
        assert(operation(j, s, "|"@, false, BinOp::BitOr) is None);
        assert(operation(j, s, "~"@, false, BinOp::BitXor) is None);
        assert(operation(j, s, "&"@, false, BinOp::BitAnd) is None);
        assert(operation(j, s, "<<"@, false, BinOp::Lsh) is None);
        assert(operation(j, s, ">>"@, false, BinOp::Rsh) is None);
        assert(operation(j, s, ".."@, false, BinOp::Concat) is None);
        assert(operation(j, s, "+"@, false, BinOp::Add) is None);
        assert(operation(j, s, "-"@, false, BinOp::Sub) is None);
        assert(operation(j, s, "*"@, false, BinOp::Mul) is None);
        assert(operation(j, s, "//"@, false, BinOp::FDiv) is None);
        assert(operation(j, s, "%"@, false, BinOp::Mod) is None);
        assert(operation(j, s, "/"@, false, BinOp::Div) is None);
        assert(operation(j, s, "^"@, false, BinOp::Exp) is None);
    }
}

/// The operator `<=`, written with a space after it.
proof fn lemma_operator_le(x: Seq<u8>)
    ensures
        begins_with(written("<="@) + (seq![0x20u8] + x), BinOp::Le, seq![0x20u8] + x),
{
    lemma_tokens();
    let rest = seq![0x20u8] + x;
    let s = written("<="@) + rest;
    assert(s[0] == 0x3Cu8);
    assert(s[1] == 0x3Du8);
    assert(s[2] == 0x20u8);
    lemma_tag_found("<="@, rest);
    lemma_tag_missed(s, "or"@);
    lemma_tag_missed(s, "and"@);
    lemma_tag_missed(s, ">"@);
    lemma_tag_missed(s, ">="@);
    lemma_tag_missed(s, "=="@);
    lemma_tag_missed(s, "~="@);
    lemma_tag_missed(s, "|"@);
    lemma_tag_missed(s, "~"@);
    lemma_tag_missed(s, "&"@);
    lemma_tag_missed_second(s, "<<"@);
    lemma_tag_missed(s, ">>"@);
    lemma_tag_missed(s, ".."@);
    lemma_tag_missed(s, "+"@);
    lemma_tag_missed(s, "-"@);
    lemma_tag_missed(s, "*"@);
    lemma_tag_missed(s, "//"@);
    lemma_tag_missed(s, "%"@);
    lemma_tag_missed(s, "/"@);
    lemma_tag_missed(s, "^"@);
    assert(s.skip(1)[0] == 0x3Du8);
    assert(token(s, "<"@) == Ok::<_, ParseFailure>((s.skip(1), ()))) by {
        assert(agrees(s, "<"@, 1));
    }
    assert forall|j: int| 2 < j implies (#[trigger] pair(j, s)) is None by {
        if 0 <= j < levels() {
            lemma_no_operand(j, s.skip(1));
        }
        assert(operation(j, s, "|"@, false, BinOp::BitOr) is None);
        assert(operation(j, s, "~"@, false, BinOp::BitXor) is None);
        assert(operation(j, s, "&"@, false, BinOp::BitAnd) is None);
        assert(operation(j, s, "<<"@, false, BinOp::Lsh) is None);
        assert(operation(j, s, ">>"@, false, BinOp::Rsh) is None);
        assert(operation(j, s, ".."@, false, BinOp::Concat) is None);
        assert(operation(j, s, "+"@, false, BinOp::Add) is None);
        assert(operation(j, s, "-"@, false, BinOp::Sub) is None);
        assert(operation(j, s, "*"@, false, BinOp::Mul) is None);
        assert(operation(j, s, "//"@, false, BinOp::FDiv) is None);
        assert(operation(j, s, "%"@, false, BinOp::Mod) is None);
        assert(operation(j, s, "/"@, false, BinOp::Div) is None);
        assert(operation(j, s, "^"@, false, BinOp::Exp) is None);
    }
    lemma_no_operand(2, s.skip(1));
    assert(operation(2, s, "<"@, false, BinOp::Lt) is None);
}

/// The operator `>`, written with a space after it.
proof fn lemma_operator_gt(x: Seq<u8>)
    ensures
        begins_with(written(">"@) + (seq![0x20u8] + x), BinOp::Gt, seq![0x20u8] + x),
{
    lemma_tokens();
    let rest = seq![0x20u8] + x;
    let s = written(">"@) + rest;
    assert(s[0] == 0x3Eu8);
    assert(s[1] == 0x20u8);
    lemma_tag_found(">"@, rest);
    lemma_tag_missed(s, "or"@);
    lemma_tag_missed(s, "and"@);
    lemma_tag_missed(s, "<"@);
    lemma_tag_missed(s, "<="@);
    lemma_tag_missed_second(s, ">="@);
    lemma_tag_missed(s, "=="@);
    lemma_tag_missed(s, "~="@);
    lemma_tag_missed(s, "|"@);
    lemma_tag_missed(s, "~"@);
    lemma_tag_missed(s, "&"@);
    lemma_tag_missed(s, "<<"@);
    lemma_tag_missed_second(s, ">>"@);
    lemma_tag_missed(s, ".."@);
    lemma_tag_missed(s, "+"@);
    lemma_tag_missed(s, "-"@);
    lemma_tag_missed(s, "*"@);
    lemma_tag_missed(s, "//"@);
    lemma_tag_missed(s, "%"@);
    lemma_tag_missed(s, "/"@);
    lemma_tag_missed(s, "^"@);
    assert forall|j: int| 2 < j implies (#[trigger] pair(j, s)) is None by {
        assert(operation(j, s, "|"@, false, BinOp::BitOr) is None);
        assert(operation(j, s, "~"@, false, BinOp::BitXor) is None);
        assert(operation(j, s, "&"@, false, BinOp::BitAnd) is None);
        assert(operation(j, s, "<<"@, false, BinOp::Lsh) is None);
        assert(operation(j, s, ">>"@, false, BinOp::Rsh) is None);
        assert(operation(j, s, ".."@, false, BinOp::Concat) is None);
        assert(operation(j, s, "+"@, false, BinOp::Add) is None);
        assert(operation(j, s, "-"@, false, BinOp::Sub) is None);
        assert(operation(j, s, "*"@, false, BinOp::Mul) is None);
        assert(operation(j, s, "//"@, false, BinOp::FDiv) is None);
        assert(operation(j, s, "%"@, false, BinOp::Mod) is None);
        assert(operation(j, s, "/"@, false, BinOp::Div) is None);
        assert(operation(j, s, "^"@, false, BinOp::Exp) is None);
    }
    assert(operation(2, s, "<"@, false, BinOp::Lt) is None);
    assert(operation(2, s, "<="@, false, BinOp::Le) is None);
}

/// The operator `>=`, written with a space after it.
proof fn lemma_operator_ge(x: Seq<u8>)
    ensures
        begins_with(written(">="@) + (seq![0x20u8] + x), BinOp::Ge, seq![0x20u8] + x),
{
    lemma_tokens();
    let rest = seq![0x20u8] + x;
    let s = written(">="@) + rest;
    assert(s[0] == 0x3Eu8);
    assert(s[1] == 0x3Du8);
    assert(s[2] == 0x20u8);
    lemma_tag_found(">="@, rest);
    lemma_tag_missed(s, "or"@);
    lemma_tag_missed(s, "and"@);
    lemma_tag_missed(s, "<"@);
    lemma_tag_missed(s, "<="@);
    lemma_tag_missed(s, "=="@);
    lemma_tag_missed(s, "~="@);
    lemma_tag_missed(s, "|"@);
    lemma_tag_missed(s, "~"@);
    lemma_tag_missed(s, "&"@);
    lemma_tag_missed(s, "<<"@);
    lemma_tag_missed_second(s, ">>"@);
    lemma_tag_missed(s, ".."@);
    lemma_tag_missed(s, "+"@);
    lemma_tag_missed(s, "-"@);
    lemma_tag_missed(s, "*"@);
    lemma_tag_missed(s, "//"@);
    lemma_tag_missed(s, "%"@);
    lemma_tag_missed(s, "/"@);
    lemma_tag_missed(s, "^"@);
    assert(s.skip(1)[0] == 0x3Du8);
    assert(token(s, ">"@) == Ok::<_, ParseFailure>((s.skip(1), ()))) by {
        assert(agrees(s, ">"@, 1));
    }
    assert forall|j: int| 2 < j implies (#[trigger] pair(j, s)) is None by {
        if 0 <= j < levels() {
            lemma_no_operand(j, s.skip(1));
        }
        assert(operation(j, s, "|"@, false, BinOp::BitOr) is None);
        assert(operation(j, s, "~"@, false, BinOp::BitXor) is None);
        assert(operation(j, s, "&"@, false, BinOp::BitAnd) is None);
        assert(operation(j, s, "<<"@, false, BinOp::Lsh) is None);
        assert(operation(j, s, ">>"@, false, BinOp::Rsh) is None);
        assert(operation(j, s, ".."@, false, BinOp::Concat) is None);
        assert(operation(j, s, "+"@, false, BinOp::Add) is None);
        assert(operation(j, s, "-"@, false, BinOp::Sub) is None);
        assert(operation(j, s, "*"@, false, BinOp::Mul) is None);
        assert(operation(j, s, "//"@, false, BinOp::FDiv) is None);
        assert(operation(j, s, "%"@, false, BinOp::Mod) is None);
        assert(operation(j, s, "/"@, false, BinOp::Div) is None);
        assert(operation(j, s, "^"@, false, BinOp::Exp) is None);
    }
    lemma_no_operand(2, s.skip(1));
    assert(operation(2, s, "<"@, false, BinOp::Lt) is None);
    assert(operation(2, s, "<="@, false, BinOp::Le) is None);
    assert(operation(2, s, ">"@, false, BinOp::Gt) is None);
}

/// The operator `==`, written with a space after it.
proof fn lemma_operator_eq(x: Seq<u8>)
    ensures
        begins_with(written("=="@) + (seq![0x20u8] + x), BinOp::Eq, seq![0x20u8] + x),
{
    lemma_tokens();
    let rest = seq![0x20u8] + x;
    let s = written("=="@) + rest;
    assert(s[0] == 0x3Du8);
    assert(s[1] == 0x3Du8);
    assert(s[2] == 0x20u8);
    lemma_tag_found("=="@, rest);
    lemma_tag_missed(s, "or"@);
    lemma_tag_missed(s, "and"@);
    lemma_tag_missed(s, "<"@);
    lemma_tag_missed(s, "<="@);
    lemma_tag_missed(s, ">"@);
    lemma_tag_missed(s, ">="@);
    lemma_tag_missed(s, "~="@);
    lemma_tag_missed(s, "|"@);
    lemma_tag_missed(s, "~"@);
    lemma_tag_missed(s, "&"@);
    lemma_tag_missed(s, "<<"@);
    lemma_tag_missed(s, ">>"@);
    lemma_tag_missed(s, ".."@);
    lemma_tag_missed(s, "+"@);
    lemma_tag_missed(s, "-"@);
    lemma_tag_missed(s, "*"@);
    lemma_tag_missed(s, "//"@);
    lemma_tag_missed(s, "%"@);
    lemma_tag_missed(s, "/"@);
    lemma_tag_missed(s, "^"@);
    assert forall|j: int| 2 < j implies (#[trigger] pair(j, s)) is None by {
        assert(operation(j, s, "|"@, false, BinOp::BitOr) is None);
        assert(operation(j, s, "~"@, false, BinOp::BitXor) is None);
        assert(operation(j, s, "&"@, false, BinOp::BitAnd) is None);
        assert(operation(j, s, "<<"@, false, BinOp::Lsh) is None);
        assert(operation(j, s, ">>"@, false, BinOp::Rsh) is None);
        assert(operation(j, s, ".."@, false, BinOp::Concat) is None);
        assert(operation(j, s, "+"@, false, BinOp::Add) is None);
        assert(operation(j, s, "-"@, false, BinOp::Sub) is None);
        assert(operation(j, s, "*"@, false, BinOp::Mul) is None);
        assert(operation(j, s, "//"@, false, BinOp::FDiv) is None);
        assert(operation(j, s, "%"@, false, BinOp::Mod) is None);
        assert(operation(j, s, "/"@, false, BinOp::Div) is None);
        assert(operation(j, s, "^"@, false, BinOp::Exp) is None);
    }
    assert(operation(2, s, "<"@, false, BinOp::Lt) is None);
    assert(operation(2, s, "<="@, false, BinOp::Le) is None);
    assert(operation(2, s, ">"@, false, BinOp::Gt) is None);
    assert(operation(2, s, ">="@, false, BinOp::Ge) is None);
}

/// The operator `~=`, written with a space after it.
proof fn lemma_operator_ne(x: Seq<u8>)
    ensures
        begins_with(written("~="@) + (seq![0x20u8] + x), BinOp::Ne, seq![0x20u8] + x),
{
    lemma_tokens();
    let rest = seq![0x20u8] + x;
    let s = written("~="@) + rest;
    assert(s[0] == 0x7Eu8);
    assert(s[1] == 0x3Du8);
    assert(s[2] == 0x20u8);
    lemma_tag_found("~="@, rest);
    lemma_tag_missed(s, "or"@);
    lemma_tag_missed(s, "and"@);
    lemma_tag_missed(s, "<"@);
    lemma_tag_missed(s, "<="@);
    lemma_tag_missed(s, ">"@);
    lemma_tag_missed(s, ">="@);
    lemma_tag_missed(s, "=="@);
    lemma_tag_missed(s, "|"@);
    lemma_tag_missed(s, "&"@);
    lemma_tag_missed(s, "<<"@);
    lemma_tag_missed(s, ">>"@);
    lemma_tag_missed(s, ".."@);
    lemma_tag_missed(s, "+"@);
    lemma_tag_missed(s, "-"@);
    lemma_tag_missed(s, "*"@);
    lemma_tag_missed(s, "//"@);
    lemma_tag_missed(s, "%"@);
    lemma_tag_missed(s, "/"@);
    lemma_tag_missed(s, "^"@);
    assert(s.skip(1)[0] == 0x3Du8);
    assert(token(s, "~"@) == Ok::<_, ParseFailure>((s.skip(1), ()))) by {
        assert(agrees(s, "~"@, 1));
    }
    assert forall|j: int| 2 < j implies (#[trigger] pair(j, s)) is None by {
        if 0 <= j < levels() {
            lemma_no_operand(j, s.skip(1));
        }
        assert(operation(j, s, "|"@, false, BinOp::BitOr) is None);
        assert(operation(j, s, "~"@, false, BinOp::BitXor) is None);
        assert(operation(j, s, "&"@, false, BinOp::BitAnd) is None);
        assert(operation(j, s, "<<"@, false, BinOp::Lsh) is None);
        assert(operation(j, s, ">>"@, false, BinOp::Rsh) is None);
        assert(operation(j, s, ".."@, false, BinOp::Concat) is None);
        assert(operation(j, s, "+"@, false, BinOp::Add) is None);
        assert(operation(j, s, "-"@, false, BinOp::Sub) is None);
        assert(operation(j, s, "*"@, false, BinOp::Mul) is None);
        assert(operation(j, s, "//"@, false, BinOp::FDiv) is None);
        assert(operation(j, s, "%"@, false, BinOp::Mod) is None);
        assert(operation(j, s, "/"@, false, BinOp::Div) is None);
        assert(operation(j, s, "^"@, false, BinOp::Exp) is None);
    }
    assert(operation(2, s, "<"@, false, BinOp::Lt) is None);
    assert(operation(2, s, "<="@, false, BinOp::Le) is None);
    assert(operation(2, s, ">"@, false, BinOp::Gt) is None);
    assert(operation(2, s, ">="@, false, BinOp::Ge) is None);
    assert(operation(2, s, "=="@, false, BinOp::Eq) is None);
}

/// The operator `|`, written with a space after it.
proof fn lemma_operator_bitor(x: Seq<u8>)
    ensures
        begins_with(written("|"@) + (seq![0x20u8] + x), BinOp::BitOr, seq![0x20u8] + x),
{
    lemma_tokens();
    let rest = seq![0x20u8] + x;
    let s = written("|"@) + rest;
    assert(s[0] == 0x7Cu8);
    assert(s[1] == 0x20u8);
    lemma_tag_found("|"@, rest);
    lemma_tag_missed(s, "or"@);
    lemma_tag_missed(s, "and"@);
    lemma_tag_missed(s, "<"@);
    lemma_tag_missed(s, "<="@);
    lemma_tag_missed(s, ">"@);
    lemma_tag_missed(s, ">="@);
    lemma_tag_missed(s, "=="@);
    lemma_tag_missed(s, "~="@);
    lemma_tag_missed(s, "~"@);
    lemma_tag_missed(s, "&"@);
    lemma_tag_missed(s, "<<"@);
    lemma_tag_missed(s, ">>"@);
    lemma_tag_missed(s, ".."@);
    lemma_tag_missed(s, "+"@);
    lemma_tag_missed(s, "-"@);
    lemma_tag_missed(s, "*"@);
    lemma_tag_missed(s, "//"@);
    lemma_tag_missed(s, "%"@);
    lemma_tag_missed(s, "/"@);
    lemma_tag_missed(s, "^"@);
    assert forall|j: int| 3 < j implies (#[trigger] pair(j, s)) is None by {
        assert(operation(j, s, "~"@, false, BinOp::BitXor) is None);
        assert(operation(j, s, "&"@, false, BinOp::BitAnd) is None);
        assert(operation(j, s, "<<"@, false, BinOp::Lsh) is None);
        assert(operation(j, s, ">>"@, false, BinOp::Rsh) is None);
        assert(operation(j, s, ".."@, false, BinOp::Concat) is None);
        assert(operation(j, s, "+"@, false, BinOp::Add) is None);
        assert(operation(j, s, "-"@, false, BinOp::Sub) is None);
        assert(operation(j, s, "*"@, false, BinOp::Mul) is None);
        assert(operation(j, s, "//"@, false, BinOp::FDiv) is None);
        assert(operation(j, s, "%"@, false, BinOp::Mod) is None);
        assert(operation(j, s, "/"@, false, BinOp::Div) is None);
        assert(operation(j, s, "^"@, false, BinOp::Exp) is None);
    }
}

/// The operator `~`, written with a space after it.
proof fn lemma_operator_bitxor(x: Seq<u8>)
    ensures
        begins_with(written("~"@) + (seq![0x20u8] + x), BinOp::BitXor, seq![0x20u8] + x),
{
    lemma_tokens();
    let rest = seq![0x20u8] + x;
    let s = written("~"@) + rest;
    assert(s[0] == 0x7Eu8);
    assert(s[1] == 0x20u8);
    lemma_tag_found("~"@, rest);
    lemma_tag_missed(s, "or"@);
    lemma_tag_missed(s, "and"@);
    lemma_tag_missed(s, "<"@);
    lemma_tag_missed(s, "<="@);
    lemma_tag_missed(s, ">"@);
    lemma_tag_missed(s, ">="@);
    lemma_tag_missed(s, "=="@);
    lemma_tag_missed_second(s, "~="@);
    lemma_tag_missed(s, "|"@);
    lemma_tag_missed(s, "&"@);
    lemma_tag_missed(s, "<<"@);
    lemma_tag_missed(s, ">>"@);
    lemma_tag_missed(s, ".."@);
    lemma_tag_missed(s, "+"@);
    lemma_tag_missed(s, "-"@);
    lemma_tag_missed(s, "*"@);
    lemma_tag_missed(s, "//"@);
    lemma_tag_missed(s, "%"@);
    lemma_tag_missed(s, "/"@);
    lemma_tag_missed(s, "^"@);
    assert forall|j: int| 4 < j implies (#[trigger] pair(j, s)) is None by {
        assert(operation(j, s, "&"@, false, BinOp::BitAnd) is None);
        assert(operation(j, s, "<<"@, false, BinOp::Lsh) is None);
        assert(operation(j, s, ">>"@, false, BinOp::Rsh) is None);
        assert(operation(j, s, ".."@, false, BinOp::Concat) is None);
        assert(operation(j, s, "+"@, false, BinOp::Add) is None);
        assert(operation(j, s, "-"@, false, BinOp::Sub) is None);
        assert(operation(j, s, "*"@, false, BinOp::Mul) is None);
        assert(operation(j, s, "//"@, false, BinOp::FDiv) is None);
        assert(operation(j, s, "%"@, false, BinOp::Mod) is None);
        assert(operation(j, s, "/"@, false, BinOp::Div) is None);
        assert(operation(j, s, "^"@, false, BinOp::Exp) is None);
    }
}

/// The operator `&`, written with a space after it.
proof fn lemma_operator_bitand(x: Seq<u8>)
    ensures
        begins_with(written("&"@) + (seq![0x20u8] + x), BinOp::BitAnd, seq![0x20u8] + x),
{
    lemma_tokens();
    let rest = seq![0x20u8] + x;
    let s = written("&"@) + rest;
    assert(s[0] == 0x26u8);
    assert(s[1] == 0x20u8);
    lemma_tag_found("&"@, rest);
    lemma_tag_missed(s, "or"@);
    lemma_tag_missed(s, "and"@);
    lemma_tag_missed(s, "<"@);
    lemma_tag_missed(s, "<="@);
    lemma_tag_missed(s, ">"@);
    lemma_tag_missed(s, ">="@);
    lemma_tag_missed(s, "=="@);
    lemma_tag_missed(s, "~="@);
    lemma_tag_missed(s, "|"@);
    lemma_tag_missed(s, "~"@);
    lemma_tag_missed(s, "<<"@);
    lemma_tag_missed(s, ">>"@);
    lemma_tag_missed(s, ".."@);
    lemma_tag_missed(s, "+"@);
    lemma_tag_missed(s, "-"@);
    lemma_tag_missed(s, "*"@);
    lemma_tag_missed(s, "//"@);
    lemma_tag_missed(s, "%"@);
    lemma_tag_missed(s, "/"@);
    lemma_tag_missed(s, "^"@);
    assert forall|j: int| 5 < j implies (#[trigger] pair(j, s)) is None by {
        assert(operation(j, s, "<<"@, false, BinOp::Lsh) is None);
        assert(operation(j, s, ">>"@, false, BinOp::Rsh) is None);
        assert(operation(j, s, ".."@, false, BinOp::Concat) is None);
        assert(operation(j, s, "+"@, false, BinOp::Add) is None);
        assert(operation(j, s, "-"@, false, BinOp::Sub) is None);
        assert(operation(j, s, "*"@, false, BinOp::Mul) is None);
        assert(operation(j, s, "//"@, false, BinOp::FDiv) is None);
        assert(operation(j, s, "%"@, false, BinOp::Mod) is None);
        assert(operation(j, s, "/"@, false, BinOp::Div) is None);
        assert(operation(j, s, "^"@, false, BinOp::Exp) is None);
    }
}

/// The operator `<<`, written with a space after it.
proof fn lemma_operator_lsh(x: Seq<u8>)
    ensures
        begins_with(written("<<"@) + (seq![0x20u8] + x), BinOp::Lsh, seq![0x20u8] + x),
{
    lemma_tokens();
    let rest = seq![0x20u8] + x;
    let s = written("<<"@) + rest;
    assert(s[0] == 0x3Cu8);
    assert(s[1] == 0x3Cu8);
    assert(s[2] == 0x20u8);
    lemma_tag_found("<<"@, rest);
    lemma_tag_missed(s, "or"@);
    lemma_tag_missed(s, "and"@);
    lemma_tag_missed_second(s, "<="@);
    lemma_tag_missed(s, ">"@);
    lemma_tag_missed(s, ">="@);
    lemma_tag_missed(s, "=="@);
    lemma_tag_missed(s, "~="@);
    lemma_tag_missed(s, "|"@);
    lemma_tag_missed(s, "~"@);
    lemma_tag_missed(s, "&"@);
    lemma_tag_missed(s, ">>"@);
    lemma_tag_missed(s, ".."@);
    lemma_tag_missed(s, "+"@);
    lemma_tag_missed(s, "-"@);
    lemma_tag_missed(s, "*"@);
    lemma_tag_missed(s, "//"@);
    lemma_tag_missed(s, "%"@);
    lemma_tag_missed(s, "/"@);
    lemma_tag_missed(s, "^"@);
    assert(s.skip(1)[0] == 0x3Cu8);
    assert(token(s, "<"@) == Ok::<_, ParseFailure>((s.skip(1), ()))) by {
        assert(agrees(s, "<"@, 1));
    }
    assert forall|j: int| 6 < j implies (#[trigger] pair(j, s)) is None by {
        assert(operation(j, s, ".."@, false, BinOp::Concat) is None);
        assert(operation(j, s, "+"@, false, BinOp::Add) is None);
        assert(operation(j, s, "-"@, false, BinOp::Sub) is None);
        assert(operation(j, s, "*"@, false, BinOp::Mul) is None);
        assert(operation(j, s, "//"@, false, BinOp::FDiv) is None);
        assert(operation(j, s, "%"@, false, BinOp::Mod) is None);
        assert(operation(j, s, "/"@, false, BinOp::Div) is None);
        assert(operation(j, s, "^"@, false, BinOp::Exp) is None);
    }
}

/// The operator `>>`, written with a space after it.
proof fn lemma_operator_rsh(x: Seq<u8>)
    ensures
        begins_with(written(">>"@) + (seq![0x20u8] + x), BinOp::Rsh, seq![0x20u8] + x),
{
    lemma_tokens();
    let rest = seq![0x20u8] + x;
    let s = written(">>"@) + rest;
    assert(s[0] == 0x3Eu8);
    assert(s[1] == 0x3Eu8);
    assert(s[2] == 0x20u8);
    lemma_tag_found(">>"@, rest);
    lemma_tag_missed(s, "or"@);
    lemma_tag_missed(s, "and"@);
    lemma_tag_missed(s, "<"@);
    lemma_tag_missed(s, "<="@);
    lemma_tag_missed_second(s, ">="@);
    lemma_tag_missed(s, "=="@);
    lemma_tag_missed(s, "~="@);
    lemma_tag_missed(s, "|"@);
    lemma_tag_missed(s, "~"@);
    lemma_tag_missed(s, "&"@);
    lemma_tag_missed(s, "<<"@);
    lemma_tag_missed(s, ".."@);
    lemma_tag_missed(s, "+"@);
    lemma_tag_missed(s, "-"@);
    lemma_tag_missed(s, "*"@);
    lemma_tag_missed(s, "//"@);
    lemma_tag_missed(s, "%"@);
    lemma_tag_missed(s, "/"@);
    lemma_tag_missed(s, "^"@);
    assert(s.skip(1)[0] == 0x3Eu8);
    assert(token(s, ">"@) == Ok::<_, ParseFailure>((s.skip(1), ()))) by {
        assert(agrees(s, ">"@, 1));
    }
    assert forall|j: int| 6 < j implies (#[trigger] pair(j, s)) is None by {
        assert(operation(j, s, ".."@, false, BinOp::Concat) is None);
        assert(operation(j, s, "+"@, false, BinOp::Add) is None);
        assert(operation(j, s, "-"@, false, BinOp::Sub) is None);
        assert(operation(j, s, "*"@, false, BinOp::Mul) is None);
        assert(operation(j, s, "//"@, false, BinOp::FDiv) is None);
        assert(operation(j, s, "%"@, false, BinOp::Mod) is None);
        assert(operation(j, s, "/"@, false, BinOp::Div) is None);
        assert(operation(j, s, "^"@, false, BinOp::Exp) is None);
    }
    assert(operation(6, s, "<<"@, false, BinOp::Lsh) is None);
}

/// The operator `..`, written with a space after it.
proof fn lemma_operator_concat(x: Seq<u8>)
    ensures
        begins_with(written(".."@) + (seq![0x20u8] + x), BinOp::Concat, seq![0x20u8] + x),
{
    lemma_tokens();
    let rest = seq![0x20u8] + x;
    let s = written(".."@) + rest;
    assert(s[0] == 0x2Eu8);
    assert(s[1] == 0x2Eu8);
    assert(s[2] == 0x20u8);
    lemma_tag_found(".."@, rest);
    lemma_tag_missed(s, "or"@);
    lemma_tag_missed(s, "and"@);
    lemma_tag_missed(s, "<"@);
    lemma_tag_missed(s, "<="@);
    lemma_tag_missed(s, ">"@);
    lemma_tag_missed(s, ">="@);
    lemma_tag_missed(s, "=="@);
    lemma_tag_missed(s, "~="@);
    lemma_tag_missed(s, "|"@);
    lemma_tag_missed(s, "~"@);
    lemma_tag_missed(s, "&"@);
    lemma_tag_missed(s, "<<"@);
    lemma_tag_missed(s, ">>"@);
    lemma_tag_missed(s, "+"@);
    lemma_tag_missed(s, "-"@);
    lemma_tag_missed(s, "*"@);
    lemma_tag_missed(s, "//"@);
    lemma_tag_missed(s, "%"@);
    lemma_tag_missed(s, "/"@);
    lemma_tag_missed(s, "^"@);
    assert forall|j: int| 7 < j implies (#[trigger] pair(j, s)) is None by {
        assert(operation(j, s, "+"@, false, BinOp::Add) is None);
        assert(operation(j, s, "-"@, false, BinOp::Sub) is None);
        assert(operation(j, s, "*"@, false, BinOp::Mul) is None);
        assert(operation(j, s, "//"@, false, BinOp::FDiv) is None);
        assert(operation(j, s, "%"@, false, BinOp::Mod) is None);
        assert(operation(j, s, "/"@, false, BinOp::Div) is None);
        assert(operation(j, s, "^"@, false, BinOp::Exp) is None);
    }
}

/// The operator `+`, written with a space after it.
proof fn lemma_operator_add(x: Seq<u8>)
    ensures
        begins_with(written("+"@) + (seq![0x20u8] + x), BinOp::Add, seq![0x20u8] + x),
{
    lemma_tokens();
    let rest = seq![0x20u8] + x;
    let s = written("+"@) + rest;
    assert(s[0] == 0x2Bu8);
    assert(s[1] == 0x20u8);
    lemma_tag_found("+"@, rest);
    lemma_tag_missed(s, "or"@);
    lemma_tag_missed(s, "and"@);
    lemma_tag_missed(s, "<"@);
    lemma_tag_missed(s, "<="@);
    lemma_tag_missed(s, ">"@);
    lemma_tag_missed(s, ">="@);
    lemma_tag_missed(s, "=="@);
    lemma_tag_missed(s, "~="@);
    lemma_tag_missed(s, "|"@);
    lemma_tag_missed(s, "~"@);
    lemma_tag_missed(s, "&"@);
    lemma_tag_missed(s, "<<"@);
    lemma_tag_missed(s, ">>"@);
    lemma_tag_missed(s, ".."@);
    lemma_tag_missed(s, "-"@);
    lemma_tag_missed(s, "*"@);
    lemma_tag_missed(s, "//"@);
    lemma_tag_missed(s, "%"@);
    lemma_tag_missed(s, "/"@);
    lemma_tag_missed(s, "^"@);
    assert forall|j: int| 8 < j implies (#[trigger] pair(j, s)) is None by {
        assert(operation(j, s, "*"@, false, BinOp::Mul) is None);
        assert(operation(j, s, "//"@, false, BinOp::FDiv) is None);
        assert(operation(j, s, "%"@, false, BinOp::Mod) is None);
        assert(operation(j, s, "/"@, false, BinOp::Div) is None);
        assert(operation(j, s, "^"@, false, BinOp::Exp) is None);
    }
}

/// The operator `-`, written with a space after it.
proof fn lemma_operator_sub(x: Seq<u8>)
    ensures
        begins_with(written("-"@) + (seq![0x20u8] + x), BinOp::Sub, seq![0x20u8] + x),
{
    lemma_tokens();
    let rest = seq![0x20u8] + x;
    let s = written("-"@) + rest;
    assert(s[0] == 0x2Du8);
    assert(s[1] == 0x20u8);
    lemma_tag_found("-"@, rest);
    lemma_tag_missed(s, "or"@);
    lemma_tag_missed(s, "and"@);
    lemma_tag_missed(s, "<"@);
    lemma_tag_missed(s, "<="@);
    lemma_tag_missed(s, ">"@);
    lemma_tag_missed(s, ">="@);
    lemma_tag_missed(s, "=="@);
    lemma_tag_missed(s, "~="@);
    lemma_tag_missed(s, "|"@);
    lemma_tag_missed(s, "~"@);
    lemma_tag_missed(s, "&"@);
    lemma_tag_missed(s, "<<"@);
    lemma_tag_missed(s, ">>"@);
    lemma_tag_missed(s, ".."@);
    lemma_tag_missed(s, "+"@);
    lemma_tag_missed(s, "*"@);
    lemma_tag_missed(s, "//"@);
    lemma_tag_missed(s, "%"@);
    lemma_tag_missed(s, "/"@);
    lemma_tag_missed(s, "^"@);
    assert forall|j: int| 8 < j implies (#[trigger] pair(j, s)) is None by {
        assert(operation(j, s, "*"@, false, BinOp::Mul) is None);
        assert(operation(j, s, "//"@, false, BinOp::FDiv) is None);
        assert(operation(j, s, "%"@, false, BinOp::Mod) is None);
        assert(operation(j, s, "/"@, false, BinOp::Div) is None);
        assert(operation(j, s, "^"@, false, BinOp::Exp) is None);
    }
    assert(operation(8, s, "+"@, false, BinOp::Add) is None);
}

/// The operator `*`, written with a space after it.
proof fn lemma_operator_mul(x: Seq<u8>)
    ensures
        begins_with(written("*"@) + (seq![0x20u8] + x), BinOp::Mul, seq![0x20u8] + x),
{
    lemma_tokens();
    let rest = seq![0x20u8] + x;
    let s = written("*"@) + rest;
    assert(s[0] == 0x2Au8);
    assert(s[1] == 0x20u8);
    lemma_tag_found("*"@, rest);
    lemma_tag_missed(s, "or"@);
    lemma_tag_missed(s, "and"@);
    lemma_tag_missed(s, "<"@);
    lemma_tag_missed(s, "<="@);
    lemma_tag_missed(s, ">"@);
    lemma_tag_missed(s, ">="@);
    lemma_tag_missed(s, "=="@);
    lemma_tag_missed(s, "~="@);
    lemma_tag_missed(s, "|"@);
    lemma_tag_missed(s, "~"@);
    lemma_tag_missed(s, "&"@);
    lemma_tag_missed(s, "<<"@);
    lemma_tag_missed(s, ">>"@);
    lemma_tag_missed(s, ".."@);
    lemma_tag_missed(s, "+"@);
    lemma_tag_missed(s, "-"@);
    lemma_tag_missed(s, "//"@);
    lemma_tag_missed(s, "%"@);
    lemma_tag_missed(s, "/"@);
    lemma_tag_missed(s, "^"@);
    assert forall|j: int| 9 < j implies (#[trigger] pair(j, s)) is None by {
        assert(operation(j, s, "^"@, false, BinOp::Exp) is None);
    }
}

/// The operator `//`, written with a space after it.
proof fn lemma_operator_fdiv(x: Seq<u8>)
    ensures
        begins_with(written("//"@) + (seq![0x20u8] + x), BinOp::FDiv, seq![0x20u8] + x),
{
    lemma_tokens();
    let rest = seq![0x20u8] + x;
    let s = written("//"@) + rest;
    assert(s[0] == 0x2Fu8);
    assert(s[1] == 0x2Fu8);
    assert(s[2] == 0x20u8);
    lemma_tag_found("//"@, rest);
    lemma_tag_missed(s, "or"@);
    lemma_tag_missed(s, "and"@);
    lemma_tag_missed(s, "<"@);
    lemma_tag_missed(s, "<="@);
    lemma_tag_missed(s, ">"@);
    lemma_tag_missed(s, ">="@);
    lemma_tag_missed(s, "=="@);
    lemma_tag_missed(s, "~="@);
    lemma_tag_missed(s, "|"@);
    lemma_tag_missed(s, "~"@);
    lemma_tag_missed(s, "&"@);
    lemma_tag_missed(s, "<<"@);
    lemma_tag_missed(s, ">>"@);
    lemma_tag_missed(s, ".."@);
    lemma_tag_missed(s, "+"@);
    lemma_tag_missed(s, "-"@);
    lemma_tag_missed(s, "*"@);
    lemma_tag_missed(s, "%"@);
    lemma_tag_missed(s, "^"@);
    assert(s.skip(1)[0] == 0x2Fu8);
    assert(token(s, "/"@) == Ok::<_, ParseFailure>((s.skip(1), ()))) by {
        assert(agrees(s, "/"@, 1));
    }
    assert forall|j: int| 9 < j implies (#[trigger] pair(j, s)) is None by {
        assert(operation(j, s, "^"@, false, BinOp::Exp) is None);
    }
    assert(operation(9, s, "*"@, false, BinOp::Mul) is None);
}

/// The operator `%`, written with a space after it.
proof fn lemma_operator_mod(x: Seq<u8>)
    ensures
        begins_with(written("%"@) + (seq![0x20u8] + x), BinOp::Mod, seq![0x20u8] + x),
{
    lemma_tokens();
    let rest = seq![0x20u8] + x;
    let s = written("%"@) + rest;
    assert(s[0] == 0x25u8);
    assert(s[1] == 0x20u8);
    lemma_tag_found("%"@, rest);
    lemma_tag_missed(s, "or"@);
    lemma_tag_missed(s, "and"@);
    lemma_tag_missed(s, "<"@);
    lemma_tag_missed(s, "<="@);
    lemma_tag_missed(s, ">"@);
    lemma_tag_missed(s, ">="@);
    lemma_tag_missed(s, "=="@);
    lemma_tag_missed(s, "~="@);
    lemma_tag_missed(s, "|"@);
    lemma_tag_missed(s, "~"@);
    lemma_tag_missed(s, "&"@);
    lemma_tag_missed(s, "<<"@);
    lemma_tag_missed(s, ">>"@);
    lemma_tag_missed(s, ".."@);
    lemma_tag_missed(s, "+"@);
    lemma_tag_missed(s, "-"@);
    lemma_tag_missed(s, "*"@);
    lemma_tag_missed(s, "//"@);
    lemma_tag_missed(s, "/"@);
    lemma_tag_missed(s, "^"@);
    assert forall|j: int| 9 < j implies (#[trigger] pair(j, s)) is None by {
        assert(operation(j, s, "^"@, false, BinOp::Exp) is None);
    }
    assert(operation(9, s, "*"@, false, BinOp::Mul) is None);
    assert(operation(9, s, "//"@, false, BinOp::FDiv) is None);
}

/// The operator `/`, written with a space after it.
proof fn lemma_operator_div(x: Seq<u8>)
    ensures
        begins_with(written("/"@) + (seq![0x20u8] + x), BinOp::Div, seq![0x20u8] + x),
{
    lemma_tokens();
    let rest = seq![0x20u8] + x;
    let s = written("/"@) + rest;
    assert(s[0] == 0x2Fu8);
    assert(s[1] == 0x20u8);
    lemma_tag_found("/"@, rest);
    lemma_tag_missed(s, "or"@);
    lemma_tag_missed(s, "and"@);
    lemma_tag_missed(s, "<"@);
    lemma_tag_missed(s, "<="@);
    lemma_tag_missed(s, ">"@);
    lemma_tag_missed(s, ">="@);
    lemma_tag_missed(s, "=="@);
    lemma_tag_missed(s, "~="@);
    lemma_tag_missed(s, "|"@);
    lemma_tag_missed(s, "~"@);
    lemma_tag_missed(s, "&"@);
    lemma_tag_missed(s, "<<"@);
    lemma_tag_missed(s, ">>"@);
    lemma_tag_missed(s, ".."@);
    lemma_tag_missed(s, "+"@);
    lemma_tag_missed(s, "-"@);
    lemma_tag_missed(s, "*"@);
    lemma_tag_missed_second(s, "//"@);
    lemma_tag_missed(s, "%"@);
    lemma_tag_missed(s, "^"@);
    assert forall|j: int| 9 < j implies (#[trigger] pair(j, s)) is None by {
        assert(operation(j, s, "^"@, false, BinOp::Exp) is None);
    }
    assert(operation(9, s, "*"@, false, BinOp::Mul) is None);
    assert(operation(9, s, "//"@, false, BinOp::FDiv) is None);
    assert(operation(9, s, "%"@, false, BinOp::Mod) is None);
}

/// The operator `^`, written with a space after it.
proof fn lemma_operator_exp(x: Seq<u8>)
    ensures
        begins_with(written("^"@) + (seq![0x20u8] + x), BinOp::Exp, seq![0x20u8] + x),
{
    lemma_tokens();
    let rest = seq![0x20u8] + x;
    let s = written("^"@) + rest;
    assert(s[0] == 0x5Eu8);
    assert(s[1] == 0x20u8);
    lemma_tag_found("^"@, rest);
    lemma_tag_missed(s, "or"@);
    lemma_tag_missed(s, "and"@);
    lemma_tag_missed(s, "<"@);
    lemma_tag_missed(s, "<="@);
    lemma_tag_missed(s, ">"@);
    lemma_tag_missed(s, ">="@);
    lemma_tag_missed(s, "=="@);
    lemma_tag_missed(s, "~="@);
    lemma_tag_missed(s, "|"@);
    lemma_tag_missed(s, "~"@);
    lemma_tag_missed(s, "&"@);
    lemma_tag_missed(s, "<<"@);
    lemma_tag_missed(s, ">>"@);
    lemma_tag_missed(s, ".."@);
    lemma_tag_missed(s, "+"@);
    lemma_tag_missed(s, "-"@);
    lemma_tag_missed(s, "*"@);
    lemma_tag_missed(s, "//"@);
    lemma_tag_missed(s, "%"@);
    lemma_tag_missed(s, "/"@);
    assert forall|j: int| 11 < j implies (#[trigger] pair(j, s)) is None by {
    }
}

/// A binary operator, written with a space after it, is read as itself, at
/// its level and at no tighter level.
pub proof fn lemma_operator(op: BinOp, x: Seq<u8>)
    ensures
        begins_with(written(op.text()) + (seq![0x20u8] + x), op, seq![0x20u8] + x),
{
    match op {
        BinOp::Or => lemma_operator_or(x),
        BinOp::And => lemma_operator_and(x),
        BinOp::Lt => lemma_operator_lt(x),
        BinOp::Le => lemma_operator_le(x),
        BinOp::Gt => lemma_operator_gt(x),
        BinOp::Ge => lemma_operator_ge(x),
        BinOp::Eq => lemma_operator_eq(x),
        BinOp::Ne => lemma_operator_ne(x),
        BinOp::BitOr => lemma_operator_bitor(x),
        BinOp::BitXor => lemma_operator_bitxor(x),
        BinOp::BitAnd => lemma_operator_bitand(x),
        BinOp::Lsh => lemma_operator_lsh(x),
        BinOp::Rsh => lemma_operator_rsh(x),
        BinOp::Concat => lemma_operator_concat(x),
        BinOp::Add => lemma_operator_add(x),
        BinOp::Sub => lemma_operator_sub(x),
        BinOp::Mul => lemma_operator_mul(x),
        BinOp::FDiv => lemma_operator_fdiv(x),
        BinOp::Mod => lemma_operator_mod(x),
        BinOp::Div => lemma_operator_div(x),
        BinOp::Exp => lemma_operator_exp(x),
    }
}

/// Whether `tail` may follow an operand in a text: it is empty, or begins
/// with a space or with `)`.
pub open spec fn delimited(tail: Seq<u8>) -> bool {
    tail.len() == 0 || tail[0] == 0x20 || tail[0] == 0x29
}

/// The decimal digits of a number are digits, and write the number.
pub proof fn lemma_digits(n: nat)
    ensures
        digits(n, 10).len() > 0,
        is_ascii(digits(n, 10)),
        forall|i: int|
            0 <= i < digits(n, 10).len() ==> Class::Digit.has(#[trigger] written(digits(n, 10))[i]),
        value_of(written(digits(n, 10)), 10) == n,
    decreases n,
{
    let all = digits(n, 10);
    if n < 10 {
        assert(all =~= seq![digit_char(n)]);
        assert(written(all) =~= seq![(0x30 + n) as u8]);
        assert(written(all).drop_last() =~= Seq::<u8>::empty());
        assert(value_of(written(all).drop_last(), 10) == 0);
    } else {
        let front = digits(n / 10, 10);
        lemma_digits(n / 10);
        assert(all == front.push(digit_char(n % 10)));
        assert(written(all) =~= written(front).push((0x30 + n % 10) as u8));
        assert(written(all).drop_last() =~= written(front));
        assert forall|i: int| 0 <= i < all.len() implies Class::Digit.has(
            #[trigger] written(all)[i],
        ) by {
            if i < front.len() {
                assert(written(all)[i] == written(front)[i]);
            }
        }
        assert forall|i: int| 0 <= i < all.len() implies 0 <= (#[trigger] all[i]) as int
            <= 127 by {
            if i < front.len() {
                assert(all[i] == front[i]);
            }
        }
    }
}

/// The decimal digits of a number that fits 64 bits signed, before what may
/// follow an operand, read as the integer.
pub proof fn lemma_integer_numeral(n: nat, tail: Seq<u8>)
    requires
        n <= i64::MAX,
        delimited(tail),
    ensures
        numeral(written(digits(n, 10)) + tail) == Ok::<_, ParseFailure>(
            (tail, Tree::Integer(n as int)),
        ),
{
    lemma_digits(n);
    let d = written(digits(n, 10));
    let s = d + tail;
    assert forall|i: int| 0 <= i < d.len() implies Class::Digit.has(#[trigger] s[i]) by {
        assert(s[i] == d[i]);
    }
    if d.len() < s.len() {
        assert(s[d.len() as int] == tail[0]);
    }
    lemma_run_len_unique(s, Class::Digit, d.len() as int);
    assert(s.take(d.len() as int) =~= d);
    assert(s.skip(d.len() as int) =~= tail);
    assert(Class::Digit.has(s[0]));
    if s.len() >= 2 {
        if d.len() >= 2 {
            assert(Class::Digit.has(s[1]));
        } else {
            assert(s[1] == tail[0]);
        }
    }
    assert(hex_prefix(s) is Err);
    assert(exponent_len(tail, false) is Err);
    assert(float_len(s, false) is Err);
    assert(decimal_int(s) == Ok::<_, ParseFailure>((tail, Numeral::Integer(n as int))));
    assert(number(s) == Ok::<_, ParseFailure>((tail, Numeral::Integer(n as int))));
}

/// `true`, before what may follow an operand, reads as itself.
pub proof fn lemma_true_atom(tail: Seq<u8>)
    requires
        delimited(tail),
    ensures
        atom(written("true"@) + tail) == Ok::<_, ParseFailure>((tail, Tree::Bool(true))),
{
    reveal_strlit("true");
    reveal_strlit("false");
    let s = written("true"@) + tail;
    assert(s[0] == 0x74u8);
    lemma_tag_found("true"@, tail);
    lemma_tag_missed(s, "false"@);
    lemma_miss_numeral(s);
    lemma_miss_paren(s);
    lemma_miss_nil(s);
    assert(boolean(s) == Ok::<_, ParseFailure>((tail, Tree::Bool(true))));
}

/// `false`, before what may follow an operand, reads as itself.
pub proof fn lemma_false_atom(tail: Seq<u8>)
    requires
        delimited(tail),
    ensures
        atom(written("false"@) + tail) == Ok::<_, ParseFailure>((tail, Tree::Bool(false))),
{
    reveal_strlit("false");
    let s = written("false"@) + tail;
    assert(s[0] == 0x66u8);
    lemma_tag_found("false"@, tail);
    lemma_miss_numeral(s);
    lemma_miss_paren(s);
    lemma_miss_nil(s);
    assert(boolean(s) == Ok::<_, ParseFailure>((tail, Tree::Bool(false))));
}

/// `nil`, before what may follow an operand, reads as itself.
pub proof fn lemma_nil_atom(tail: Seq<u8>)
    requires
        delimited(tail),
    ensures
        atom(written("nil"@) + tail) == Ok::<_, ParseFailure>((tail, Tree::Nil)),
{
    reveal_strlit("nil");
    let s = written("nil"@) + tail;
    assert(s[0] == 0x6Eu8);
    lemma_tag_found("nil"@, tail);
    lemma_miss_numeral(s);
    lemma_miss_paren(s);
    assert(nil(s) == Ok::<_, ParseFailure>((tail, Tree::Nil)));
}

/// `...`, before what may follow an operand, reads as itself.
pub proof fn lemma_vararg_atom(tail: Seq<u8>)
    requires
        delimited(tail),
    ensures
        atom(written("..."@) + tail) == Ok::<_, ParseFailure>((tail, Tree::VarArg)),
{
    reveal_strlit("...");
    let s = written("..."@) + tail;
    assert(s[0] == 0x2Eu8);
    assert(s[1] == 0x2Eu8);
    lemma_tag_found("..."@, tail);
    assert(run_len(s, Class::Digit) == 0);
    assert(s.skip(1)[0] == 0x2Eu8);
    assert(run_len(s.skip(1), Class::Digit) == 0);
    assert(float_len(s, false) is Err);
    assert(number(s) is Err);
    assert(numeral(s) is Err);
    lemma_miss_paren(s);
    lemma_miss_nil(s);
    lemma_miss_boolean(s);
    lemma_miss_string(s);
    assert(vararg(s) == Ok::<_, ParseFailure>((tail, Tree::VarArg)));
}/// Whether `s` begins as an operand does: with no white space and with no
/// unary operator.
pub open spec fn opens_atom(s: Seq<u8>) -> bool {
    opens_no_unary(s) && !Class::Space.has(s[0])
}

/// `(` and `)` as bytes.
pub proof fn lemma_parentheses()
    ensures
        written("("@) == seq![0x28u8],
        written(")"@) == seq![0x29u8],
        written(" "@) == seq![0x20u8],
        is_ascii("("@),
        is_ascii(")"@),
        "("@.len() == 1,
        ")"@.len() == 1,
{
    reveal_strlit("(");
    reveal_strlit(")");
    reveal_strlit(" ");
    assert(written("("@) =~= seq![0x28u8]);
    assert(written(")"@) =~= seq![0x29u8]);
    assert(written(" "@) =~= seq![0x20u8]);
}

/// What stands in parentheses reads as what stands there, in parentheses.
proof fn lemma_in_parentheses(inner: Seq<u8>, tail: Seq<u8>, value: Tree)
    requires
        exp(inner) == Ok::<_, ParseFailure>((seq![0x29u8] + tail, value)),
        tail.len() < inner.len(),
        delimited(tail),
    ensures
        factor(seq![0x28u8] + inner) == Ok::<_, ParseFailure>(
            (skip_space(tail), Tree::Paren(Box::new(value))),
        ),
        opens_atom(seq![0x28u8] + inner),
{
    lemma_parentheses();
    let s = seq![0x28u8] + inner;
    let close = seq![0x29u8] + tail;
    lemma_tag_found("("@, inner);
    lemma_tag_found(")"@, tail);
    assert(token(s, "("@) == Ok::<_, ParseFailure>((inner, ())));
    assert(tag(close, ")"@) == Ok::<_, ParseFailure>((tail, ())));
    assert(parenthesised(s) == Ok::<_, ParseFailure>((tail, value)));
    assert(paren(s) == Ok::<_, ParseFailure>((tail, Tree::Paren(Box::new(value)))));
    assert(s[0] == 0x28u8);
    lemma_miss_numeral(s);
    assert(atom(s) == Ok::<_, ParseFailure>((tail, Tree::Paren(Box::new(value)))));
    lemma_skip_space_none(s);
}

/// A unary operator as it is written before an operand is read as itself,
/// and the space that `not` is written with is left over.
proof fn lemma_unary_operator(op: UnOp, x: Seq<u8>)
    ensures
        written(op.text())[0] != 0x20u8,
        written(op.text()).len() > 0,
        !Class::Space.has(written(op.text())[0]),
        unary_operator(written(op.text()) + x) == Ok::<_, ParseFailure>(
            (
                if op == UnOp::Not {
                    seq![0x20u8] + x
                } else {
                    x
                },
                op,
            ),
        ),
{
    lemma_tokens();
    reveal_strlit("not ");
    let s = written(op.text()) + x;
    match op {
        UnOp::Not => {
            assert(written("not "@) =~= written("not"@) + seq![0x20u8]);
            assert(s =~= written("not"@) + (seq![0x20u8] + x));
            lemma_tag_found("not"@, seq![0x20u8] + x);
            assert(!is_word_byte(0x20u8));
        },
        UnOp::Len => {
            assert(s[0] == 0x23u8);
            lemma_tag_missed(s, "not"@);
            lemma_tag_found("#"@, x);
        },
        UnOp::UMin => {
            assert(s[0] == 0x2Du8);
            lemma_tag_missed(s, "not"@);
            lemma_tag_missed(s, "#"@);
            lemma_tag_found("-"@, x);
        },
        UnOp::BinNot => {
            assert(s[0] == 0x7Eu8);
            lemma_tag_missed(s, "not"@);
            lemma_tag_missed(s, "#"@);
            lemma_tag_missed(s, "-"@);
            lemma_tag_found("~"@, x);
        },
    }
}

/// What is read at level `k`: an expression of the level, and a factor where
/// `k` is the number of levels.
pub closed spec fn reads(k: int, s: Seq<u8>) -> Outcome<Tree> {
    rung(k, s)
}

/// The operator of level `k` and the operand that follow at the start of `s`.
pub closed spec fn follows(k: int, s: Seq<u8>) -> Option<(Seq<u8>, BinOp, Tree)> {
    pair(k, s)
}

/// What follows an operand at level `k`, folded into `left`.
pub closed spec fn folded(k: int, s: Seq<u8>, left: Tree) -> (Seq<u8>, Tree) {
    crate::grammar::tail(k, s, left)
}

/// The unary operator at the start of `s`.
pub closed spec fn unary_at(s: Seq<u8>) -> Outcome<UnOp> {
    unary_operator(s)
}

/// What is read at the loosest level is the expression.
pub proof fn step_exp(s: Seq<u8>)
    ensures
        reads(0, s) == exp(s),
{
}

/// An expression of a tighter level that is followed by no operator of the
/// levels from `to` up to its own is the expression of level `to` as well.
pub proof fn step_lift(from: int, to: int, s: Seq<u8>, rest: Seq<u8>, value: Tree)
    requires
        0 <= to <= from <= levels(),
        reads(from, s) == Ok::<_, ParseFailure>((rest, value)),
        rest.len() <= s.len(),
        forall|j: int| to <= j < from ==> (#[trigger] follows(j, rest)) is None,
        to <= 10 < from ==> unary_at(skip_space(s)) is Err,
    ensures
        reads(to, s) == Ok::<_, ParseFailure>((rest, value)),
{
    assert forall|j: int| to <= j < from implies (#[trigger] pair(j, rest)) is None by {
        assert(follows(j, rest) is None);
    }
    lemma_lift(from, to, s, rest, value);
}

/// A space before an expression does not change what is read.
pub proof fn step_leading_space(k: int, s: Seq<u8>)
    requires
        0 <= k <= levels(),
        reads(k, s) is Ok,
    ensures
        reads(k, seq![0x20u8] + s) == reads(k, s),
{
    lemma_leading_space(k, s);
}

/// Where no binary operator can begin, none follows at any level.
pub proof fn step_closed(s: Seq<u8>)
    requires
        closed(s),
    ensures
        forall|j: int| (#[trigger] follows(j, s)) is None,
{
    lemma_closed(s);
    assert forall|j: int| (#[trigger] follows(j, s)) is None by {
        assert(pair(j, s) is None);
    }
}

/// Where no unary operator can begin, none is found.
pub proof fn step_no_unary(s: Seq<u8>)
    requires
        opens_no_unary(s),
    ensures
        unary_at(s) is Err,
{
    lemma_no_unary(s);
}

/// A unary operator as it is written before an operand is found, and the
/// space that `not` is written with is left over.
pub proof fn step_unary_found(op: UnOp, x: Seq<u8>)
    ensures
        written(op.text()).len() > 0,
        !Class::Space.has(written(op.text())[0]),
        unary_at(written(op.text()) + x) == Ok::<_, ParseFailure>(
            (
                if op == UnOp::Not {
                    seq![0x20u8] + x
                } else {
                    x
                },
                op,
            ),
        ),
{
    lemma_unary_operator(op, x);
}

/// A unary operator and what is read after it, at the level of the unary
/// operators, are the operator over what is read.
pub proof fn step_prefixed(s: Seq<u8>, op: UnOp, after: Seq<u8>, rest: Seq<u8>, value: Tree)
    requires
        unary_at(skip_space(s)) == Ok::<_, ParseFailure>((after, op)),
        reads(10, after) == Ok::<_, ParseFailure>((rest, value)),
        rest.len() <= after.len(),
    ensures
        reads(10, s) == Ok::<_, ParseFailure>((rest, unary(op, value))),
{
    assert(prefixed(after) == Ok::<_, ParseFailure>((rest, value)));
    assert(prefixed(s) == Ok::<_, ParseFailure>((rest, unary(op, value))));
}

/// A binary operator, written with a space after it: no operator of a
/// tighter level follows, the operator is found where its operand is, and it
/// is the first of its level that is.
pub proof fn step_operator(op: BinOp, x: Seq<u8>, rest: Seq<u8>, value: Tree)
    requires
        reads(level_of(op) + 1, seq![0x20u8] + x) == Ok::<_, ParseFailure>((rest, value)),
        rest.len() <= x.len(),
    ensures
        forall|j: int|
            level_of(op) < j ==> (#[trigger] follows(
                j,
                written(op.text()) + (seq![0x20u8] + x),
            )) is None,
        follows(level_of(op), written(op.text()) + (seq![0x20u8] + x)) == Some(
            (rest, op, value),
        ),
        !Class::Space.has((written(op.text()) + (seq![0x20u8] + x))[0]),
        (written(op.text()) + (seq![0x20u8] + x)).len() > x.len() + 1,
{
    let s = written(op.text()) + (seq![0x20u8] + x);
    lemma_operator(op, x);
    assert forall|j: int| level_of(op) < j implies (#[trigger] follows(j, s)) is None by {
        assert(pair(j, s) is None);
    }
    assert(operand(level_of(op), seq![0x20u8] + x) == rung(level_of(op) + 1, seq![0x20u8] + x));
}

/// Where an operator and its operand follow, they fold into what stands
/// before them, and the folding goes on after them.
pub proof fn step_fold(k: int, s: Seq<u8>, left: Tree, rest: Seq<u8>, op: BinOp, right: Tree)
    requires
        0 <= k < levels(),
        follows(k, s) == Some((rest, op, right)),
        rest.len() < s.len(),
    ensures
        folded(k, s, left) == folded(k, rest, binary(op, left, right)),
{
}

/// Where no operator follows, the folding ends.
pub proof fn step_fold_end(k: int, s: Seq<u8>, left: Tree)
    requires
        follows(k, s) is None,
    ensures
        folded(k, s, left) == (s, left),
{
}

/// An expression of a level of binary operators is its first operand with
/// what follows folded into it.
pub proof fn step_level(k: int, s: Seq<u8>, rest: Seq<u8>, first: Tree)
    requires
        0 <= k < levels(),
        k != 10,
        reads(k + 1, s) == Ok::<_, ParseFailure>((rest, first)),
        rest.len() <= s.len(),
    ensures
        reads(k, s) == Ok::<_, ParseFailure>(folded(k, rest, first)),
{
    assert(operand(k, s) == rung(k + 1, s));
}

/// What stands in parentheses reads as what stands there, in parentheses.
pub proof fn step_parentheses(inner: Seq<u8>, tail: Seq<u8>, value: Tree)
    requires
        reads(0, inner) == Ok::<_, ParseFailure>((seq![0x29u8] + tail, value)),
        tail.len() < inner.len(),
        delimited(tail),
    ensures
        reads(levels(), seq![0x28u8] + inner) == Ok::<_, ParseFailure>(
            (skip_space(tail), Tree::Paren(Box::new(value))),
        ),
        opens_atom(seq![0x28u8] + inner),
{
    lemma_in_parentheses(inner, tail, value);
}

/// The decimal digits of a number that fits 64 bits signed read as the
/// integer.
pub proof fn step_integer(n: nat, tail: Seq<u8>)
    requires
        n <= i64::MAX,
        delimited(tail),
    ensures
        reads(levels(), written(digits(n, 10)) + tail) == Ok::<_, ParseFailure>(
            (skip_space(tail), Tree::Integer(n as int)),
        ),
        opens_atom(written(digits(n, 10)) + tail),
{
    let s = written(digits(n, 10)) + tail;
    lemma_digits(n);
    lemma_integer_numeral(n, tail);
    assert(Class::Digit.has(written(digits(n, 10))[0]));
    assert(s[0] == written(digits(n, 10))[0]);
    lemma_skip_space_none(s);
    assert(atom(s) == Ok::<_, ParseFailure>((tail, Tree::Integer(n as int))));
}

/// `true` and `false` read as themselves.
pub proof fn step_boolean(value: bool, tail: Seq<u8>)
    requires
        delimited(tail),
    ensures
        reads(
            levels(),
            written(
                if value {
                    "true"@
                } else {
                    "false"@
                },
            ) + tail,
        ) == Ok::<_, ParseFailure>((skip_space(tail), Tree::Bool(value))),
        opens_atom(
            written(
                if value {
                    "true"@
                } else {
                    "false"@
                },
            ) + tail,
        ),
{
    reveal_strlit("true");
    reveal_strlit("false");
    if value {
        let s = written("true"@) + tail;
        lemma_true_atom(tail);
        assert(s[0] == 0x74u8);
        lemma_skip_space_none(s);
    } else {
        let s = written("false"@) + tail;
        lemma_false_atom(tail);
        assert(s[0] == 0x66u8);
        lemma_skip_space_none(s);
    }
}

/// `nil` reads as itself.
pub proof fn step_nil(tail: Seq<u8>)
    requires
        delimited(tail),
    ensures
        reads(levels(), written("nil"@) + tail) == Ok::<_, ParseFailure>(
            (skip_space(tail), Tree::Nil),
        ),
        opens_atom(written("nil"@) + tail),
{
    reveal_strlit("nil");
    let s = written("nil"@) + tail;
    lemma_nil_atom(tail);
    assert(s[0] == 0x6Eu8);
    assert(s[1] == 0x69u8);
    lemma_skip_space_none(s);
}

/// `...` reads as itself.
pub proof fn step_vararg(tail: Seq<u8>)
    requires
        delimited(tail),
    ensures
        reads(levels(), written("..."@) + tail) == Ok::<_, ParseFailure>(
            (skip_space(tail), Tree::VarArg),
        ),
        opens_atom(written("..."@) + tail),
{
    reveal_strlit("...");
    let s = written("..."@) + tail;
    lemma_vararg_atom(tail);
    assert(s[0] == 0x2Eu8);
    lemma_skip_space_none(s);
}

/// A string as it is written reads as itself.
pub proof fn step_text(text: Seq<char>, tail: Seq<u8>)
    ensures
        reads(levels(), written(crate::quoted::quoted(text)) + tail) == Ok::<_, ParseFailure>(
            (skip_space(tail), Tree::Text(text)),
        ),
        opens_atom(written(crate::quoted::quoted(text)) + tail),
{
    let s = written(crate::quoted::quoted(text)) + tail;
    crate::quoted::lemma_quoted_reads_back(text, tail);
    assert(string(s) == Ok::<_, ParseFailure>((tail, Tree::Text(text))));
    lemma_miss_numeral(s);
    lemma_miss_paren(s);
    lemma_miss_nil(s);
    lemma_miss_boolean(s);
    lemma_skip_space_none(s);
    assert(atom(s) == Ok::<_, ParseFailure>((tail, Tree::Text(text))));
}

/// Whether a text is a float numeral, all of it.
pub open spec fn is_float_numeral(text: Seq<char>) -> bool {
    number(written(text)) == Ok::<_, ParseFailure>((Seq::<u8>::empty(), Numeral::Float(text)))
}

/// A float numeral reads as itself.
pub proof fn step_float(text: Seq<char>, tail: Seq<u8>)
    requires
        is_float_numeral(text),
        delimited(tail),
    ensures
        reads(levels(), written(text) + tail) == Ok::<_, ParseFailure>(
            (skip_space(tail), Tree::Float(text)),
        ),
        opens_atom(written(text) + tail),
{
    let w = written(text);
    let s = w + tail;
    crate::numerals::law_number_carried(w, tail);
    assert(Seq::<u8>::empty() + tail =~= tail);
    assert(numeral(s) == Ok::<_, ParseFailure>((tail, Tree::Float(text))));
    if w.len() == 0 {
        assert(number(w) is Err);
    } else if !Class::Digit.has(w[0]) && w[0] != 0x2E {
        lemma_miss_numeral(w);
    }
    assert(s[0] == w[0]);
    lemma_skip_space_none(s);
    assert(atom(s) == Ok::<_, ParseFailure>((tail, Tree::Float(text))));
}

} // verus!
