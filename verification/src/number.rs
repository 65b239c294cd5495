//! Numerals: decimal and hexadecimal, integers and floats.
//!
//! A sign is never part of a numeral. An integer numeral carries its value; a
//! float numeral carries its text, from which the nearest double is computed
//! by whoever needs the value.
use crate::error::{seen, Outcome, ParseFailure, Parsed};
use crate::lexical::{
    from, lemma_run_len, lemma_run_len_unique, run, run_len, run_of, text_of, to_text, Class,
};
use vstd::prelude::*;
use vstd::slice::slice_subrange;

verus! {

/// A numeral as read.
#[derive(Clone, Debug, PartialEq)]
pub enum Number {
    /// A float numeral, by its text.
    Float(String),
    /// An integer numeral, by its value.
    Integer(i64),
}

/// What a `Number` stands for.
pub enum Numeral {
    /// A float numeral, by its text.
    Float(Seq<char>),
    /// An integer numeral, by its value.
    Integer(int),
}

impl View for Number {
    type V = Numeral;

    open spec fn view(&self) -> Numeral {
        match self {
            Number::Float(text) => Numeral::Float(text@),
            Number::Integer(value) => Numeral::Integer(*value as int),
        }
    }
}

/// The value of one digit, decimal or hexadecimal.
pub open spec fn digit_value(b: u8) -> nat {
    if 0x30 <= b <= 0x39 {
        (b - 0x30) as nat
    } else if 0x41 <= b <= 0x46 {
        (b - 0x41 + 10) as nat
    } else if 0x61 <= b <= 0x66 {
        (b - 0x61 + 10) as nat
    } else {
        0
    }
}

/// The number that `digits` write in the given base, most significant first.
pub open spec fn value_of(digits: Seq<u8>, base: nat) -> nat
    decreases digits.len(),
{
    if digits.len() == 0 {
        0
    } else {
        value_of(digits.drop_last(), base) * base + digit_value(digits.last())
    }
}

/// A numeral is no smaller than the numeral that any of its prefixes writes.
pub proof fn lemma_value_of_prefix(digits: Seq<u8>, base: nat, n: int)
    requires
        0 <= n <= digits.len(),
        base >= 1,
    ensures
        value_of(digits.take(n), base) <= value_of(digits, base),
    decreases digits.len() - n,
{
    if n == digits.len() {
        assert(digits.take(n) =~= digits);
    } else {
        let short = value_of(digits.take(n), base);
        assert(digits.take(n + 1).drop_last() =~= digits.take(n));
        assert(short * base >= short) by (nonlinear_arith)
            requires
                base >= 1,
                short >= 0,
        ;
        lemma_value_of_prefix(digits, base, n + 1);
    }
}

/// The value of the digit `b`.
pub(crate) fn digit_of(b: u8) -> (d: u8)
    ensures
        d == digit_value(b),
        d < 16,
{
    if 0x30 <= b && b <= 0x39 {
        b - 0x30
    } else if 0x41 <= b && b <= 0x46 {
        b - 0x41 + 10
    } else if 0x61 <= b && b <= 0x66 {
        b - 0x61 + 10
    } else {
        0
    }
}

/// The number that `digits` write in base 10 or 16, where it is at most
/// `limit`; `None` where it is more.
pub(crate) fn number_of(digits: &[u8], base: u8, limit: u64) -> (r: Option<u64>)
    requires
        base == 10 || base == 16,
    ensures
        r == if value_of(digits@, base as nat) <= limit {
            Some(value_of(digits@, base as nat) as u64)
        } else {
            None
        },
{
    let mut acc: u128 = 0;
    let mut i: usize = 0;
    while i < digits.len()
        invariant
            i <= digits@.len(),
            base == 10 || base == 16,
            acc == value_of(digits@.take(i as int), base as nat),
            acc <= limit,
        decreases digits@.len() - i,
    {
        let d = digit_of(digits[i]);
        proof {
            assert(digits@.take(i + 1).drop_last() =~= digits@.take(i as int));
            assert(acc * base <= 0xFFFF_FFFF_FFFF_FFFF * 16) by (nonlinear_arith)
                requires
                    acc <= 0xFFFF_FFFF_FFFF_FFFF,
                    base <= 16,
            ;
        }
        let next: u128 = acc * (base as u128) + (d as u128);
        if next > limit as u128 {
            proof {
                lemma_value_of_prefix(digits@, base as nat, i + 1);
            }
            return None;
        }
        acc = next;
        i += 1;
    }
    assert(digits@.take(i as int) =~= digits@);
    Some(acc as u64)
}

/// Whether `b` opens an exponent: `e` or `E` of a decimal float, `p` or `P` of
/// a hexadecimal one.
pub open spec fn is_exponent_mark(b: u8, hex: bool) -> bool {
    if hex {
        b == 0x70 || b == 0x50
    } else {
        b == 0x65 || b == 0x45
    }
}

/// Whether `b` is `+` or `-`.
pub open spec fn is_sign(b: u8) -> bool {
    b == 0x2B || b == 0x2D
}

/// The class of the digits of a float: decimal, or hexadecimal in mantissa and
/// exponent alike.
pub open spec fn digits_class(hex: bool) -> Class {
    if hex {
        Class::HexDigit
    } else {
        Class::Digit
    }
}

/// The length of the exponent that `s` begins with: its mark, an optional sign
/// and one or more digits.
pub open spec fn exponent_len(s: Seq<u8>, hex: bool) -> Result<int, ParseFailure> {
    if s.len() == 0 {
        Err(ParseFailure::IncompleteInput)
    } else if !is_exponent_mark(s[0], hex) {
        Err(ParseFailure::SyntaxMismatch)
    } else {
        let sign: int = if s.len() > 1 && is_sign(s[1]) {
            1
        } else {
            0
        };
        let digits = run_len(s.skip(1 + sign), digits_class(hex));
        if digits > 0 {
            Ok(1 + sign + digits)
        } else if s.len() == 1 + sign {
            Err(ParseFailure::IncompleteInput)
        } else {
            Err(ParseFailure::SyntaxMismatch)
        }
    }
}

/// The length of the float that `s` begins with, the prefix `0x` of a
/// hexadecimal float not counted. A float is digits, a point and optional
/// digits; or optional digits, a point and digits; each with an optional
/// exponent; or digits and an exponent. Digits alone are no float.
pub open spec fn float_len(s: Seq<u8>, hex: bool) -> Result<int, ParseFailure> {
    let whole = run_len(s, digits_class(hex)) as int;
    if whole < s.len() && s[whole] == 0x2E {
        let fraction = run_len(s.skip(whole + 1), digits_class(hex)) as int;
        let mantissa = whole + 1 + fraction;
        if whole + fraction == 0 {
            if s.len() == 1 {
                Err(ParseFailure::IncompleteInput)
            } else {
                Err(ParseFailure::SyntaxMismatch)
            }
        } else {
            match exponent_len(s.skip(mantissa), hex) {
                Ok(e) => Ok(mantissa + e),
                Err(_) => Ok(mantissa),
            }
        }
    } else if whole > 0 {
        match exponent_len(s.skip(whole), hex) {
            Ok(e) => Ok(whole + e),
            Err(e) => Err(e),
        }
    } else if s.len() == 0 {
        Err(ParseFailure::IncompleteInput)
    } else {
        Err(ParseFailure::SyntaxMismatch)
    }
}

/// The prefix `0x` or `0X`.
pub open spec fn hex_prefix(s: Seq<u8>) -> Outcome<()> {
    if s.len() >= 2 && s[0] == 0x30 && (s[1] == 0x78 || s[1] == 0x58) {
        Ok((s.skip(2), ()))
    } else if s.len() == 0 || (s.len() == 1 && s[0] == 0x30) {
        Err(ParseFailure::IncompleteInput)
    } else {
        Err(ParseFailure::SyntaxMismatch)
    }
}

/// A hexadecimal float: `0x` or `0X`, then a float in hexadecimal digits with
/// the exponent mark `p` or `P`.
pub open spec fn hex_float(s: Seq<u8>) -> Outcome<Numeral> {
    match hex_prefix(s) {
        Ok((body, _)) => match float_len(body, true) {
            Ok(n) => Ok((s.skip(2 + n), Numeral::Float(text_of(s.take(2 + n))))),
            Err(e) => Err(e),
        },
        Err(e) => Err(e),
    }
}

/// A hexadecimal integer: `0x` or `0X` and one or more hexadecimal digits,
/// whose value fits 64 bits signed; malformed where it does not.
pub open spec fn hex_int(s: Seq<u8>) -> Outcome<Numeral> {
    match hex_prefix(s) {
        Ok((body, _)) => match run(body, Class::HexDigit) {
            Ok((rest, digits)) => if value_of(digits, 16) <= i64::MAX {
                Ok((rest, Numeral::Integer(value_of(digits, 16) as int)))
            } else {
                Err(ParseFailure::MalformedLiteral)
            },
            Err(e) => Err(e),
        },
        Err(e) => Err(e),
    }
}

/// A decimal float.
pub open spec fn decimal_float(s: Seq<u8>) -> Outcome<Numeral> {
    match float_len(s, false) {
        Ok(n) => Ok((s.skip(n), Numeral::Float(text_of(s.take(n))))),
        Err(e) => Err(e),
    }
}

/// A decimal integer: one or more digits whose value fits 64 bits signed;
/// malformed where it does not.
pub open spec fn decimal_int(s: Seq<u8>) -> Outcome<Numeral> {
    match run(s, Class::Digit) {
        Ok((rest, digits)) => if value_of(digits, 10) <= i64::MAX {
            Ok((rest, Numeral::Integer(value_of(digits, 10) as int)))
        } else {
            Err(ParseFailure::MalformedLiteral)
        },
        Err(e) => Err(e),
    }
}

/// One or more decimal digits, read as a float whatever their value.
pub open spec fn decimal_int_overflow(s: Seq<u8>) -> Outcome<Numeral> {
    match run(s, Class::Digit) {
        Ok((rest, digits)) => Ok((rest, Numeral::Float(text_of(digits)))),
        Err(e) => Err(e),
    }
}

/// The first of two outcomes that is a success; where both fail, the
/// weightier failure.
pub open spec fn either<T>(first: Outcome<T>, second: Outcome<T>) -> Outcome<T> {
    match first {
        Ok(found) => Ok(found),
        Err(e) => match second {
            Ok(found) => Ok(found),
            Err(later) => Err(e.or(later)),
        },
    }
}

/// A numeral: the first that matches of hexadecimal float, hexadecimal
/// integer, decimal float, decimal integer, and decimal integer too large for
/// 64 bits, which is read as a float.
pub open spec fn number(s: Seq<u8>) -> Outcome<Numeral> {
    either(
        either(either(either(hex_float(s), hex_int(s)), decimal_float(s)), decimal_int(s)),
        decimal_int_overflow(s),
    )
}

/// The length of the exponent that `input` begins with.
fn exponent_length(input: &[u8], hex: bool) -> (r: Result<usize, ParseFailure>)
    ensures
        match r {
            Ok(n) => exponent_len(input@, hex) == Ok::<int, ParseFailure>(n as int) && n
                <= input@.len(),
            Err(e) => exponent_len(input@, hex) == Err::<int, _>(e),
        },
{
    if input.len() == 0 {
        return Err(ParseFailure::IncompleteInput);
    }
    let mark = input[0];
    let marked = if hex {
        mark == 0x70 || mark == 0x50
    } else {
        mark == 0x65 || mark == 0x45
    };
    if !marked {
        return Err(ParseFailure::SyntaxMismatch);
    }
    let sign: usize = if input.len() > 1 && (input[1] == 0x2B || input[1] == 0x2D) {
        1
    } else {
        0
    };
    let class = if hex {
        Class::HexDigit
    } else {
        Class::Digit
    };
    let digits = run_of(from(input, 1 + sign), class);
    proof {
        lemma_run_len(input@.skip(1 + sign), class);
    }
    if digits > 0 {
        Ok(1 + sign + digits)
    } else if input.len() == 1 + sign {
        Err(ParseFailure::IncompleteInput)
    } else {
        Err(ParseFailure::SyntaxMismatch)
    }
}

/// The length of the float that `input` begins with.
fn float_length(input: &[u8], hex: bool) -> (r: Result<usize, ParseFailure>)
    ensures
        match r {
            Ok(n) => float_len(input@, hex) == Ok::<int, ParseFailure>(n as int) && n
                <= input@.len(),
            Err(e) => float_len(input@, hex) == Err::<int, _>(e),
        },
{
    let class = if hex {
        Class::HexDigit
    } else {
        Class::Digit
    };
    let whole = run_of(input, class);
    proof {
        lemma_run_len(input@, class);
    }
    if whole < input.len() && input[whole] == 0x2E {
        let fraction = run_of(from(input, whole + 1), class);
        proof {
            lemma_run_len(input@.skip(whole + 1), class);
        }
        let mantissa = whole + 1 + fraction;
        if whole + fraction == 0 {
            if input.len() == 1 {
                Err(ParseFailure::IncompleteInput)
            } else {
                Err(ParseFailure::SyntaxMismatch)
            }
        } else {
            match exponent_length(from(input, mantissa), hex) {
                Ok(e) => Ok(mantissa + e),
                Err(_) => Ok(mantissa),
            }
        }
    } else if whole > 0 {
        match exponent_length(from(input, whole), hex) {
            Ok(e) => Ok(whole + e),
            Err(e) => Err(e),
        }
    } else if input.len() == 0 {
        Err(ParseFailure::IncompleteInput)
    } else {
        Err(ParseFailure::SyntaxMismatch)
    }
}

/// Reads the prefix `0x` or `0X`.
fn parse_hex_prefix<'a>(input: &'a [u8]) -> (r: Parsed<'a, ()>)
    ensures
        seen(r) == hex_prefix(input@),
{
    if input.len() >= 2 && input[0] == 0x30 && (input[1] == 0x78 || input[1] == 0x58) {
        Ok((from(input, 2), ()))
    } else if input.len() == 0 || (input.len() == 1 && input[0] == 0x30) {
        Err(ParseFailure::IncompleteInput)
    } else {
        Err(ParseFailure::SyntaxMismatch)
    }
}

/// Reads a hexadecimal float.
pub fn parse_hex_float<'a>(input: &'a [u8]) -> (r: Parsed<'a, Number>)
    ensures
        seen(r) == hex_float(input@),
        r matches Ok((rest, _)) ==> rest@.len() < input@.len(),
{
    match parse_hex_prefix(input) {
        Ok((body, _)) => match float_length(body, true) {
            Ok(n) => {
                let end = input.len() - body.len() + n;
                let text = to_text(slice_subrange(input, 0, end));
                Ok((from(input, end), Number::Float(text)))
            },
            Err(e) => Err(e),
        },
        Err(e) => Err(e),
    }
}

/// Reads a hexadecimal integer.
pub fn parse_hex_int<'a>(input: &'a [u8]) -> (r: Parsed<'a, Number>)
    ensures
        seen(r) == hex_int(input@),
        r matches Ok((rest, _)) ==> rest@.len() < input@.len(),
{
    proof {
        lemma_run_len(input@.skip(2), Class::HexDigit);
    }
    match parse_hex_prefix(input) {
        Ok((body, _)) => match crate::lexical::hex_digit(body) {
            Ok((rest, digits)) => match number_of(digits, 16, i64::MAX as u64) {
                Some(value) => Ok((rest, Number::Integer(value as i64))),
                None => Err(ParseFailure::MalformedLiteral),
            },
            Err(e) => Err(e),
        },
        Err(e) => Err(e),
    }
}

/// Reads a decimal float.
pub fn parse_float<'a>(input: &'a [u8]) -> (r: Parsed<'a, Number>)
    ensures
        seen(r) == decimal_float(input@),
        r matches Ok((rest, _)) ==> rest@.len() < input@.len(),
{
    match float_length(input, false) {
        Ok(n) => {
            let text = to_text(slice_subrange(input, 0, n));
            Ok((from(input, n), Number::Float(text)))
        },
        Err(e) => Err(e),
    }
}

/// Reads a decimal integer that fits 64 bits signed.
pub fn parse_int<'a>(input: &'a [u8]) -> (r: Parsed<'a, Number>)
    ensures
        seen(r) == decimal_int(input@),
        r matches Ok((rest, _)) ==> rest@.len() < input@.len(),
{
    proof {
        lemma_run_len(input@, Class::Digit);
    }
    match crate::lexical::digit(input) {
        Ok((rest, digits)) => match number_of(digits, 10, i64::MAX as u64) {
            Some(value) => Ok((rest, Number::Integer(value as i64))),
            None => Err(ParseFailure::MalformedLiteral),
        },
        Err(e) => Err(e),
    }
}

/// Reads decimal digits as a float.
pub fn parse_int_overflow<'a>(input: &'a [u8]) -> (r: Parsed<'a, Number>)
    ensures
        seen(r) == decimal_int_overflow(input@),
        r matches Ok((rest, _)) ==> rest@.len() < input@.len(),
{
    proof {
        lemma_run_len(input@, Class::Digit);
    }
    match crate::lexical::digit(input) {
        Ok((rest, digits)) => Ok((rest, Number::Float(to_text(digits)))),
        Err(e) => Err(e),
    }
}

/// Reads a numeral.
pub fn parse_number<'a>(input: &'a [u8]) -> (r: Parsed<'a, Number>)
    ensures
        seen(r) == number(input@),
        r matches Ok((rest, _)) ==> rest@.len() < input@.len(),
{
    let e = match parse_hex_float(input) {
        Ok(found) => {
            return Ok(found);
        },
        Err(e) => e,
    };
    let e = match parse_hex_int(input) {
        Ok(found) => {
            return Ok(found);
        },
        Err(later) => e.join(later),
    };
    let e = match parse_float(input) {
        Ok(found) => {
            return Ok(found);
        },
        Err(later) => e.join(later),
    };
    let e = match parse_int(input) {
        Ok(found) => {
            return Ok(found);
        },
        Err(later) => e.join(later),
    };
    match parse_int_overflow(input) {
        Ok(found) => Ok(found),
        Err(later) => Err(e.join(later)),
    }
}

/// Whether `digits` is one or more decimal digits.
pub open spec fn is_decimal(digits: Seq<u8>) -> bool {
    &&& digits.len() > 0
    &&& forall|i: int| 0 <= i < digits.len() ==> Class::Digit.has(#[trigger] digits[i])
}

/// Decimal digits alone are neither a hexadecimal numeral nor a float, and
/// the run of digits they begin with is all of them.
proof fn lemma_decimal_alone(digits: Seq<u8>)
    requires
        is_decimal(digits),
    ensures
        hex_float(digits) is Err,
        hex_int(digits) is Err,
        decimal_float(digits) is Err,
        run(digits, Class::Digit) == Ok::<_, ParseFailure>((Seq::<u8>::empty(), digits)),
{
    lemma_run_len_unique(digits, Class::Digit, digits.len() as int);
    assert(digits.take(digits.len() as int) =~= digits);
    assert(digits.skip(digits.len() as int) =~= Seq::<u8>::empty());
    assert(Class::Digit.has(digits[0]));
    if digits.len() >= 2 {
        assert(Class::Digit.has(digits[1]));
    }
}

/// Decimal digits whose value fits 64 bits signed read as the integer of that
/// value, and nothing is left over.
pub proof fn law_decimal_fits(digits: Seq<u8>)
    requires
        is_decimal(digits),
        value_of(digits, 10) <= i64::MAX,
    ensures
        number(digits) == Ok::<_, ParseFailure>(
            (Seq::<u8>::empty(), Numeral::Integer(value_of(digits, 10) as int)),
        ),
{
    lemma_decimal_alone(digits);
}

/// Decimal digits whose value does not fit 64 bits signed read as a float
/// with those digits as its text, and nothing is left over.
pub proof fn law_decimal_overflows(digits: Seq<u8>)
    requires
        is_decimal(digits),
        value_of(digits, 10) > i64::MAX,
    ensures
        number(digits) == Ok::<_, ParseFailure>(
            (Seq::<u8>::empty(), Numeral::Float(text_of(digits))),
        ),
{
    lemma_decimal_alone(digits);
}

/// Input that begins with `+` or `-` holds no numeral at its start.
pub proof fn law_sign_is_no_numeral(s: Seq<u8>)
    requires
        s.len() > 0,
        is_sign(s[0]),
    ensures
        number(s) == Err::<(Seq<u8>, Numeral), _>(ParseFailure::SyntaxMismatch),
        hex_float(s) is Err,
        hex_int(s) is Err,
        decimal_float(s) is Err,
        decimal_int(s) is Err,
        decimal_int_overflow(s) is Err,
{
    assert(run_len(s, Class::Digit) == 0);
}

} // verus!
