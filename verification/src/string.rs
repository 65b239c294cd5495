//! Short literal strings and their escapes.
//!
//! Between its quotes a string holds escapes and the control characters from
//! bell to carriage return, written as they are.
use crate::ast::{ASTNode, Tree};
use crate::error::{seen, Outcome, ParseFailure, Parsed};
use crate::lexical::{from, hex_digit, lemma_run_len, match_tag, run, tag, Class};
use crate::number::{digit_of, digit_value, either, number_of, value_of};
use vstd::prelude::*;
use vstd::slice::slice_subrange;

verus! {

/// Whether `v` is a Unicode scalar value: a code point that is no surrogate.
pub open spec fn is_scalar(v: nat) -> bool {
    v <= 0xD7FF || 0xE000 <= v <= 0x10FFFF
}

/// `char::from_u32` gives the character of a Unicode scalar value, and `None`
/// for any other number.
pub assume_specification[ char::from_u32 ](i: u32) -> (r: Option<char>)
    ensures
        r == if is_scalar(i as nat) {
            Some(i as char)
        } else {
            None::<char>
        },
;

/// A line continuation: a backslash and a line break, which is carriage
/// return and line feed, line feed and carriage return, or line feed alone. It
/// stands for one line feed.
pub open spec fn linebreak(s: Seq<u8>) -> Outcome<char> {
    match either(either(tag(s, "\\\r\n"@), tag(s, "\\\n\r"@)), tag(s, "\\\n"@)) {
        Ok((rest, _)) => Ok((rest, '\n')),
        Err(e) => Err(e),
    }
}

/// A byte in hexadecimal: `\x` and exactly two hexadecimal digits.
pub open spec fn byte_x(s: Seq<u8>) -> Outcome<char> {
    match tag(s, "\\x"@) {
        Ok((rest, _)) => if rest.len() >= 2 && Class::HexDigit.has(rest[0])
            && Class::HexDigit.has(rest[1]) {
            Ok((rest.skip(2), ((digit_value(rest[0]) * 16 + digit_value(rest[1])) as u8) as char))
        } else if rest.len() == 0 || (rest.len() == 1 && Class::HexDigit.has(rest[0])) {
            Err(ParseFailure::IncompleteInput)
        } else {
            Err(ParseFailure::SyntaxMismatch)
        },
        Err(e) => Err(e),
    }
}

/// A byte in decimal: a backslash and one to three decimal digits, as many as
/// are there. A value over 255 is malformed.
pub open spec fn byte_d(s: Seq<u8>) -> Outcome<char> {
    match tag(s, "\\"@) {
        Ok((rest, _)) => match run(rest, Class::Digit) {
            Ok((_, digits)) => {
                let n: int = if digits.len() < 3 {
                    digits.len() as int
                } else {
                    3
                };
                let value = value_of(rest.take(n), 10);
                if value <= 255 {
                    Ok((rest.skip(n), (value as u8) as char))
                } else {
                    Err(ParseFailure::MalformedLiteral)
                }
            },
            Err(e) => Err(e),
        },
        Err(e) => Err(e),
    }
}

/// A byte escape, hexadecimal or decimal.
pub open spec fn byte(s: Seq<u8>) -> Outcome<char> {
    either(byte_x(s), byte_d(s))
}

/// A code point: `\u{`, one or more hexadecimal digits and `}`. A number that
/// is no Unicode scalar value is malformed.
pub open spec fn unicode(s: Seq<u8>) -> Outcome<char> {
    match tag(s, "\\u{"@) {
        Ok((rest, _)) => match run(rest, Class::HexDigit) {
            Ok((rest, digits)) => match tag(rest, "}"@) {
                Ok((rest, _)) => if is_scalar(value_of(digits, 16)) {
                    Ok((rest, value_of(digits, 16) as char))
                } else {
                    Err(ParseFailure::MalformedLiteral)
                },
                Err(e) => Err(e),
            },
            Err(e) => Err(e),
        },
        Err(e) => Err(e),
    }
}

/// One of the control characters from bell (7) to carriage return (13),
/// written as it is.
pub open spec fn control(s: Seq<u8>) -> Outcome<char> {
    if s.len() == 0 {
        Err(ParseFailure::IncompleteInput)
    } else if 0x07 <= s[0] <= 0x0D {
        Ok((s.skip(1), s[0] as char))
    } else {
        Err(ParseFailure::SyntaxMismatch)
    }
}

/// One character of a string: the first that matches of line continuation,
/// byte escape, code point and control character.
pub open spec fn item(s: Seq<u8>) -> Outcome<char> {
    either(either(either(linebreak(s), byte(s)), unicode(s)), control(s))
}

/// The characters of a string up to its closing quote, which is `quote`, added
/// to those `found` before.
pub open spec fn items(s: Seq<u8>, quote: u8, found: Seq<char>) -> Outcome<Seq<char>>
    decreases s.len(),
{
    if s.len() == 0 {
        Err(ParseFailure::IncompleteInput)
    } else if s[0] == quote {
        Ok((s.skip(1), found))
    } else {
        match item(s) {
            Ok((rest, c)) => if rest.len() < s.len() {
                items(rest, quote, found.push(c))
            } else {
                Err(ParseFailure::SyntaxMismatch)
            },
            Err(e) => Err(e),
        }
    }
}

/// A short literal string: a quote, single or double, the characters, and the
/// same quote again. Its value is the characters, decoded.
pub open spec fn short_literal(s: Seq<u8>) -> Outcome<Seq<char>> {
    if s.len() == 0 {
        Err(ParseFailure::IncompleteInput)
    } else if s[0] == 0x22 || s[0] == 0x27 {
        items(s.skip(1), s[0], Seq::empty())
    } else {
        Err(ParseFailure::SyntaxMismatch)
    }
}

/// A string as a node.
pub open spec fn string(s: Seq<u8>) -> Outcome<Tree> {
    match short_literal(s) {
        Ok((rest, text)) => Ok((rest, Tree::Text(text))),
        Err(e) => Err(e),
    }
}

/// What an executable result that holds a character stands for.
pub open spec fn seen_char(r: Result<(&[u8], char), ParseFailure>) -> Outcome<char> {
    match r {
        Ok((rest, c)) => Ok((rest@, c)),
        Err(e) => Err(e),
    }
}

/// What an executable result that holds a string stands for.
pub open spec fn seen_text(r: Result<(&[u8], String), ParseFailure>) -> Outcome<Seq<char>> {
    match r {
        Ok((rest, text)) => Ok((rest@, text@)),
        Err(e) => Err(e),
    }
}

/// Whether `b` is a hexadecimal digit.
fn is_hex(b: u8) -> (r: bool)
    ensures
        r == Class::HexDigit.has(b),
{
    (0x30 <= b && b <= 0x39) || (0x41 <= b && b <= 0x46) || (0x61 <= b && b <= 0x66)
}

/// Reads a line continuation.
pub fn parse_linebreak<'a>(input: &'a [u8]) -> (r: Parsed<'a, char>)
    ensures
        seen_char(r) == linebreak(input@),
        r matches Ok((rest, _)) ==> rest@.len() <= input@.len(),
{
    let e = match match_tag(input, "\\\r\n") {
        Ok((rest, _)) => {
            return Ok((rest, '\n'));
        },
        Err(e) => e,
    };
    let e = match match_tag(input, "\\\n\r") {
        Ok((rest, _)) => {
            return Ok((rest, '\n'));
        },
        Err(later) => e.join(later),
    };
    match match_tag(input, "\\\n") {
        Ok((rest, _)) => Ok((rest, '\n')),
        Err(later) => Err(e.join(later)),
    }
}

/// Reads a byte in hexadecimal.
pub fn parse_byte_x<'a>(input: &'a [u8]) -> (r: Parsed<'a, char>)
    ensures
        seen_char(r) == byte_x(input@),
        r matches Ok((rest, _)) ==> rest@.len() <= input@.len(),
{
    match match_tag(input, "\\x") {
        Ok((rest, _)) => {
            if rest.len() >= 2 && is_hex(rest[0]) && is_hex(rest[1]) {
                let value: u8 = digit_of(rest[0]) * 16 + digit_of(rest[1]);
                Ok((from(rest, 2), value as char))
            } else if rest.len() == 0 || (rest.len() == 1 && is_hex(rest[0])) {
                Err(ParseFailure::IncompleteInput)
            } else {
                Err(ParseFailure::SyntaxMismatch)
            }
        },
        Err(e) => Err(e),
    }
}

/// Reads a byte in decimal.
pub fn parse_byte_d<'a>(input: &'a [u8]) -> (r: Parsed<'a, char>)
    ensures
        seen_char(r) == byte_d(input@),
        r matches Ok((rest, _)) ==> rest@.len() <= input@.len(),
{
    match match_tag(input, "\\") {
        Ok((rest, _)) => match crate::lexical::digit(rest) {
            Ok((_, digits)) => {
                proof {
                    lemma_run_len(rest@, Class::Digit);
                }
                let n: usize = if digits.len() < 3 {
                    digits.len()
                } else {
                    3
                };
                match number_of(slice_subrange(rest, 0, n), 10, 255) {
                    Some(value) => Ok((from(rest, n), (value as u8) as char)),
                    None => Err(ParseFailure::MalformedLiteral),
                }
            },
            Err(e) => Err(e),
        },
        Err(e) => Err(e),
    }
}

/// Reads a byte escape.
pub fn parse_byte<'a>(input: &'a [u8]) -> (r: Parsed<'a, char>)
    ensures
        seen_char(r) == byte(input@),
        r matches Ok((rest, _)) ==> rest@.len() <= input@.len(),
{
    match parse_byte_x(input) {
        Ok(found) => Ok(found),
        Err(e) => match parse_byte_d(input) {
            Ok(found) => Ok(found),
            Err(later) => Err(e.join(later)),
        },
    }
}

/// Reads a code point.
pub fn parse_unicode<'a>(input: &'a [u8]) -> (r: Parsed<'a, char>)
    ensures
        seen_char(r) == unicode(input@),
        r matches Ok((rest, _)) ==> rest@.len() <= input@.len(),
{
    match match_tag(input, "\\u{") {
        Ok((body, _)) => match hex_digit(body) {
            Ok((rest, digits)) => match match_tag(rest, "}") {
                Ok((rest, _)) => {
                    proof {
                        lemma_run_len(body@, Class::HexDigit);
                    }
                    match number_of(digits, 16, 0x10FFFF) {
                        Some(value) => match char::from_u32(value as u32) {
                            Some(c) => Ok((rest, c)),
                            None => Err(ParseFailure::MalformedLiteral),
                        },
                        None => Err(ParseFailure::MalformedLiteral),
                    }
                },
                Err(e) => Err(e),
            },
            Err(e) => Err(e),
        },
        Err(e) => Err(e),
    }
}

/// Reads a control character written as it is.
pub fn parse_control<'a>(input: &'a [u8]) -> (r: Parsed<'a, char>)
    ensures
        seen_char(r) == control(input@),
        r matches Ok((rest, _)) ==> rest@.len() <= input@.len(),
{
    if input.len() == 0 {
        Err(ParseFailure::IncompleteInput)
    } else if 0x07 <= input[0] && input[0] <= 0x0D {
        Ok((from(input, 1), input[0] as char))
    } else {
        Err(ParseFailure::SyntaxMismatch)
    }
}

/// Reads one character of a string.
pub fn parse_item<'a>(input: &'a [u8]) -> (r: Parsed<'a, char>)
    ensures
        seen_char(r) == item(input@),
        r matches Ok((rest, _)) ==> rest@.len() <= input@.len(),
{
    let e = match parse_linebreak(input) {
        Ok(found) => {
            return Ok(found);
        },
        Err(e) => e,
    };
    let e = match parse_byte(input) {
        Ok(found) => {
            return Ok(found);
        },
        Err(later) => e.join(later),
    };
    let e = match parse_unicode(input) {
        Ok(found) => {
            return Ok(found);
        },
        Err(later) => e.join(later),
    };
    match parse_control(input) {
        Ok(found) => Ok(found),
        Err(later) => Err(e.join(later)),
    }
}

/// Reads a short literal string and gives its characters, decoded.
pub fn parse_string_short_literal<'a>(input: &'a [u8]) -> (r: Parsed<'a, String>)
    ensures
        seen_text(r) == short_literal(input@),
        r matches Ok((rest, _)) ==> rest@.len() < input@.len(),
{
    if input.len() == 0 {
        return Err(ParseFailure::IncompleteInput);
    }
    let quote = input[0];
    if !(quote == 0x22 || quote == 0x27) {
        return Err(ParseFailure::SyntaxMismatch);
    }
    let body = from(input, 1);
    let mut rest = body;
    let mut text = String::new();
    loop
        invariant
            input@.len() > 0,
            quote == input@[0],
            quote == 0x22 || quote == 0x27,
            body@ == input@.skip(1),
            rest@.len() <= body@.len(),
            items(body@, quote, Seq::empty()) == items(rest@, quote, text@),
        decreases rest@.len(),
    {
        if rest.len() == 0 {
            return Err(ParseFailure::IncompleteInput);
        }
        if rest[0] == quote {
            return Ok((from(rest, 1), text));
        }
        match parse_item(rest) {
            Ok((next, c)) => {
                if next.len() >= rest.len() {
                    return Err(ParseFailure::SyntaxMismatch);
                }
                text.push(c);
                rest = next;
            },
            Err(e) => {
                return Err(e);
            },
        }
    }
}

/// Reads a string.
pub fn parse_string<'a>(input: &'a [u8]) -> (r: Parsed<'a, ASTNode>)
    ensures
        seen(r) == string(input@),
        r matches Ok((rest, _)) ==> rest@.len() < input@.len(),
{
    match parse_string_short_literal(input) {
        Ok((rest, text)) => Ok((rest, ASTNode::String(text))),
        Err(e) => Err(e),
    }
}

} // verus!
