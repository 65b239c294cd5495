use nom_lua::error::ParseFailure;
use nom_lua::number::{
    parse_float, parse_hex_float, parse_hex_int, parse_int, parse_int_overflow, parse_number,
    Number,
};

/// The double that a decimal float numeral stands for.
fn decimal(n: &Number) -> f64 {
    match n {
        Number::Float(text) => text.parse::<f64>().unwrap(),
        Number::Integer(value) => *value as f64,
    }
}

/// The double that a hexadecimal float numeral stands for, for numerals short
/// enough to be computed exactly in doubles.
fn hexadecimal(n: &Number) -> f64 {
    let text = match n {
        Number::Float(text) => text.to_lowercase(),
        Number::Integer(value) => return *value as f64,
    };
    let body = &text[2..];
    let (mantissa, exponent) = match body.find('p') {
        Some(at) => (&body[..at], body[at + 1..].parse::<i32>().unwrap()),
        None => (body, 0),
    };
    let (whole, fraction) = match mantissa.find('.') {
        Some(at) => (&mantissa[..at], &mantissa[at + 1..]),
        None => (mantissa, ""),
    };
    let mut value = 0f64;
    for c in whole.chars() {
        value = value * 16.0 + c.to_digit(16).unwrap() as f64;
    }
    let mut scale = 1f64 / 16.0;
    for c in fraction.chars() {
        value += c.to_digit(16).unwrap() as f64 * scale;
        scale /= 16.0;
    }
    value * 2f64.powi(exponent)
}

#[test]
fn parse_int_1() {
    assert_eq!(parse_int("20".as_bytes()).unwrap().1, Number::Integer(20));
}

#[test]
fn parse_int_3() {
    assert_eq!(
        parse_int("5678987656789876520999999999999".as_bytes()),
        Err(ParseFailure::MalformedLiteral)
    );
}

#[test]
fn parse_int_4() {
    assert_eq!(parse_int("-20".as_bytes()), Err(ParseFailure::SyntaxMismatch));
}

#[test]
fn parse_int_5() {
    assert_eq!(parse_int("+20".as_bytes()), Err(ParseFailure::SyntaxMismatch));
}

#[test]
fn parse_int_largest() {
    assert_eq!(
        parse_int("9223372036854775807".as_bytes()).unwrap().1,
        Number::Integer(i64::MAX)
    );
    assert_eq!(
        parse_int("9223372036854775808".as_bytes()),
        Err(ParseFailure::MalformedLiteral)
    );
}

#[test]
fn parse_int_leaves_the_rest() {
    let (rest, n) = parse_int("12ab".as_bytes()).unwrap();
    assert_eq!(rest, "ab".as_bytes());
    assert_eq!(n, Number::Integer(12));
}

#[test]
fn parse_int_empty_is_incomplete() {
    assert_eq!(parse_int("".as_bytes()), Err(ParseFailure::IncompleteInput));
}

#[test]
fn parse_int_overflow_reads_any_digits() {
    assert_eq!(
        parse_int_overflow("20".as_bytes()).unwrap().1,
        Number::Float("20".to_string())
    );
}

#[test]
fn parse_hex_1() {
    assert_eq!(parse_hex_int("0X20".as_bytes()).unwrap().1, Number::Integer(0x20));
}

#[test]
fn parse_hex_2() {
    assert_eq!(parse_hex_int("0x20".as_bytes()).unwrap().1, Number::Integer(0x20));
}

#[test]
fn parse_hex_3() {
    assert_eq!(parse_hex_int("0x20a".as_bytes()).unwrap().1, Number::Integer(0x20A));
}

#[test]
fn parse_hex_4() {
    assert_eq!(parse_hex_int("0x20aB".as_bytes()).unwrap().1, Number::Integer(0x20AB));
}

#[test]
fn parse_hex_5() {
    assert_eq!(parse_hex_int("0X20F".as_bytes()).unwrap().1, Number::Integer(0x20F));
}

#[test]
fn parse_hex_6() {
    assert_eq!(parse_hex_int("20".as_bytes()), Err(ParseFailure::SyntaxMismatch));
}

#[test]
fn parse_hex_7() {
    assert_eq!(parse_hex_int("-0x20".as_bytes()), Err(ParseFailure::SyntaxMismatch));
}

#[test]
fn parse_hex_8() {
    assert_eq!(parse_hex_int("+0x20".as_bytes()), Err(ParseFailure::SyntaxMismatch));
}

#[test]
fn parse_hex_too_large_is_malformed() {
    assert_eq!(
        parse_hex_int("0x7FFFFFFFFFFFFFFF".as_bytes()).unwrap().1,
        Number::Integer(i64::MAX)
    );
    assert_eq!(
        parse_hex_int("0x8000000000000000".as_bytes()),
        Err(ParseFailure::MalformedLiteral)
    );
}

#[test]
fn parse_hex_prefix_alone_is_incomplete() {
    assert_eq!(parse_hex_int("0x".as_bytes()), Err(ParseFailure::IncompleteInput));
    assert_eq!(parse_hex_int("0".as_bytes()), Err(ParseFailure::IncompleteInput));
}

#[test]
fn parse_float_1() {
    assert_eq!(decimal(&parse_float("3.0".as_bytes()).unwrap().1), 3.0);
}

#[test]
fn parse_float_2() {
    assert_eq!(decimal(&parse_float(".1".as_bytes()).unwrap().1), 0.1);
}

#[test]
fn parse_float_3() {
    assert_eq!(decimal(&parse_float("1.".as_bytes()).unwrap().1), 1.0);
}

#[test]
fn parse_float_4() {
    assert_eq!(decimal(&parse_float("3.1416".as_bytes()).unwrap().1), 3.1416);
}

#[test]
fn parse_float_5() {
    assert_eq!(decimal(&parse_float("314.16e-2".as_bytes()).unwrap().1), 314.16e-2);
}

#[test]
fn parse_float_6() {
    assert_eq!(decimal(&parse_float("0.31416E1".as_bytes()).unwrap().1), 0.31416E1);
}

#[test]
fn parse_float_7() {
    assert_eq!(decimal(&parse_float("34e1".as_bytes()).unwrap().1), 340.0);
}

#[test]
fn parse_float_8() {
    assert_eq!(decimal(&parse_float("34e+1".as_bytes()).unwrap().1), 340.0);
}

#[test]
fn parse_float_9() {
    assert_eq!(decimal(&parse_float("34e-1".as_bytes()).unwrap().1), 3.4);
}

#[test]
fn parse_float_10() {
    assert_eq!(decimal(&parse_float("34.e-1".as_bytes()).unwrap().1), 3.4);
}

#[test]
fn parse_float_11() {
    assert_eq!(decimal(&parse_float(".2e1".as_bytes()).unwrap().1), 2.0);
}

#[test]
fn parse_float_12() {
    assert_eq!(parse_float(".e1".as_bytes()), Err(ParseFailure::SyntaxMismatch));
}

#[test]
fn parse_float_13() {
    assert_eq!(parse_float("-20.0".as_bytes()), Err(ParseFailure::SyntaxMismatch));
}

#[test]
fn parse_float_14() {
    assert_eq!(parse_float("+20.0".as_bytes()), Err(ParseFailure::SyntaxMismatch));
}

#[test]
fn parse_float_15() {
    let text = format!("{:.64}", 1.0);
    assert_eq!(decimal(&parse_float(text.as_bytes()).unwrap().1), 1.0);
}

#[test]
fn parse_float_keeps_its_text() {
    let (rest, n) = parse_float("314.16e-2 rest".as_bytes()).unwrap();
    assert_eq!(n, Number::Float("314.16e-2".to_string()));
    assert_eq!(rest, " rest".as_bytes());
}

#[test]
fn parse_float_digits_alone_are_no_float() {
    assert_eq!(parse_float("20".as_bytes()), Err(ParseFailure::IncompleteInput));
    assert_eq!(parse_float("20 ".as_bytes()), Err(ParseFailure::SyntaxMismatch));
}

#[test]
fn parse_float_exponent_needs_digits() {
    let (rest, n) = parse_float("1.5e+".as_bytes()).unwrap();
    assert_eq!(n, Number::Float("1.5".to_string()));
    assert_eq!(rest, "e+".as_bytes());
}

#[test]
fn parse_float_point_alone() {
    assert_eq!(parse_float(".".as_bytes()), Err(ParseFailure::IncompleteInput));
}

#[test]
fn parse_hex_float_1() {
    assert_eq!(hexadecimal(&parse_hex_float("0x1.0".as_bytes()).unwrap().1), 1.0);
}

#[test]
fn parse_hex_float_2() {
    assert_eq!(hexadecimal(&parse_hex_float("0xFF.0p0".as_bytes()).unwrap().1), 255.0);
}

#[test]
fn parse_hex_float_3() {
    assert_eq!(hexadecimal(&parse_hex_float("0x0.1E".as_bytes()).unwrap().1), 0.1171875);
}

#[test]
fn parse_hex_float_4() {
    assert_eq!(hexadecimal(&parse_hex_float("0x0.p1".as_bytes()).unwrap().1), 0.0);
}

#[test]
fn parse_hex_float_5() {
    assert_eq!(hexadecimal(&parse_hex_float("0X0.".as_bytes()).unwrap().1), 0.0);
}

#[test]
fn parse_hex_float_7() {
    assert_eq!(
        hexadecimal(&parse_hex_float("0x1.9f1a12718ed76p-67".as_bytes()).unwrap().1),
        1.0987654321e-20
    );
}

#[test]
fn parse_hex_float_keeps_its_text() {
    assert_eq!(
        parse_hex_float("0x1p4".as_bytes()).unwrap().1,
        Number::Float("0x1p4".to_string())
    );
    assert_eq!(
        parse_hex_float("0x.8P-1,".as_bytes()).unwrap(),
        (",".as_bytes(), Number::Float("0x.8P-1".to_string()))
    );
}

#[test]
fn parse_hex_float_needs_point_or_exponent() {
    assert_eq!(parse_hex_float("0x20".as_bytes()), Err(ParseFailure::IncompleteInput));
    assert_eq!(parse_hex_float("0x20 ".as_bytes()), Err(ParseFailure::SyntaxMismatch));
}

#[test]
fn parse_number_1() {
    assert_eq!(parse_number("20".as_bytes()).unwrap().1, Number::Integer(20));
}

#[test]
fn parse_number_2() {
    assert_eq!(decimal(&parse_number("20.0".as_bytes()).unwrap().1), 20.0);
}

#[test]
fn parse_number_3() {
    assert_eq!(parse_number("0x20".as_bytes()).unwrap().1, Number::Integer(0x20));
}

#[test]
fn parse_number_4() {
    let n = parse_number("1000000000000000000000000".as_bytes()).unwrap().1;
    assert_eq!(n, Number::Float("1000000000000000000000000".to_string()));
    assert_eq!(decimal(&n), 1e+24);
}

#[test]
fn parse_number_hex_upper() {
    assert_eq!(parse_number("0X20F".as_bytes()).unwrap().1, Number::Integer(527));
}

#[test]
fn parse_number_floats() {
    assert_eq!(decimal(&parse_number("3.1416".as_bytes()).unwrap().1), 3.1416);
    assert_eq!(decimal(&parse_number(".1".as_bytes()).unwrap().1), 0.1);
    assert_eq!(decimal(&parse_number("1.".as_bytes()).unwrap().1), 1.0);
}

#[test]
fn parse_number_sign_is_no_numeral() {
    assert_eq!(parse_number("-20".as_bytes()), Err(ParseFailure::SyntaxMismatch));
    assert_eq!(parse_number("+20".as_bytes()), Err(ParseFailure::SyntaxMismatch));
    assert_eq!(parse_number("-0x20".as_bytes()), Err(ParseFailure::SyntaxMismatch));
    assert_eq!(parse_number("+.5".as_bytes()), Err(ParseFailure::SyntaxMismatch));
}

#[test]
fn parse_number_nothing_is_incomplete() {
    assert_eq!(parse_number("".as_bytes()), Err(ParseFailure::IncompleteInput));
}

#[test]
fn parse_number_hex_too_large_falls_back() {
    // The hexadecimal forms fail, and the digit `0` is a decimal integer.
    let (rest, n) = parse_number("0x8000000000000000".as_bytes()).unwrap();
    assert_eq!(n, Number::Integer(0));
    assert_eq!(rest, "x8000000000000000".as_bytes());
}

#[test]
fn parse_number_integer_followed_by_space() {
    let (rest, n) = parse_number("20 ".as_bytes()).unwrap();
    assert_eq!(n, Number::Integer(20));
    assert_eq!(rest, " ".as_bytes());
}

fn decimal_digits_read_as_written(x: u64) -> bool {
    let text = format!("{}", x);
    match parse_number(text.as_bytes()) {
        Ok((rest, Number::Integer(value))) => {
            rest.is_empty() && x <= i64::MAX as u64 && value == x as i64
        }
        Ok((rest, Number::Float(digits))) => {
            rest.is_empty() && x > i64::MAX as u64 && digits == text
        }
        Err(_) => false,
    }
}

#[test]
fn quickcheck_can_parse_default_int_formatter() {
    quickcheck::quickcheck(decimal_digits_read_as_written as fn(u64) -> bool);
    assert!(decimal_digits_read_as_written(0));
    assert!(decimal_digits_read_as_written(i64::MAX as u64));
    assert!(decimal_digits_read_as_written(i64::MAX as u64 + 1));
    assert!(decimal_digits_read_as_written(u64::MAX));
}

fn default_float_format_reads_back(x: f64) -> bool {
    if !x.is_finite() {
        return true;
    }
    let text = format!("{:.64}", x.abs());
    match parse_float(text.as_bytes()) {
        Ok((rest, n)) => rest.is_empty() && decimal(&n) == x.abs(),
        Err(_) => false,
    }
}

#[test]
fn quickcheck_can_parse_default_float_formatter() {
    quickcheck::quickcheck(default_float_format_reads_back as fn(f64) -> bool);
    assert!(default_float_format_reads_back(0.5));
}
