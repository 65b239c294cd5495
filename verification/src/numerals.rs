//! A numeral reads the same whatever follows it, so long as what follows
//! cannot belong to a numeral.
use crate::error::{Outcome, ParseFailure};
use crate::lexical::{lemma_run_len, lemma_run_len_unique, run, run_len, Class};
use crate::number::{
    decimal_float, decimal_int, decimal_int_overflow, digits_class, exponent_len, float_len,
    hex_float, hex_int, hex_prefix, is_exponent_mark, is_sign, number, Numeral,
};
use vstd::prelude::*;

verus! {

/// Whether `tail` may follow a numeral without being read as part of it: it
/// is empty, or begins with a byte that is no digit, decimal or hexadecimal,
/// no point, no sign, and none of `x`, `X`, `p` and `P`.
pub open spec fn ends_numeral(tail: Seq<u8>) -> bool {
    tail.len() == 0 || !(Class::HexDigit.has(tail[0]) || tail[0] == 0x2E || is_sign(tail[0])
        || tail[0] == 0x78 || tail[0] == 0x58 || tail[0] == 0x70 || tail[0] == 0x50)
}

/// Whether `after` is what a rule yields where `tail` is put after the input
/// on which it yields `before`: the same value with `tail` left over as well,
/// or a failure as before.
pub open spec fn carried<T>(before: Outcome<T>, after: Outcome<T>, tail: Seq<u8>) -> bool {
    match before {
        Ok((rest, value)) => after == Ok::<_, ParseFailure>((rest + tail, value)),
        Err(_) => after is Err,
    }
}

/// A run ends where it ended, where what follows is not of its class.
pub proof fn lemma_run_len_carried(w: Seq<u8>, tail: Seq<u8>, c: Class)
    requires
        tail.len() == 0 || !c.has(tail[0]),
    ensures
        run_len(w + tail, c) == run_len(w, c),
        run_len(w, c) <= w.len(),
        carried(run(w, c), run(w + tail, c), tail),
{
    let s = w + tail;
    let n = run_len(w, c) as int;
    lemma_run_len(w, c);
    assert forall|i: int| 0 <= i < n implies c.has(#[trigger] s[i]) by {
        assert(s[i] == w[i]);
    }
    if n < s.len() {
        if n < w.len() {
            assert(s[n] == w[n]);
        } else {
            assert(s[n] == tail[0]);
        }
    }
    lemma_run_len_unique(s, c, n);
    if w.len() > 0 {
        assert(s[0] == w[0]);
        assert(s.skip(n) =~= w.skip(n) + tail);
        assert(s.take(n) =~= w.take(n));
    } else {
        assert(s =~= tail);
    }
}

/// An exponent has the length it had, or there is none as before.
pub proof fn lemma_exponent_carried(x: Seq<u8>, tail: Seq<u8>, hex: bool)
    requires
        ends_numeral(tail),
    ensures
        match exponent_len(x, hex) {
            Ok(e) => exponent_len(x + tail, hex) == Ok::<int, ParseFailure>(e) && 0 <= e
                <= x.len(),
            Err(_) => exponent_len(x + tail, hex) is Err,
        },
{
    let s = x + tail;
    if x.len() == 0 {
        assert(s =~= tail);
    } else {
        assert(s[0] == x[0]);
        if is_exponent_mark(x[0], hex) {
            let sign: int = if x.len() > 1 && is_sign(x[1]) {
                1
            } else {
                0
            };
            if x.len() > 1 {
                assert(s[1] == x[1]);
            } else if tail.len() > 0 {
                assert(s[1] == tail[0]);
            }
            assert(s.skip(1 + sign) =~= x.skip(1 + sign) + tail);
            lemma_run_len_carried(x.skip(1 + sign), tail, digits_class(hex));
        }
    }
}

/// A float has the length it had, or there is none as before.
pub proof fn lemma_float_len_carried(w: Seq<u8>, tail: Seq<u8>, hex: bool)
    requires
        ends_numeral(tail),
    ensures
        match float_len(w, hex) {
            Ok(n) => float_len(w + tail, hex) == Ok::<int, ParseFailure>(n) && 0 <= n <= w.len(),
            Err(_) => float_len(w + tail, hex) is Err,
        },
{
    let s = w + tail;
    let c = digits_class(hex);
    let whole = run_len(w, c) as int;
    lemma_run_len_carried(w, tail, c);
    if whole < w.len() {
        assert(s[whole] == w[whole]);
    } else if tail.len() > 0 {
        assert(s[whole] == tail[0]);
    }
    if whole < w.len() && w[whole] == 0x2E {
        let fraction = run_len(w.skip(whole + 1), c) as int;
        assert(s.skip(whole + 1) =~= w.skip(whole + 1) + tail);
        lemma_run_len_carried(w.skip(whole + 1), tail, c);
        let mantissa = whole + 1 + fraction;
        assert(s.skip(mantissa) =~= w.skip(mantissa) + tail);
        lemma_exponent_carried(w.skip(mantissa), tail, hex);
    } else if whole > 0 {
        assert(s.skip(whole) =~= w.skip(whole) + tail);
        lemma_exponent_carried(w.skip(whole), tail, hex);
    } else {
        if w.len() == 0 {
            assert(s =~= tail);
        }
    }
}

/// The prefix `0x` is read as before.
pub proof fn lemma_hex_prefix_carried(w: Seq<u8>, tail: Seq<u8>)
    requires
        ends_numeral(tail),
    ensures
        carried(hex_prefix(w), hex_prefix(w + tail), tail),
        hex_prefix(w) is Ok ==> w.len() >= 2 && hex_prefix(w)->Ok_0.0 == w.skip(2),
{
    let s = w + tail;
    if w.len() >= 2 {
        assert(s[0] == w[0]);
        assert(s[1] == w[1]);
        assert(s.skip(2) =~= w.skip(2) + tail);
    } else if w.len() == 1 {
        assert(s[0] == w[0]);
        if tail.len() > 0 {
            assert(s[1] == tail[0]);
        }
    } else {
        assert(s =~= tail);
    }
}

/// A hexadecimal float is read as before.
pub proof fn lemma_hex_float_carried(w: Seq<u8>, tail: Seq<u8>)
    requires
        ends_numeral(tail),
    ensures
        carried(hex_float(w), hex_float(w + tail), tail),
{
    let s = w + tail;
    lemma_hex_prefix_carried(w, tail);
    if hex_prefix(w) is Ok {
        let body = w.skip(2);
        lemma_float_len_carried(body, tail, true);
        match float_len(body, true) {
            Ok(n) => {
                assert(s.skip(2 + n) =~= w.skip(2 + n) + tail);
                assert(s.take(2 + n) =~= w.take(2 + n));
            },
            Err(_) => {},
        }
    }
}

/// A hexadecimal integer is read as before.
pub proof fn lemma_hex_int_carried(w: Seq<u8>, tail: Seq<u8>)
    requires
        ends_numeral(tail),
    ensures
        carried(hex_int(w), hex_int(w + tail), tail),
{
    lemma_hex_prefix_carried(w, tail);
    if hex_prefix(w) is Ok {
        lemma_run_len_carried(w.skip(2), tail, Class::HexDigit);
    }
}

/// A decimal float is read as before.
pub proof fn lemma_decimal_float_carried(w: Seq<u8>, tail: Seq<u8>)
    requires
        ends_numeral(tail),
    ensures
        carried(decimal_float(w), decimal_float(w + tail), tail),
{
    let s = w + tail;
    lemma_float_len_carried(w, tail, false);
    match float_len(w, false) {
        Ok(n) => {
            assert(s.skip(n) =~= w.skip(n) + tail);
            assert(s.take(n) =~= w.take(n));
        },
        Err(_) => {},
    }
}

/// Decimal digits are read as before.
pub proof fn lemma_decimal_int_carried(w: Seq<u8>, tail: Seq<u8>)
    requires
        ends_numeral(tail),
    ensures
        carried(decimal_int(w), decimal_int(w + tail), tail),
        carried(decimal_int_overflow(w), decimal_int_overflow(w + tail), tail),
{
    lemma_run_len_carried(w, tail, Class::Digit);
}

/// A numeral is read as before, whatever follows it that cannot belong to a
/// numeral; and where there was no numeral, there is none.
pub proof fn law_number_carried(w: Seq<u8>, tail: Seq<u8>)
    requires
        ends_numeral(tail),
    ensures
        carried(number(w), number(w + tail), tail),
{
    lemma_hex_float_carried(w, tail);
    lemma_hex_int_carried(w, tail);
    lemma_decimal_float_carried(w, tail);
    lemma_decimal_int_carried(w, tail);
}

/// The bytes of an exponent are ASCII.
proof fn lemma_exponent_ascii(x: Seq<u8>, hex: bool)
    ensures
        exponent_len(x, hex) matches Ok(e) ==> 0 <= e <= x.len() && forall|i: int|
            0 <= i < e ==> (#[trigger] x[i]) < 128,
{
    if x.len() > 0 && is_exponent_mark(x[0], hex) {
        let sign: int = if x.len() > 1 && is_sign(x[1]) {
            1
        } else {
            0
        };
        let after = x.skip(1 + sign);
        lemma_run_len(after, digits_class(hex));
        assert forall|i: int| 0 <= i < 1 + sign + run_len(after, digits_class(hex)) implies (
        #[trigger] x[i]) < 128 by {
            if i >= 1 + sign {
                assert(x[i] == after[i - 1 - sign]);
            }
        }
    }
}

/// The bytes of a float are ASCII.
proof fn lemma_float_ascii(w: Seq<u8>, hex: bool)
    ensures
        float_len(w, hex) matches Ok(n) ==> 0 <= n <= w.len() && forall|i: int|
            0 <= i < n ==> (#[trigger] w[i]) < 128,
{
    let c = digits_class(hex);
    let whole = run_len(w, c) as int;
    lemma_run_len(w, c);
    if whole < w.len() && w[whole] == 0x2E {
        let after = w.skip(whole + 1);
        let fraction = run_len(after, c) as int;
        lemma_run_len(after, c);
        let mantissa = whole + 1 + fraction;
        let last = w.skip(mantissa);
        lemma_exponent_ascii(last, hex);
        if float_len(w, hex) is Ok {
            let n = float_len(w, hex)->Ok_0;
            assert forall|i: int| 0 <= i < n implies (#[trigger] w[i]) < 128 by {
                if i > whole && i < mantissa {
                    assert(w[i] == after[i - whole - 1]);
                } else if i >= mantissa {
                    assert(w[i] == last[i - mantissa]);
                }
            }
        }
    } else if whole > 0 {
        let last = w.skip(whole);
        lemma_exponent_ascii(last, hex);
        if float_len(w, hex) is Ok {
            let n = float_len(w, hex)->Ok_0;
            assert forall|i: int| 0 <= i < n implies (#[trigger] w[i]) < 128 by {
                if i >= whole {
                    assert(w[i] == last[i - whole]);
                }
            }
        }
    }
}

/// The text of a float numeral is made of ASCII characters.
pub proof fn lemma_float_text_ascii(w: Seq<u8>, rest: Seq<u8>, text: Seq<char>)
    requires
        number(w) == Ok::<_, ParseFailure>((rest, Numeral::Float(text))),
    ensures
        forall|i: int| 0 <= i < text.len() ==> 0 <= (#[trigger] text[i]) as int <= 127,
{
    if hex_float(w) is Ok {
        let body = w.skip(2);
        lemma_float_ascii(body, true);
        let n = float_len(body, true)->Ok_0;
        assert forall|i: int| 0 <= i < text.len() implies 0 <= (#[trigger] text[i]) as int
            <= 127 by {
            assert(text[i] == w[i] as char);
            if i >= 2 {
                assert(w[i] == body[i - 2]);
            }
        }
    } else if hex_int(w) is Ok {
    } else if decimal_float(w) is Ok {
        lemma_float_ascii(w, false);
        assert forall|i: int| 0 <= i < text.len() implies 0 <= (#[trigger] text[i]) as int
            <= 127 by {
            assert(text[i] == w[i] as char);
        }
    } else if decimal_int(w) is Ok {
    } else {
        lemma_run_len(w, Class::Digit);
        assert forall|i: int| 0 <= i < text.len() implies 0 <= (#[trigger] text[i]) as int
            <= 127 by {
            assert(text[i] == w[i] as char);
        }
    }
}

} // verus!
