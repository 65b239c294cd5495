//! The text of a string reads back as the string.
use crate::error::ParseFailure;
use crate::lexical::{lemma_run_len_unique, run, Class};
use crate::number::{digit_value, value_of};
use crate::render::{digit_char, digits, escaped};
use crate::steps::{
    is_ascii, lemma_ascii_add, lemma_tag_found, lemma_tag_missed_second, lemma_written_add,
    written,
};
use crate::string::{
    byte, byte_d, byte_x, is_scalar, item, items, linebreak, short_literal, unicode,
};
use vstd::prelude::*;

verus! {

/// The hexadecimal digits of a number are digits, and write the number.
pub proof fn lemma_hex_digits(n: nat)
    ensures
        digits(n, 16).len() > 0,
        is_ascii(digits(n, 16)),
        forall|i: int|
            0 <= i < digits(n, 16).len() ==> Class::HexDigit.has(
                #[trigger] written(digits(n, 16))[i],
            ),
        value_of(written(digits(n, 16)), 16) == n,
    decreases n,
{
    let all = digits(n, 16);
    if n < 16 {
        assert(all =~= seq![digit_char(n)]);
        assert(written(all) =~= seq![digit_char(n) as u8]);
        assert(written(all).drop_last() =~= Seq::<u8>::empty());
        assert(value_of(written(all).drop_last(), 16) == 0);
        assert(digit_value(digit_char(n) as u8) == n);
    } else {
        let front = digits(n / 16, 16);
        let last = digit_char(n % 16);
        lemma_hex_digits(n / 16);
        assert(all == front.push(last));
        assert(written(all) =~= written(front).push(last as u8));
        assert(written(all).drop_last() =~= written(front));
        assert(digit_value(last as u8) == n % 16);
        assert forall|i: int| 0 <= i < all.len() implies Class::HexDigit.has(
            #[trigger] written(all)[i],
        ) by {
            if i < front.len() {
                assert(written(all)[i] == written(front)[i]);
            }
        }
        assert forall|i: int| 0 <= i < all.len() implies 0 <= (#[trigger] all[i]) as int
            <= 127 by {
            if i < front.len() {
                assert(all[i] == front[i]);
            }
        }
    }
}

/// The escape of a character.
pub open spec fn escape(c: char) -> Seq<char> {
    "\\u{"@ + digits(c as nat, 16) + "}"@
}

/// The escape of a character reads as the character, whatever follows it.
pub proof fn lemma_escape_item(c: char, x: Seq<u8>)
    ensures
        item(written(escape(c)) + x) == Ok::<_, ParseFailure>((x, c)),
        x.len() < (written(escape(c)) + x).len(),
        (written(escape(c)) + x)[0] == 0x5Cu8,
{
    reveal_strlit("\\u{");
    reveal_strlit("}");
    reveal_strlit("\\\r\n");
    reveal_strlit("\\\n\r");
    reveal_strlit("\\\n");
    reveal_strlit("\\x");
    reveal_strlit("\\");
    let n = c as nat;
    lemma_hex_digits(n);
    let d = written(digits(n, 16));
    let after = written("}"@) + x;
    let body = d + after;
    let s = written(escape(c)) + x;
    lemma_written_add("\\u{"@ + digits(n, 16), "}"@);
    lemma_written_add("\\u{"@, digits(n, 16));
    assert(s =~= written("\\u{"@) + body);
    assert(s[0] == 0x5Cu8);
    assert(s[1] == 0x75u8);
    // No line continuation and no byte escape.
    lemma_tag_missed_second(s, "\\\r\n"@);
    lemma_tag_missed_second(s, "\\\n\r"@);
    lemma_tag_missed_second(s, "\\\n"@);
    assert(linebreak(s) is Err);
    lemma_tag_missed_second(s, "\\x"@);
    assert(byte_x(s) is Err);
    assert(s =~= written("\\"@) + s.skip(1));
    lemma_tag_found("\\"@, s.skip(1));
    assert(s.skip(1)[0] == 0x75u8);
    assert(run(s.skip(1), Class::Digit) is Err);
    assert(byte_d(s) is Err);
    assert(byte(s) is Err);
    // The code point.
    lemma_tag_found("\\u{"@, body);
    assert forall|i: int| 0 <= i < d.len() implies Class::HexDigit.has(#[trigger] body[i]) by {
        assert(body[i] == d[i]);
    }
    assert(body[d.len() as int] == 0x7Du8);
    lemma_run_len_unique(body, Class::HexDigit, d.len() as int);
    assert(body.take(d.len() as int) =~= d);
    assert(body.skip(d.len() as int) =~= after);
    assert(Class::HexDigit.has(body[0]));
    assert(run(body, Class::HexDigit) == Ok::<_, ParseFailure>((after, d)));
    lemma_tag_found("}"@, x);
    assert(is_scalar(n));
    assert(n as char == c);
    assert(unicode(s) == Ok::<_, ParseFailure>((x, c)));
}

/// The escapes of the characters of a text read as the characters, added to
/// those found before, and the reading goes on after them.
pub proof fn lemma_items_escaped(text: Seq<char>, found: Seq<char>, x: Seq<u8>, quote: u8)
    requires
        quote != 0x5C,
    ensures
        items(written(escaped(text)) + x, quote, found) == items(x, quote, found + text),
    decreases text.len(),
{
    if text.len() == 0 {
        assert(written(escaped(text)) + x =~= x);
        assert(found + text =~= found);
    } else {
        let init = text.drop_last();
        let c = text.last();
        let one = written(escape(c)) + x;
        assert(escaped(text) =~= escaped(init) + escape(c));
        lemma_written_add(escaped(init), escape(c));
        assert(written(escaped(text)) + x =~= written(escaped(init)) + one);
        lemma_items_escaped(init, found, one, quote);
        lemma_escape_item(c, x);
        assert((found + init).push(c) =~= found + text);
        assert(items(one, quote, found + init) == items(x, quote, (found + init).push(c)));
    }
}

/// The text of a string as it is written: a double quote, the escapes of its
/// characters and a double quote.
pub open spec fn quoted(text: Seq<char>) -> Seq<char> {
    "\""@ + escaped(text) + "\""@
}

/// A string as it is written reads as the string, whatever follows it.
pub proof fn lemma_quoted_reads_back(text: Seq<char>, tail: Seq<u8>)
    ensures
        short_literal(written(quoted(text)) + tail) == Ok::<_, ParseFailure>((tail, text)),
        (written(quoted(text)) + tail)[0] == 0x22u8,
        (written(quoted(text)) + tail).len() > tail.len(),
{
    reveal_strlit("\"");
    let close = seq![0x22u8] + tail;
    let inside = written(escaped(text)) + close;
    let s = written(quoted(text)) + tail;
    lemma_written_add("\""@ + escaped(text), "\""@);
    lemma_written_add("\""@, escaped(text));
    assert(written("\""@) =~= seq![0x22u8]);
    assert(s =~= seq![0x22u8] + inside);
    assert(s.skip(1) =~= inside);
    lemma_items_escaped(text, Seq::empty(), close, 0x22);
    assert(Seq::<char>::empty() + text =~= text);
    assert(close.skip(1) =~= tail);
    assert(items(close, 0x22, text) == Ok::<_, ParseFailure>((tail, text)));
}

/// A string as it is written is made of ASCII characters.
pub proof fn lemma_quoted_ascii(text: Seq<char>)
    ensures
        is_ascii(escaped(text)),
        is_ascii(quoted(text)),
    decreases text.len(),
{
    reveal_strlit("\"");
    reveal_strlit("\\u{");
    reveal_strlit("}");
    if text.len() > 0 {
        lemma_quoted_ascii(text.drop_last());
        lemma_hex_digits(text.last() as nat);
        lemma_ascii_add(escaped(text.drop_last()), "\\u{"@);
        lemma_ascii_add(escaped(text.drop_last()) + "\\u{"@, digits(text.last() as nat, 16));
        lemma_ascii_add(
            escaped(text.drop_last()) + "\\u{"@ + digits(text.last() as nat, 16),
            "}"@,
        );
    }
    lemma_ascii_add("\""@, escaped(text));
    lemma_ascii_add("\""@ + escaped(text), "\""@);
}

} // verus!
