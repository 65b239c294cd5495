//! Byte classes, runs of one class, fixed tokens, keywords and white space.
use crate::error::{seen, Outcome, ParseFailure, Parsed};
use vstd::prelude::*;
use vstd::slice::slice_subrange;

verus! {

/// A class of bytes.
#[derive(Clone, Copy, Debug, PartialEq, Eq, Structural)]
pub enum Class {
    /// `A` to `Z` and `a` to `z`.
    Alpha,
    /// `0` to `9`.
    Digit,
    /// `0` to `9`, `A` to `F` and `a` to `f`.
    HexDigit,
    /// Space, tab, carriage return and line feed.
    Space,
    /// What may stand inside a name: a letter, a digit or `_`.
    Word,
}

impl Class {
    /// Whether the byte belongs to the class.
    pub open spec fn has(self, b: u8) -> bool {
        match self {
            Class::Alpha => (0x41 <= b <= 0x5A) || (0x61 <= b <= 0x7A),
            Class::Digit => 0x30 <= b <= 0x39,
            Class::HexDigit => (0x30 <= b <= 0x39) || (0x41 <= b <= 0x46) || (0x61 <= b <= 0x66),
            Class::Space => b == 0x20 || b == 0x09 || b == 0x0D || b == 0x0A,
            Class::Word => (0x41 <= b <= 0x5A) || (0x61 <= b <= 0x7A) || (0x30 <= b <= 0x39) || b
                == 0x5F,
        }
    }
}

/// A byte that may stand inside a name: a letter, a digit or `_`.
pub open spec fn is_word_byte(b: u8) -> bool {
    Class::Word.has(b)
}

/// The length of the longest prefix of `s` whose bytes all belong to `c`.
pub open spec fn run_len(s: Seq<u8>, c: Class) -> nat
    decreases s.len(),
{
    if s.len() > 0 && c.has(s[0]) {
        1 + run_len(s.skip(1), c)
    } else {
        0
    }
}

/// One or more bytes of class `c`: the longest such prefix. On empty input the
/// rule is incomplete; on a first byte outside the class it is a mismatch.
pub open spec fn run(s: Seq<u8>, c: Class) -> Outcome<Seq<u8>> {
    if s.len() == 0 {
        Err(ParseFailure::IncompleteInput)
    } else if !c.has(s[0]) {
        Err(ParseFailure::SyntaxMismatch)
    } else {
        Ok((s.skip(run_len(s, c) as int), s.take(run_len(s, c) as int)))
    }
}

/// What is left of `s` after its leading white space.
pub open spec fn skip_space(s: Seq<u8>) -> Seq<u8> {
    s.skip(run_len(s, Class::Space) as int)
}

/// `run_len` is the one length at which a prefix of class `c` ends.
pub proof fn lemma_run_len(s: Seq<u8>, c: Class)
    ensures
        run_len(s, c) <= s.len(),
        forall|i: int| 0 <= i < run_len(s, c) ==> c.has(#[trigger] s[i]),
        run_len(s, c) < s.len() ==> !c.has(s[run_len(s, c) as int]),
    decreases s.len(),
{
    if s.len() > 0 && c.has(s[0]) {
        let t = s.skip(1);
        lemma_run_len(t, c);
        assert forall|i: int| 0 <= i < run_len(s, c) implies c.has(#[trigger] s[i]) by {
            if i > 0 {
                assert(s[i] == t[i - 1]);
            }
        }
        if run_len(s, c) < s.len() {
            assert(s[run_len(s, c) as int] == t[run_len(t, c) as int]);
        }
    }
}

/// A prefix of class `c` that cannot be made longer has length `run_len`.
pub proof fn lemma_run_len_unique(s: Seq<u8>, c: Class, n: int)
    requires
        0 <= n <= s.len(),
        forall|i: int| 0 <= i < n ==> c.has(#[trigger] s[i]),
        n < s.len() ==> !c.has(s[n]),
    ensures
        run_len(s, c) == n,
    decreases s.len(),
{
    if n > 0 {
        let t = s.skip(1);
        assert(c.has(s[0]));
        assert forall|i: int| 0 <= i < n - 1 implies c.has(#[trigger] t[i]) by {
            assert(t[i] == s[i + 1]);
        }
        if n - 1 < t.len() {
            assert(t[n - 1] == s[n]);
        }
        lemma_run_len_unique(t, c, n - 1);
    }
}

/// Calls `nom::alpha`, which walks the input to the first byte that is no
/// ASCII letter and splits there. The claim: the result is `run` of
/// `Class::Alpha`, nom's `Incomplete` standing for empty input and its `Error`
/// for a first byte that is no letter.
#[verifier::external_body]
pub(crate) fn alpha<'a>(input: &'a [u8]) -> (r: Parsed<'a, &'a [u8]>)
    ensures
        seen(r) == run(input@, Class::Alpha),
{
    match nom::alpha(input) {
        nom::IResult::Done(rest, found) => Ok((rest, found)),
        nom::IResult::Error(_) => Err(ParseFailure::SyntaxMismatch),
        nom::IResult::Incomplete(_) => Err(ParseFailure::IncompleteInput),
    }
}

/// Calls `nom::digit`, which walks the input to the first byte that is no
/// decimal digit and splits there. The claim: the result is `run` of
/// `Class::Digit`, nom's `Incomplete` standing for empty input and its `Error`
/// for a first byte that is no digit.
#[verifier::external_body]
pub(crate) fn digit<'a>(input: &'a [u8]) -> (r: Parsed<'a, &'a [u8]>)
    ensures
        seen(r) == run(input@, Class::Digit),
{
    match nom::digit(input) {
        nom::IResult::Done(rest, found) => Ok((rest, found)),
        nom::IResult::Error(_) => Err(ParseFailure::SyntaxMismatch),
        nom::IResult::Incomplete(_) => Err(ParseFailure::IncompleteInput),
    }
}

/// Calls `nom::hex_digit`, which walks the input to the first byte that is no
/// hexadecimal digit and splits there. The claim: the result is `run` of
/// `Class::HexDigit`, nom's `Incomplete` standing for empty input and its
/// `Error` for a first byte that is no hexadecimal digit.
#[verifier::external_body]
pub(crate) fn hex_digit<'a>(input: &'a [u8]) -> (r: Parsed<'a, &'a [u8]>)
    ensures
        seen(r) == run(input@, Class::HexDigit),
{
    match nom::hex_digit(input) {
        nom::IResult::Done(rest, found) => Ok((rest, found)),
        nom::IResult::Error(_) => Err(ParseFailure::SyntaxMismatch),
        nom::IResult::Incomplete(_) => Err(ParseFailure::IncompleteInput),
    }
}

/// Calls `nom::sp`, which always succeeds and splits the input before its
/// first byte that is none of space, tab, carriage return and line feed. The
/// claim: what it leaves is `skip_space` of the input.
#[verifier::external_body]
pub(crate) fn sp<'a>(input: &'a [u8]) -> (rest: &'a [u8])
    ensures
        rest@ == skip_space(input@),
{
    match nom::sp(input) {
        nom::IResult::Done(rest, _) => rest,
        nom::IResult::Error(_) => input,
        nom::IResult::Incomplete(_) => input,
    }
}

/// Whether the first `n` bytes of `s` are the first `n` characters of `text`.
pub open spec fn agrees(s: Seq<u8>, text: Seq<char>, n: int) -> bool {
    &&& 0 <= n <= s.len()
    &&& n <= text.len()
    &&& forall|i: int| 0 <= i < n ==> s[i] as char == #[trigger] text[i]
}

/// The fixed token `text`. Input that ends inside the token is incomplete;
/// input that departs from it is a mismatch.
pub open spec fn tag(s: Seq<u8>, text: Seq<char>) -> Outcome<()> {
    if agrees(s, text, text.len() as int) {
        Ok((s.skip(text.len() as int), ()))
    } else if agrees(s, text, s.len() as int) {
        Err(ParseFailure::IncompleteInput)
    } else {
        Err(ParseFailure::SyntaxMismatch)
    }
}

/// The token `text` as a whole word: a mismatch where a letter, a digit or `_`
/// follows it.
pub open spec fn keyword(s: Seq<u8>, text: Seq<char>) -> Outcome<()> {
    match tag(s, text) {
        Ok((rest, _)) => if rest.len() > 0 && is_word_byte(rest[0]) {
            Err(ParseFailure::SyntaxMismatch)
        } else {
            Ok((rest, ()))
        },
        Err(e) => Err(e),
    }
}

/// Whether `b` may stand inside a name.
pub fn word_byte(b: u8) -> (r: bool)
    ensures
        r == is_word_byte(b),
{
    (0x41 <= b && b <= 0x5A) || (0x61 <= b && b <= 0x7A) || (0x30 <= b && b <= 0x39) || b == 0x5F
}

/// The input from its `n`th byte on.
pub(crate) fn from<'a>(input: &'a [u8], n: usize) -> (rest: &'a [u8])
    requires
        n <= input@.len(),
    ensures
        rest@ == input@.skip(n as int),
{
    slice_subrange(input, n, input.len())
}

/// Reads the fixed token `text`.
pub fn match_tag<'a>(input: &'a [u8], text: &str) -> (r: Parsed<'a, ()>)
    ensures
        seen(r) == tag(input@, text@),
{
    let n = text.unicode_len();
    let mut i: usize = 0;
    while i < n
        invariant
            i <= n,
            n == text@.len(),
            agrees(input@, text@, i as int),
        decreases n - i,
    {
        if i >= input.len() {
            return Err(ParseFailure::IncompleteInput);
        }
        if input[i] as char != text.get_char(i) {
            assert(!agrees(input@, text@, text@.len() as int));
            assert(!agrees(input@, text@, input@.len() as int));
            return Err(ParseFailure::SyntaxMismatch);
        }
        i += 1;
    }
    Ok((from(input, n), ()))
}

/// Reads the token `text` as a whole word.
pub fn match_keyword<'a>(input: &'a [u8], text: &str) -> (r: Parsed<'a, ()>)
    ensures
        seen(r) == keyword(input@, text@),
{
    match match_tag(input, text) {
        Ok((rest, _)) => {
            if rest.len() > 0 && word_byte(rest[0]) {
                Err(ParseFailure::SyntaxMismatch)
            } else {
                Ok((rest, ()))
            }
        },
        Err(e) => Err(e),
    }
}

/// The bytes read as characters, one for one.
pub open spec fn text_of(bytes: Seq<u8>) -> Seq<char> {
    Seq::new(bytes.len(), |i: int| bytes[i] as char)
}

/// `String::push` appends one character to the string.
pub assume_specification[ std::string::String::push ](s: &mut std::string::String, ch: char)
    ensures
        final(s)@ == old(s)@.push(ch),
;

/// The bytes as a string, each byte one character.
pub fn to_text(bytes: &[u8]) -> (r: String)
    ensures
        r@ == text_of(bytes@),
{
    let mut r = String::new();
    let mut i: usize = 0;
    while i < bytes.len()
        invariant
            i <= bytes@.len(),
            r@ == text_of(bytes@.take(i as int)),
        decreases bytes@.len() - i,
    {
        r.push(bytes[i] as char);
        assert(r@ =~= text_of(bytes@.take(i + 1)));
        i += 1;
    }
    assert(bytes@.take(i as int) =~= bytes@);
    r
}

/// The length of the longest prefix of `input` whose bytes belong to `c`.
pub fn run_of(input: &[u8], c: Class) -> (n: usize)
    ensures
        n == run_len(input@, c),
{
    proof {
        lemma_run_len(input@, c);
    }
    match c {
        Class::Alpha => match alpha(input) {
            Ok((_, found)) => found.len(),
            Err(_) => 0,
        },
        Class::Digit => match digit(input) {
            Ok((_, found)) => found.len(),
            Err(_) => 0,
        },
        Class::HexDigit => match hex_digit(input) {
            Ok((_, found)) => found.len(),
            Err(_) => 0,
        },
        Class::Space => input.len() - sp(input).len(),
        Class::Word => word_run(input),
    }
}

/// The length of the longest prefix of `input` that may stand inside a name:
/// runs of letters and of digits, as nom finds them, and single `_`.
fn word_run(input: &[u8]) -> (n: usize)
    ensures
        n == run_len(input@, Class::Word),
{
    let mut i: usize = 0;
    loop
        invariant
            i <= input@.len(),
            forall|j: int| 0 <= j < i ==> Class::Word.has(#[trigger] input@[j]),
        ensures
            i <= input@.len(),
            forall|j: int| 0 <= j < i ==> Class::Word.has(#[trigger] input@[j]),
            i < input@.len() ==> !Class::Word.has(input@[i as int]),
        decreases input@.len() - i,
    {
        if i >= input.len() {
            break ;
        }
        let rest = from(input, i);
        let letters = run_of_alpha_or_digit(rest);
        if letters > 0 {
            assert forall|j: int| 0 <= j < i + letters implies Class::Word.has(
                #[trigger] input@[j],
            ) by {
                if j >= i {
                    assert(input@[j] == rest@[j - i]);
                }
            }
            i += letters;
        } else if input[i] == 0x5F {
            i += 1;
        } else {
            assert(input@[i as int] == rest@[0]);
            break ;
        }
    }
    proof {
        lemma_run_len_unique(input@, Class::Word, i as int);
    }
    i
}

/// The length of the run of letters that `input` begins with or, where it
/// begins with none, of its run of digits.
fn run_of_alpha_or_digit(input: &[u8]) -> (n: usize)
    ensures
        n <= input@.len(),
        forall|j: int| 0 <= j < n ==> Class::Word.has(#[trigger] input@[j]),
        n == 0 ==> input@.len() == 0 || !(Class::Alpha.has(input@[0]) || Class::Digit.has(
            input@[0],
        )),
{
    proof {
        lemma_run_len(input@, Class::Alpha);
        lemma_run_len(input@, Class::Digit);
    }
    match alpha(input) {
        Ok((_, found)) => found.len(),
        Err(_) => match digit(input) {
            Ok((_, found)) => found.len(),
            Err(_) => 0,
        },
    }
}

/// `o`, where it leaves no more bytes than `s` has; a mismatch where it leaves
/// more. The bound is what lets a rule be applied to what another rule left;
/// that it holds of every rule is shown in `remainder`.
pub open spec fn within<T>(o: Outcome<T>, s: Seq<u8>) -> Outcome<T> {
    match o {
        Ok((rest, value)) => if rest.len() <= s.len() {
            Ok((rest, value))
        } else {
            Err(ParseFailure::SyntaxMismatch)
        },
        Err(e) => Err(e),
    }
}

/// `o`, where it leaves fewer bytes than `s` has; a mismatch where it does not.
pub open spec fn shorter<T>(o: Outcome<T>, s: Seq<u8>) -> Outcome<T> {
    match o {
        Ok((rest, value)) => if rest.len() < s.len() {
            Ok((rest, value))
        } else {
            Err(ParseFailure::SyntaxMismatch)
        },
        Err(e) => Err(e),
    }
}

/// The token `text`, which is not empty.
pub open spec fn token(s: Seq<u8>, text: Seq<char>) -> Outcome<()> {
    shorter(tag(s, text), s)
}

/// The reserved word `text`, which is not empty, as a whole word.
pub open spec fn word(s: Seq<u8>, text: Seq<char>) -> Outcome<()> {
    shorter(keyword(s, text), s)
}

/// Reads the token `text`.
pub fn read_token<'a>(input: &'a [u8], text: &str) -> (r: Parsed<'a, ()>)
    ensures
        seen(r) == token(input@, text@),
        r matches Ok((rest, _)) ==> rest@.len() < input@.len(),
{
    match match_tag(input, text) {
        Ok((rest, _)) => {
            if rest.len() < input.len() {
                Ok((rest, ()))
            } else {
                Err(ParseFailure::SyntaxMismatch)
            }
        },
        Err(e) => Err(e),
    }
}

/// Reads the reserved word `text`.
pub fn read_word<'a>(input: &'a [u8], text: &str) -> (r: Parsed<'a, ()>)
    ensures
        seen(r) == word(input@, text@),
        r matches Ok((rest, _)) ==> rest@.len() < input@.len(),
{
    match match_keyword(input, text) {
        Ok((rest, _)) => {
            if rest.len() < input.len() {
                Ok((rest, ()))
            } else {
                Err(ParseFailure::SyntaxMismatch)
            }
        },
        Err(e) => Err(e),
    }
}

/// Skips white space.
pub fn skip<'a>(input: &'a [u8]) -> (rest: &'a [u8])
    ensures
        rest@ == skip_space(input@),
        rest@.len() <= input@.len(),
{
    proof {
        lemma_run_len(input@, Class::Space);
    }
    sp(input)
}

} // verus!
