//! Tokens: the symbols of the language and its comments.
use crate::error::{Outcome, ParseFailure, Parsed};
use crate::lexical::{from, read_token, token};
use crate::number::either;
use vstd::prelude::*;
use vstd::slice::slice_subrange;

verus! {

/// A token.
#[derive(Debug, Clone, PartialEq)]
pub enum Token<'a> {
    /// `+`
    Plus,
    /// `%`
    Mod,
    /// `{`
    OpenBrace,
    /// `}`
    CloseBrace,
    /// `(`
    OpenParen,
    /// `)`
    CloseParen,
    /// `&`
    Band,
    /// `^`
    Pow,
    /// `|`
    Bor,
    /// `;`
    Semicolon,
    /// `,`
    Comma,
    /// `#`
    Hash,
    /// `//`
    Idiv,
    /// `/`
    Div,
    /// `*`
    Mul,
    /// `>>`
    Rsh,
    /// `>=`
    Gte,
    /// `>`
    Gt,
    /// `<<`
    Lsh,
    /// `<=`
    Lte,
    /// `<`
    Lt,
    /// `::`
    Label,
    /// `:`
    Colon,
    /// `~=`
    Neq,
    /// `~`
    Bnot,
    /// `==`
    Eq,
    /// `=`
    Assign,
    /// `...`
    DotDotDot,
    /// `..`
    DotDot,
    /// `.`
    Dot,
    /// `-`
    Minus,
    /// A comment, by its text.
    Comment(&'a [u8]),
}

/// What a token stands for.
pub enum Lexeme {
    /// `+`
    Plus,
    /// `%`
    Mod,
    /// `{`
    OpenBrace,
    /// `}`
    CloseBrace,
    /// `(`
    OpenParen,
    /// `)`
    CloseParen,
    /// `&`
    Band,
    /// `^`
    Pow,
    /// `|`
    Bor,
    /// `;`
    Semicolon,
    /// `,`
    Comma,
    /// `#`
    Hash,
    /// `//`
    Idiv,
    /// `/`
    Div,
    /// `*`
    Mul,
    /// `>>`
    Rsh,
    /// `>=`
    Gte,
    /// `>`
    Gt,
    /// `<<`
    Lsh,
    /// `<=`
    Lte,
    /// `<`
    Lt,
    /// `::`
    Label,
    /// `:`
    Colon,
    /// `~=`
    Neq,
    /// `~`
    Bnot,
    /// `==`
    Eq,
    /// `=`
    Assign,
    /// `...`
    DotDotDot,
    /// `..`
    DotDot,
    /// `.`
    Dot,
    /// `-`
    Minus,
    /// A comment, by its text.
    Comment(Seq<u8>),
}

impl<'a> View for Token<'a> {
    type V = Lexeme;

    open spec fn view(&self) -> Lexeme {
        match self {
            Token::Plus => Lexeme::Plus,
            Token::Mod => Lexeme::Mod,
            Token::OpenBrace => Lexeme::OpenBrace,
            Token::CloseBrace => Lexeme::CloseBrace,
            Token::OpenParen => Lexeme::OpenParen,
            Token::CloseParen => Lexeme::CloseParen,
            Token::Band => Lexeme::Band,
            Token::Pow => Lexeme::Pow,
            Token::Bor => Lexeme::Bor,
            Token::Semicolon => Lexeme::Semicolon,
            Token::Comma => Lexeme::Comma,
            Token::Hash => Lexeme::Hash,
            Token::Idiv => Lexeme::Idiv,
            Token::Div => Lexeme::Div,
            Token::Mul => Lexeme::Mul,
            Token::Rsh => Lexeme::Rsh,
            Token::Gte => Lexeme::Gte,
            Token::Gt => Lexeme::Gt,
            Token::Lsh => Lexeme::Lsh,
            Token::Lte => Lexeme::Lte,
            Token::Lt => Lexeme::Lt,
            Token::Label => Lexeme::Label,
            Token::Colon => Lexeme::Colon,
            Token::Neq => Lexeme::Neq,
            Token::Bnot => Lexeme::Bnot,
            Token::Eq => Lexeme::Eq,
            Token::Assign => Lexeme::Assign,
            Token::DotDotDot => Lexeme::DotDotDot,
            Token::DotDot => Lexeme::DotDot,
            Token::Dot => Lexeme::Dot,
            Token::Minus => Lexeme::Minus,
            Token::Comment(text) => Lexeme::Comment(text@),
        }
    }
}

/// What an executable result that holds a token stands for.
pub open spec fn seen_token(r: Result<(&[u8], Token), ParseFailure>) -> Outcome<Lexeme> {
    match r {
        Ok((rest, found)) => Ok((rest@, found@)),
        Err(e) => Err(e),
    }
}

/// What a list of tokens stands for, token by token.
pub open spec fn lexemes_of(tokens: Seq<Token>) -> Seq<Lexeme> {
    Seq::new(tokens.len(), |i: int| tokens[i]@)
}

/// The symbol `text` as the token `found`.
pub open spec fn symbol(s: Seq<u8>, text: Seq<char>, found: Lexeme) -> Outcome<Lexeme> {
    match token(s, text) {
        Ok((rest, _)) => Ok((rest, found)),
        Err(e) => Err(e),
    }
}

/// Whether `s` begins with `n` bytes `b`.
pub open spec fn begins_with_run(s: Seq<u8>, b: u8, n: nat) -> bool {
    n <= s.len() && forall|j: int| 0 <= j < n ==> #[trigger] s[j] == b
}

/// The first place in `s` at which `n` bytes `b` stand one after the other.
pub open spec fn place_of_run(s: Seq<u8>, b: u8, n: nat) -> Option<int>
    decreases s.len(),
{
    if s.len() < n {
        None
    } else if begins_with_run(s, b, n) {
        Some(0)
    } else {
        match place_of_run(s.skip(1), b, n) {
            Some(i) => Some(i + 1),
            None => None,
        }
    }
}

/// The number of bytes `b` that `s` begins with.
pub open spec fn run_of_byte(s: Seq<u8>, b: u8) -> nat
    decreases s.len(),
{
    if s.len() > 0 && s[0] == b {
        1 + run_of_byte(s.skip(1), b)
    } else {
        0
    }
}

/// What stands before the first run of `n` bytes `b`, as a comment; the run
/// itself is left over. Without such a run the input is incomplete.
pub open spec fn comment_until(s: Seq<u8>, b: u8, n: nat) -> Outcome<Lexeme> {
    match place_of_run(s, b, n) {
        Some(i) => Ok((s.skip(i), Lexeme::Comment(s.take(i)))),
        None => Err(ParseFailure::IncompleteInput),
    }
}

/// A comment of several lines: `--`, one or more `[`, and the text up to as
/// many `]` as there were `[`.
pub open spec fn mlc(s: Seq<u8>) -> Outcome<Lexeme> {
    match token(s, "--"@) {
        Ok((rest, _)) => {
            let n = run_of_byte(rest, 0x5B);
            if n == 0 {
                if rest.len() == 0 {
                    Err(ParseFailure::IncompleteInput)
                } else {
                    Err(ParseFailure::SyntaxMismatch)
                }
            } else {
                comment_until(rest.skip(n as int), 0x5D, n)
            }
        },
        Err(e) => Err(e),
    }
}

/// A comment of one line, which is `--` and the text up to the end of the
/// line, or else the token `-`.
pub open spec fn minus(s: Seq<u8>) -> Outcome<Lexeme> {
    either(
        match token(s, "--"@) {
            Ok((rest, _)) => comment_until(rest, 0x0A, 1),
            Err(e) => Err(e),
        },
        symbol(s, "-"@, Lexeme::Minus),
    )
}

/// A token: the first that matches of the symbols in their order, a comment
/// of several lines, and a comment of one line or `-`.
pub open spec fn one_token(s: Seq<u8>) -> Outcome<Lexeme> {
    either(either(symbols(s), mlc(s)), minus(s))
}

/// A symbol: the first that matches, in this order.
pub open spec fn symbols(s: Seq<u8>) -> Outcome<Lexeme> {
    let found = symbol(s, "+"@, Lexeme::Plus);
    let found = either(found, symbol(s, "%"@, Lexeme::Mod));
    let found = either(found, symbol(s, "{"@, Lexeme::OpenBrace));
    let found = either(found, symbol(s, "}"@, Lexeme::CloseBrace));
    let found = either(found, symbol(s, "("@, Lexeme::OpenParen));
    let found = either(found, symbol(s, ")"@, Lexeme::CloseParen));
    let found = either(found, symbol(s, "&"@, Lexeme::Band));
    let found = either(found, symbol(s, "^"@, Lexeme::Pow));
    let found = either(found, symbol(s, "|"@, Lexeme::Bor));
    let found = either(found, symbol(s, ";"@, Lexeme::Semicolon));
    let found = either(found, symbol(s, ","@, Lexeme::Comma));
    let found = either(found, symbol(s, "#"@, Lexeme::Hash));
    let found = either(found, symbol(s, "//"@, Lexeme::Idiv));
    let found = either(found, symbol(s, "/"@, Lexeme::Div));
    let found = either(found, symbol(s, "*"@, Lexeme::Mul));
    let found = either(found, symbol(s, ">>"@, Lexeme::Rsh));
    let found = either(found, symbol(s, ">="@, Lexeme::Gte));
    let found = either(found, symbol(s, ">"@, Lexeme::Gt));
    let found = either(found, symbol(s, "<<"@, Lexeme::Lsh));
    let found = either(found, symbol(s, "<="@, Lexeme::Lte));
    let found = either(found, symbol(s, "<"@, Lexeme::Lt));
    let found = either(found, symbol(s, "::"@, Lexeme::Label));
    let found = either(found, symbol(s, ":"@, Lexeme::Colon));
    let found = either(found, symbol(s, "~="@, Lexeme::Neq));
    let found = either(found, symbol(s, "~"@, Lexeme::Bnot));
    let found = either(found, symbol(s, "=="@, Lexeme::Eq));
    let found = either(found, symbol(s, "="@, Lexeme::Assign));
    let found = either(found, symbol(s, "..."@, Lexeme::DotDotDot));
    let found = either(found, symbol(s, ".."@, Lexeme::DotDot));
    let found = either(found, symbol(s, "."@, Lexeme::Dot));
    found
}

/// Tokens, as many as are there, added to those `found` before.
pub open spec fn tokens(s: Seq<u8>, found: Seq<Lexeme>) -> (Seq<u8>, Seq<Lexeme>)
    decreases s.len(),
{
    match one_token(s) {
        Ok((rest, next)) => if rest.len() < s.len() {
            tokens(rest, found.push(next))
        } else {
            (s, found)
        },
        Err(_) => (s, found),
    }
}

/// Reads a symbol.
pub fn parse_symbol<'a>(input: &'a [u8]) -> (r: Parsed<'a, Token<'a>>)
    ensures
        seen_token(r) == symbols(input@),
        r matches Ok((rest, _)) ==> rest@.len() < input@.len(),
{
    let e = match read_token(input, "+") {
        Ok((rest, _)) => {
            return Ok((rest, Token::Plus));
        },
        Err(e) => e,
    };
    let e = match read_token(input, "%") {
        Ok((rest, _)) => {
            return Ok((rest, Token::Mod));
        },
        Err(later) => e.join(later),
    };
    let e = match read_token(input, "{") {
        Ok((rest, _)) => {
            return Ok((rest, Token::OpenBrace));
        },
        Err(later) => e.join(later),
    };
    let e = match read_token(input, "}") {
        Ok((rest, _)) => {
            return Ok((rest, Token::CloseBrace));
        },
        Err(later) => e.join(later),
    };
    let e = match read_token(input, "(") {
        Ok((rest, _)) => {
            return Ok((rest, Token::OpenParen));
        },
        Err(later) => e.join(later),
    };
    let e = match read_token(input, ")") {
        Ok((rest, _)) => {
            return Ok((rest, Token::CloseParen));
        },
        Err(later) => e.join(later),
    };
    let e = match read_token(input, "&") {
        Ok((rest, _)) => {
            return Ok((rest, Token::Band));
        },
        Err(later) => e.join(later),
    };
    let e = match read_token(input, "^") {
        Ok((rest, _)) => {
            return Ok((rest, Token::Pow));
        },
        Err(later) => e.join(later),
    };
    let e = match read_token(input, "|") {
        Ok((rest, _)) => {
            return Ok((rest, Token::Bor));
        },
        Err(later) => e.join(later),
    };
    let e = match read_token(input, ";") {
        Ok((rest, _)) => {
            return Ok((rest, Token::Semicolon));
        },
        Err(later) => e.join(later),
    };
    let e = match read_token(input, ",") {
        Ok((rest, _)) => {
            return Ok((rest, Token::Comma));
        },
        Err(later) => e.join(later),
    };
    let e = match read_token(input, "#") {
        Ok((rest, _)) => {
            return Ok((rest, Token::Hash));
        },
        Err(later) => e.join(later),
    };
    let e = match read_token(input, "//") {
        Ok((rest, _)) => {
            return Ok((rest, Token::Idiv));
        },
        Err(later) => e.join(later),
    };
    let e = match read_token(input, "/") {
        Ok((rest, _)) => {
            return Ok((rest, Token::Div));
        },
        Err(later) => e.join(later),
    };
    let e = match read_token(input, "*") {
        Ok((rest, _)) => {
            return Ok((rest, Token::Mul));
        },
        Err(later) => e.join(later),
    };
    let e = match read_token(input, ">>") {
        Ok((rest, _)) => {
            return Ok((rest, Token::Rsh));
        },
        Err(later) => e.join(later),
    };
    let e = match read_token(input, ">=") {
        Ok((rest, _)) => {
            return Ok((rest, Token::Gte));
        },
        Err(later) => e.join(later),
    };
    let e = match read_token(input, ">") {
        Ok((rest, _)) => {
            return Ok((rest, Token::Gt));
        },
        Err(later) => e.join(later),
    };
    let e = match read_token(input, "<<") {
        Ok((rest, _)) => {
            return Ok((rest, Token::Lsh));
        },
        Err(later) => e.join(later),
    };
    let e = match read_token(input, "<=") {
        Ok((rest, _)) => {
            return Ok((rest, Token::Lte));
        },
        Err(later) => e.join(later),
    };
    let e = match read_token(input, "<") {
        Ok((rest, _)) => {
            return Ok((rest, Token::Lt));
        },
        Err(later) => e.join(later),
    };
    let e = match read_token(input, "::") {
        Ok((rest, _)) => {
            return Ok((rest, Token::Label));
        },
        Err(later) => e.join(later),
    };
    let e = match read_token(input, ":") {
        Ok((rest, _)) => {
            return Ok((rest, Token::Colon));
        },
        Err(later) => e.join(later),
    };
    let e = match read_token(input, "~=") {
        Ok((rest, _)) => {
            return Ok((rest, Token::Neq));
        },
        Err(later) => e.join(later),
    };
    let e = match read_token(input, "~") {
        Ok((rest, _)) => {
            return Ok((rest, Token::Bnot));
        },
        Err(later) => e.join(later),
    };
    let e = match read_token(input, "==") {
        Ok((rest, _)) => {
            return Ok((rest, Token::Eq));
        },
        Err(later) => e.join(later),
    };
    let e = match read_token(input, "=") {
        Ok((rest, _)) => {
            return Ok((rest, Token::Assign));
        },
        Err(later) => e.join(later),
    };
    let e = match read_token(input, "...") {
        Ok((rest, _)) => {
            return Ok((rest, Token::DotDotDot));
        },
        Err(later) => e.join(later),
    };
    let e = match read_token(input, "..") {
        Ok((rest, _)) => {
            return Ok((rest, Token::DotDot));
        },
        Err(later) => e.join(later),
    };
    match read_token(input, ".") {
        Ok((rest, _)) => Ok((rest, Token::Dot)),
        Err(later) => Err(e.join(later)),
    }
}

/// The number of bytes `b` that `input` begins with.
fn count_run(input: &[u8], b: u8) -> (n: usize)
    ensures
        n == run_of_byte(input@, b),
        n <= input@.len(),
{
    let mut i: usize = 0;
    assert(input@.skip(0) =~= input@);
    while i < input.len() && input[i] == b
        invariant
            i <= input@.len(),
            run_of_byte(input@, b) == i + run_of_byte(input@.skip(i as int), b),
        decreases input@.len() - i,
    {
        assert(input@.skip(i as int).skip(1) =~= input@.skip(i + 1));
        i += 1;
    }
    i
}

/// Whether `input` begins with `n` bytes `b`.
fn has_run(input: &[u8], b: u8, n: usize) -> (r: bool)
    ensures
        r == begins_with_run(input@, b, n as nat),
{
    if input.len() < n {
        return false;
    }
    let mut j: usize = 0;
    while j < n
        invariant
            j <= n,
            n <= input@.len(),
            forall|k: int| 0 <= k < j ==> #[trigger] input@[k] == b,
        decreases n - j,
    {
        if input[j] != b {
            return false;
        }
        j += 1;
    }
    true
}

/// Reads what stands before the first run of `n` bytes `b` as a comment.
pub fn parse_comment_until<'a>(input: &'a [u8], b: u8, n: usize) -> (r: Parsed<'a, Token<'a>>)
    ensures
        seen_token(r) == comment_until(input@, b, n as nat),
        r matches Ok((rest, _)) ==> rest@.len() <= input@.len(),
{
    let total = input.len();
    let mut i: usize = 0;
    assert(input@.skip(0) =~= input@);
    loop
        invariant
            i <= input@.len(),
            total == input@.len(),
            place_of_run(input@, b, n as nat) == match place_of_run(
                input@.skip(i as int),
                b,
                n as nat,
            ) {
                Some(k) => Some(k + i),
                None => None,
            },
        decreases input@.len() - i,
    {
        let here = from(input, i);
        if here.len() < n {
            return Err(ParseFailure::IncompleteInput);
        }
        if has_run(here, b, n) {
            return Ok((here, Token::Comment(slice_subrange(input, 0, i))));
        }
        assert(n > 0);
        assert(input@.skip(i as int).skip(1) =~= input@.skip(i + 1));
        i += 1;
    }
}

/// Reads a comment of several lines.
pub fn parse_mlc<'a>(input: &'a [u8]) -> (r: Parsed<'a, Token<'a>>)
    ensures
        seen_token(r) == mlc(input@),
        r matches Ok((rest, _)) ==> rest@.len() < input@.len(),
{
    match read_token(input, "--") {
        Ok((rest, _)) => {
            let n = count_run(rest, 0x5B);
            if n == 0 {
                if rest.len() == 0 {
                    Err(ParseFailure::IncompleteInput)
                } else {
                    Err(ParseFailure::SyntaxMismatch)
                }
            } else {
                parse_comment_until(from(rest, n), 0x5D, n)
            }
        },
        Err(e) => Err(e),
    }
}

/// Reads a comment of one line, or else the token `-`.
pub fn parse_minus<'a>(input: &'a [u8]) -> (r: Parsed<'a, Token<'a>>)
    ensures
        seen_token(r) == minus(input@),
        r matches Ok((rest, _)) ==> rest@.len() < input@.len(),
{
    let e = match read_token(input, "--") {
        Ok((rest, _)) => match parse_comment_until(rest, 0x0A, 1) {
            Ok(found) => {
                return Ok(found);
            },
            Err(e) => e,
        },
        Err(e) => e,
    };
    match read_token(input, "-") {
        Ok((rest, _)) => Ok((rest, Token::Minus)),
        Err(later) => Err(e.join(later)),
    }
}

/// Reads a token.
pub fn parse_token<'a>(input: &'a [u8]) -> (r: Parsed<'a, Token<'a>>)
    ensures
        seen_token(r) == one_token(input@),
        r matches Ok((rest, _)) ==> rest@.len() < input@.len(),
{
    match parse_symbol(input) {
        Ok(found) => Ok(found),
        Err(e) => match parse_mlc(input) {
            Ok(found) => Ok(found),
            Err(later) => {
                let e = e.join(later);
                match parse_minus(input) {
                    Ok(found) => Ok(found),
                    Err(later) => Err(e.join(later)),
                }
            },
        },
    }
}

/// Reads tokens, as many as are there. White space is no token: the reading
/// stops before it.
pub fn lex<'a>(input: &'a [u8]) -> (r: Parsed<'a, Vec<Token<'a>>>)
    ensures
        r matches Ok((rest, found)) && tokens(input@, Seq::empty()) == (rest@, lexemes_of(found@)),
{
    let mut rest = input;
    let mut found: Vec<Token<'a>> = Vec::new();
    assert(lexemes_of(found@) =~= Seq::empty());
    loop
        invariant
            tokens(input@, Seq::empty()) == tokens(rest@, lexemes_of(found@)),
        ensures
            tokens(input@, Seq::empty()) == (rest@, lexemes_of(found@)),
        decreases rest@.len(),
    {
        match parse_token(rest) {
            Ok((next, one)) => {
                let ghost before = found@;
                found.push(one);
                assert(lexemes_of(found@) =~= lexemes_of(before).push(one@));
                rest = next;
            },
            Err(_) => {
                break ;
            },
        }
    }
    Ok((rest, found))
}

} // verus!
