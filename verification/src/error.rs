//! The ways a parse can fail.
use vstd::prelude::*;

verus! {

/// Why a parser gave no result. Every failure is an ordinary value: a caller
/// may try another rule at the same position.
#[derive(Clone, Copy, Debug, PartialEq, Eq, Structural)]
pub enum ParseFailure {
    /// The input at this position is not what the rule asks for.
    SyntaxMismatch,
    /// A literal has the right form and a value that cannot be had: a byte
    /// escape over 255, a code point that is no Unicode scalar value, a number
    /// that does not fit.
    MalformedLiteral,
    /// The input ended where the rule needed more bytes.
    IncompleteInput,
}

impl ParseFailure {
    /// How much a failure says: a mismatch least, a malformed literal most.
    pub open spec fn weight(self) -> int {
        match self {
            ParseFailure::SyntaxMismatch => 0,
            ParseFailure::IncompleteInput => 1,
            ParseFailure::MalformedLiteral => 2,
        }
    }

    /// The failure of an ordered choice whose alternatives failed with `self`
    /// and then with `later`: the weightier of the two, the earlier on a tie.
    pub open spec fn or(self, later: ParseFailure) -> ParseFailure {
        if later.weight() > self.weight() {
            later
        } else {
            self
        }
    }

    /// Joins the failures of two alternatives of an ordered choice.
    pub fn join(self, later: ParseFailure) -> (r: ParseFailure)
        ensures
            r == self.or(later),
    {
        match (self, later) {
            (ParseFailure::MalformedLiteral, _) => self,
            (_, ParseFailure::MalformedLiteral) => later,
            (ParseFailure::IncompleteInput, _) => self,
            (_, ParseFailure::IncompleteInput) => later,
            _ => self,
        }
    }

    /// A short description.
    pub fn message(&self) -> (r: &'static str)
        ensures
            r@ == self.message_text(),
    {
        match self {
            ParseFailure::SyntaxMismatch => "syntax mismatch",
            ParseFailure::MalformedLiteral => "malformed literal",
            ParseFailure::IncompleteInput => "incomplete input",
        }
    }

    /// The text of [`ParseFailure::message`].
    pub open spec fn message_text(self) -> Seq<char> {
        match self {
            ParseFailure::SyntaxMismatch => "syntax mismatch"@,
            ParseFailure::MalformedLiteral => "malformed literal"@,
            ParseFailure::IncompleteInput => "incomplete input"@,
        }
    }
}

/// What an executable parser returns: the input left over and the value read.
pub type Parsed<'a, T> = Result<(&'a [u8], T), ParseFailure>;

/// What a grammar rule yields on a sequence of bytes: the bytes left over and
/// the value read.
pub type Outcome<T> = Result<(Seq<u8>, T), ParseFailure>;

/// The outcome that an executable result stands for.
pub open spec fn seen<T: View>(r: Result<(&[u8], T), ParseFailure>) -> Outcome<T::V> {
    match r {
        Ok((rest, value)) => Ok((rest@, value@)),
        Err(e) => Err(e),
    }
}

} // verus!
