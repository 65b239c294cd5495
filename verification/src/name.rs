//! Names, labels and lists of names.
use crate::ast::{ASTNode, Tree};
use crate::error::{seen, Outcome, ParseFailure, Parsed};
use crate::lexical::{
    from, lemma_run_len, match_tag, run_len, run_of, skip_space, sp, tag, text_of, to_text, Class,
};
use vstd::prelude::*;
use vstd::slice::slice_subrange;

verus! {

/// Whether `text` is one of the reserved words.
pub open spec fn is_keyword(text: Seq<char>) -> bool {
    ||| text == "and"@
    ||| text == "break"@
    ||| text == "do"@
    ||| text == "else"@
    ||| text == "elseif"@
    ||| text == "end"@
    ||| text == "false"@
    ||| text == "for"@
    ||| text == "function"@
    ||| text == "goto"@
    ||| text == "if"@
    ||| text == "in"@
    ||| text == "local"@
    ||| text == "nil"@
    ||| text == "not"@
    ||| text == "or"@
    ||| text == "repeat"@
    ||| text == "return"@
    ||| text == "then"@
    ||| text == "true"@
    ||| text == "until"@
    ||| text == "while"@
}

/// Whether `b` may begin a name: a letter or `_`.
pub open spec fn is_name_start(b: u8) -> bool {
    Class::Alpha.has(b) || b == 0x5F
}

/// A name: a letter or `_`, then letters, digits and `_` as far as they go;
/// the whole is not a reserved word.
pub open spec fn valid_name(s: Seq<u8>) -> Outcome<Seq<char>> {
    if s.len() == 0 {
        Err(ParseFailure::IncompleteInput)
    } else if !is_name_start(s[0]) {
        Err(ParseFailure::SyntaxMismatch)
    } else {
        let n = run_len(s, Class::Word) as int;
        if is_keyword(text_of(s.take(n))) {
            Err(ParseFailure::SyntaxMismatch)
        } else {
            Ok((s.skip(n), text_of(s.take(n))))
        }
    }
}

/// A name as a node.
pub open spec fn name(s: Seq<u8>) -> Outcome<Tree> {
    match valid_name(s) {
        Ok((rest, text)) => Ok((rest, Tree::Name(text))),
        Err(e) => Err(e),
    }
}

/// A label: `::`, a name and `::`, white space allowed around the name.
pub open spec fn label(s: Seq<u8>) -> Outcome<Tree> {
    match tag(s, "::"@) {
        Ok((rest, _)) => match valid_name(skip_space(rest)) {
            Ok((rest, text)) => match tag(skip_space(rest), "::"@) {
                Ok((rest, _)) => Ok((rest, Tree::Label(text))),
                Err(e) => Err(e),
            },
            Err(e) => Err(e),
        },
        Err(e) => Err(e),
    }
}

/// A comma with white space allowed around it.
pub open spec fn comma(s: Seq<u8>) -> Outcome<()> {
    match tag(skip_space(s), ","@) {
        Ok((rest, _)) => Ok((skip_space(rest), ())),
        Err(e) => Err(e),
    }
}

/// The names that follow the first of a list: a comma and a name, as often as
/// both are there.
pub open spec fn more_names(s: Seq<u8>, found: Seq<Tree>) -> (Seq<u8>, Seq<Tree>)
    decreases s.len(),
{
    match comma(s) {
        Ok((rest, _)) => match name(rest) {
            Ok((rest, node)) => if rest.len() < s.len() {
                more_names(rest, found.push(node))
            } else {
                (s, found)
            },
            Err(_) => (s, found),
        },
        Err(_) => (s, found),
    }
}

/// A list of names: one or more, with commas between.
pub open spec fn namelist(s: Seq<u8>) -> Outcome<Tree> {
    match name(s) {
        Ok((rest, first)) => {
            let (rest, all) = more_names(rest, seq![first]);
            Ok((rest, Tree::NameList(all)))
        },
        Err(e) => Err(e),
    }
}

/// Whether the bytes, read as characters, are `word`.
fn same_text(bytes: &[u8], word: &str) -> (r: bool)
    ensures
        r == (text_of(bytes@) == word@),
{
    let n = word.unicode_len();
    if bytes.len() != n {
        return false;
    }
    let mut i: usize = 0;
    while i < n
        invariant
            i <= n,
            n == word@.len(),
            n == bytes@.len(),
            forall|j: int| 0 <= j < i ==> text_of(bytes@)[j] == word@[j],
        decreases n - i,
    {
        if bytes[i] as char != word.get_char(i) {
            assert(text_of(bytes@)[i as int] != word@[i as int]);
            return false;
        }
        i += 1;
    }
    assert(text_of(bytes@) =~= word@);
    true
}

/// Whether the bytes spell a reserved word.
pub fn reserved(bytes: &[u8]) -> (r: bool)
    ensures
        r == is_keyword(text_of(bytes@)),
{
    same_text(bytes, "and") || same_text(bytes, "break") || same_text(bytes, "do") || same_text(
        bytes,
        "else",
    ) || same_text(bytes, "elseif") || same_text(bytes, "end") || same_text(bytes, "false")
        || same_text(bytes, "for") || same_text(bytes, "function") || same_text(bytes, "goto")
        || same_text(bytes, "if") || same_text(bytes, "in") || same_text(bytes, "local")
        || same_text(bytes, "nil") || same_text(bytes, "not") || same_text(bytes, "or")
        || same_text(bytes, "repeat") || same_text(bytes, "return") || same_text(bytes, "then")
        || same_text(bytes, "true") || same_text(bytes, "until") || same_text(bytes, "while")
}

/// Reads a name and gives its text.
pub fn parse_valid_name<'a>(input: &'a [u8]) -> (r: Parsed<'a, String>)
    ensures
        seen(r) == valid_name(input@),
        r matches Ok((rest, _)) ==> rest@.len() < input@.len(),
{
    if input.len() == 0 {
        return Err(ParseFailure::IncompleteInput);
    }
    let b = input[0];
    if !((0x41 <= b && b <= 0x5A) || (0x61 <= b && b <= 0x7A) || b == 0x5F) {
        return Err(ParseFailure::SyntaxMismatch);
    }
    let n = run_of(input, Class::Word);
    proof {
        lemma_run_len(input@, Class::Word);
        assert(run_len(input@, Class::Word) > 0);
    }
    let word = slice_subrange(input, 0, n);
    if reserved(word) {
        Err(ParseFailure::SyntaxMismatch)
    } else {
        Ok((from(input, n), to_text(word)))
    }
}

/// Reads a name.
pub fn parse_name<'a>(input: &'a [u8]) -> (r: Parsed<'a, ASTNode>)
    ensures
        seen(r) == name(input@),
        r matches Ok((rest, _)) ==> rest@.len() < input@.len(),
{
    match parse_valid_name(input) {
        Ok((rest, text)) => Ok((rest, ASTNode::Name(text))),
        Err(e) => Err(e),
    }
}

/// Reads a label.
pub fn parse_label<'a>(input: &'a [u8]) -> (r: Parsed<'a, ASTNode>)
    ensures
        seen(r) == label(input@),
        r matches Ok((rest, _)) ==> rest@.len() < input@.len(),
{
    match match_tag(input, "::") {
        Ok((rest, _)) => {
            proof {
                lemma_run_len(rest@, Class::Space);
            }
            match parse_valid_name(sp(rest)) {
                Ok((rest, text)) => {
                    proof {
                        lemma_run_len(rest@, Class::Space);
                    }
                    match match_tag(sp(rest), "::") {
                        Ok((rest, _)) => Ok((rest, ASTNode::Label(text))),
                        Err(e) => Err(e),
                    }
                },
                Err(e) => Err(e),
            }
        },
        Err(e) => Err(e),
    }
}

/// Reads a comma and the white space around it.
pub fn parse_comma<'a>(input: &'a [u8]) -> (r: Parsed<'a, ()>)
    ensures
        seen(r) == comma(input@),
        r matches Ok((rest, _)) ==> rest@.len() < input@.len(),
{
    proof {
        lemma_run_len(input@, Class::Space);
        reveal_strlit(",");
    }
    match match_tag(sp(input), ",") {
        Ok((rest, _)) => {
            proof {
                lemma_run_len(rest@, Class::Space);
            }
            Ok((sp(rest), ()))
        },
        Err(e) => Err(e),
    }
}

/// Reads a list of names.
pub fn parse_namelist<'a>(input: &'a [u8]) -> (r: Parsed<'a, ASTNode>)
    ensures
        seen(r) == namelist(input@),
        r matches Ok((rest, _)) ==> rest@.len() < input@.len(),
{
    match parse_name(input) {
        Ok((after, first)) => {
            let mut rest = after;
            let mut list: Vec<ASTNode> = Vec::new();
            list.push(first);
            assert(crate::ast::trees_of(list@) =~= seq![first@]);
            loop
                invariant
                    rest@.len() <= after@.len(),
                    more_names(after@, seq![first@]) == more_names(
                        rest@,
                        crate::ast::trees_of(list@),
                    ),
                ensures
                    rest@.len() <= after@.len(),
                    more_names(after@, seq![first@]) == (rest@, crate::ast::trees_of(list@)),
                decreases rest@.len(),
            {
                match parse_comma(rest) {
                    Ok((next, _)) => match parse_name(next) {
                        Ok((next, node)) => {
                            let ghost before = list@;
                            list.push(node);
                            assert(crate::ast::trees_of(list@) =~= crate::ast::trees_of(
                                before,
                            ).push(node@));
                            rest = next;
                        },
                        Err(_) => {
                            break ;
                        },
                    },
                    Err(_) => {
                        break ;
                    },
                }
            }
            let node = ASTNode::NameList(list);
            assert(node@ == Tree::NameList(crate::ast::trees_of(list@))) by {
                assert(node@->NameList_0 =~= crate::ast::trees_of(list@));
            }
            Ok((rest, node))
        },
        Err(e) => Err(e),
    }
}

/// The names found after the first are added to those found before.
pub proof fn lemma_more_names_grows(s: Seq<u8>, found: Seq<Tree>)
    ensures
        more_names(s, found).1.len() >= found.len(),
    decreases s.len(),
{
    match comma(s) {
        Ok((rest, _)) => match name(rest) {
            Ok((rest, node)) => {
                if rest.len() < s.len() {
                    lemma_more_names_grows(rest, found.push(node));
                }
            },
            Err(_) => {},
        },
        Err(_) => {},
    }
}

/// A list of names that is read holds at least one name.
pub proof fn law_namelist_is_not_empty(s: Seq<u8>)
    ensures
        namelist(s) matches Ok((_, Tree::NameList(list))) ==> list.len() >= 1,
        namelist(s) is Ok ==> namelist(s)->Ok_0.1 is NameList,
{
    match name(s) {
        Ok((rest, first)) => {
            lemma_more_names_grows(rest, seq![first]);
        },
        Err(_) => {},
    }
}

} // verus!
