//! Regular expressions, searched with the `regex` crate.
//!
//! A pattern is written as text and compiled where it is used. What a pattern
//! finds in a text is a function of the two texts; the functions without a
//! body name it, and each search below says that its result is what the name
//! stands for. Offsets count the bytes of the text in UTF-8.

use crate::esv::{NARRATIVE_PATTERN, STRUCTURED_PATTERN};
use crate::models::{ErrorView, SearchError, result_view};
use crate::text::{
    ascii_lowered, ascii_raised, byte_len, byte_slice, occurs_in, same_ignoring_case, span_in,
    white_space,
};
use regex::Regex;
use vstd::prelude::*;
use vstd::string::*;
use vstd::utf8::*;

verus! {

/// What `regex::Regex::new` has against a pattern, in the words of its error:
/// nothing where it accepts the pattern.
pub uninterp spec fn regex_failure(pattern: Seq<char>) -> Option<Seq<char>>;

/// A pattern that `regex::Regex::new` accepts.
pub open spec fn regex_compiles(pattern: Seq<char>) -> bool {
    regex_failure(pattern) is None
}

/// One of the two patterns of the track in a public use document.
pub open spec fn is_track_pattern(pattern: Seq<char>) -> bool {
    pattern == STRUCTURED_PATTERN@ || pattern == NARRATIVE_PATTERN@
}

/// A character that means more than itself in a pattern.
pub open spec fn is_meta(c: char) -> bool {
    ||| c == '\\'
    ||| c == '.'
    ||| c == '+'
    ||| c == '*'
    ||| c == '?'
    ||| c == '('
    ||| c == ')'
    ||| c == '|'
    ||| c == '['
    ||| c == ']'
    ||| c == '{'
    ||| c == '}'
    ||| c == '^'
    ||| c == '$'
    ||| c == '#'
    ||| c == '&'
    ||| c == '-'
    ||| c == '~'
}

/// A text with a backslash before each character that means more than itself
/// in a pattern.
pub open spec fn regex_escaped(text: Seq<char>) -> Seq<char> {
    text.map_values(
        |c: char|
            if is_meta(c) {
                seq!['\\', c]
            } else {
                seq![c]
            },
    ).flatten()
}

/// Where `regex::Regex::find` finds the first match of a pattern.
pub uninterp spec fn first_match(pattern: Seq<char>, text: Seq<char>) -> Option<(usize, usize)>;

/// Where `regex::Regex::find_iter` finds the matches of a pattern.
pub uninterp spec fn all_matches(pattern: Seq<char>, text: Seq<char>) -> Seq<(usize, usize)>;

/// Where a group of the first match stands, as `regex::Regex::captures` tells
/// it: nothing without a match, and nothing inside where the group took no
/// part in the match.
pub uninterp spec fn first_group(
    pattern: Seq<char>,
    text: Seq<char>,
    group: usize,
) -> Option<Option<(usize, usize)>>;

/// Where a group of each match stands, as `regex::Regex::captures_iter` tells
/// it.
pub uninterp spec fn all_groups(pattern: Seq<char>, text: Seq<char>, group: usize) -> Seq<
    Option<(usize, usize)>,
>;

/// A text with the first match of a pattern replaced.
pub open spec fn first_replaced(
    pattern: Seq<char>,
    text: Seq<char>,
    replacement: Seq<char>,
) -> Seq<char> {
    match first_match(pattern, text) {
        Some((from, to)) => byte_slice(text, 0, from as int) + replacement + byte_slice(
            text,
            to as int,
            byte_len(text) as int,
        ),
        None => text,
    }
}

/// `regex::Regex::new`: what it has against the pattern, in the words of its
/// error. The patterns of a track hold nothing but the documented syntax, and
/// it has nothing against them.
#[verifier::external_body]
fn failure(pattern: &str) -> (r: Option<String>)
    ensures
        r.deep_view() == regex_failure(pattern@),
        is_track_pattern(pattern@) ==> r is None,
{
    Regex::new(pattern).err().map(|error| error.to_string())
}

/// `regex::escape`: the text, written as a pattern that stands for it alone.
/// A backslash stands before each of the characters that mean more than
/// themselves, and the others are left as they are.
#[verifier::external_body]
pub(crate) fn escape(text: &str) -> (r: String)
    ensures
        r@ == regex_escaped(text@),
{
    regex::escape(text)
}

/// `regex::Regex::find` on a pattern that compiles: where the first match
/// stands. The offsets lie on boundaries of the text.
#[verifier::external_body]
pub(crate) fn find_first(pattern: &str, text: &str) -> (r: Option<(usize, usize)>)
    requires
        regex_compiles(pattern@),
    ensures
        r == first_match(pattern@, text@),
        r matches Some(span) ==> span_in(text@, span),
{
    Regex::new(pattern).unwrap().find(text).map(|m| (m.start(), m.end()))
}

/// `regex::Regex::is_match` on a pattern that compiles: whether there is a
/// match anywhere in the text.
#[verifier::external_body]
pub(crate) fn is_match(pattern: &str, text: &str) -> (r: bool)
    requires
        regex_compiles(pattern@),
    ensures
        r == (first_match(pattern@, text@) is Some),
{
    Regex::new(pattern).unwrap().is_match(text)
}

/// `regex::Regex::find_iter` on a pattern that compiles: where the matches
/// stand, in order. The offsets lie on boundaries of the text.
#[verifier::external_body]
pub(crate) fn find_all(pattern: &str, text: &str) -> (r: Vec<(usize, usize)>)
    requires
        regex_compiles(pattern@),
    ensures
        r@ == all_matches(pattern@, text@),
        forall|i: int| 0 <= i < r@.len() ==> span_in(text@, #[trigger] r@[i]),
{
    Regex::new(pattern).unwrap().find_iter(text).map(|m| (m.start(), m.end())).collect()
}

/// `regex::Regex::captures` on a pattern that compiles: where a group of the
/// first match stands. The offsets lie on boundaries of the text.
///
/// The patterns of a track are written without regard to case, and tell ASCII
/// capitals and small letters apart nowhere: they find the same places in a
/// text with its small letters made capitals. A match of them holds the
/// letters IID, capitals or not.
#[verifier::external_body]
pub(crate) fn find_group(pattern: &str, text: &str, group: usize) -> (r: Option<
    Option<(usize, usize)>,
>)
    requires
        regex_compiles(pattern@),
    ensures
        r == first_group(pattern@, text@, group),
        is_track_pattern(pattern@) ==> r == first_group(pattern@, ascii_raised(text@), group),
        is_track_pattern(pattern@) && !occurs_in("iid"@, ascii_lowered(text@)) ==> r is None,
        r matches Some(Some(span)) ==> span_in(text@, span),
{
    Regex::new(pattern).unwrap().captures(text).map(
        |c| c.get(group).map(|m| (m.start(), m.end())),
    )
}

/// `regex::Regex::captures_iter` on a pattern that compiles: where a group of
/// each match stands, in the order of the matches. The offsets lie on
/// boundaries of the text.
#[verifier::external_body]
pub(crate) fn find_groups(pattern: &str, text: &str, group: usize) -> (r: Vec<
    Option<(usize, usize)>,
>)
    requires
        regex_compiles(pattern@),
    ensures
        r@ == all_groups(pattern@, text@, group),
        forall|i: int|
            0 <= i < r@.len() ==> (#[trigger] r@[i] matches Some(span) ==> span_in(text@, span)),
{
    Regex::new(pattern).unwrap().captures_iter(text).map(
        |c| c.get(group).map(|m| (m.start(), m.end())),
    ).collect()
}

/// White space or a hyphen.
pub open spec fn is_separator(c: char) -> bool {
    white_space(c) || c == '-'
}

/// The first `n` characters of a text are a term, whatever the case of its
/// ASCII letters, and all the white space and hyphens after it.
pub open spec fn leads(term: Seq<char>, text: Seq<char>, n: int) -> bool {
    &&& term.len() <= n <= text.len()
    &&& same_ignoring_case(text.take(term.len() as int), term)
    &&& forall|k: int| term.len() <= k < n ==> is_separator(#[trigger] text[k])
    &&& n < text.len() ==> !is_separator(text[n])
}

/// A text begins with a term, whatever the case of its ASCII letters.
pub open spec fn begins_with(term: Seq<char>, text: Seq<char>) -> bool {
    term.len() <= text.len() && same_ignoring_case(text.take(term.len() as int), term)
}

/// `regex::Regex::replace` on a pattern that compiles, with a replacement that
/// names no group: the text with its first match replaced.
///
/// The pattern of an escaped term at the beginning, with `\s` and hyphens
/// after it, takes in the term, whatever the case of its letters, and as much
/// white space and as many hyphens after it as there are. It finds nothing in
/// an ASCII text that does not begin with an ASCII term; letters outside ASCII
/// can match one of another code, and of those nothing is said here.
#[verifier::external_body]
pub(crate) fn replace_first(pattern: &str, text: &str, replacement: &str) -> (r: String)
    requires
        regex_compiles(pattern@),
        !replacement@.contains('$'),
    ensures
        r@ == first_replaced(pattern@, text@, replacement@),
        forall|term: Seq<char>, n: int|
            pattern@ == r"(?i)^"@ + #[trigger] regex_escaped(term) + r"[\s-]*"@
                && #[trigger] leads(term, text@, n) ==> r@ == replacement@ + text@.skip(n),
        forall|term: Seq<char>|
            pattern@ == r"(?i)^"@ + #[trigger] regex_escaped(term) + r"[\s-]*"@
                && is_ascii_chars(term) && is_ascii_chars(text@) && !begins_with(term, text@)
                ==> r@ == text@,
{
    Regex::new(pattern).unwrap().replace(text, replacement).into_owned()
}

/// What `compile` hands back.
pub open spec fn compiled(pattern: Seq<char>) -> Result<(), ErrorView> {
    match regex_failure(pattern) {
        None => Ok(()),
        Some(cause) => Err(ErrorView::InvalidPattern(cause)),
    }
}

/// Nothing for a pattern that compiles, and otherwise the error.
pub fn compile(pattern: &str) -> (r: Result<(), SearchError>)
    ensures
        result_view(r) == compiled(pattern@),
        is_track_pattern(pattern@) ==> r is Ok,
{
    match failure(pattern) {
        None => Ok(()),
        Some(cause) => Err(SearchError::InvalidPattern(cause)),
    }
}

/// The pattern that finds a term where no ASCII letter or digit touches it,
/// in capitals or not. The term is its second group.
pub open spec fn term_pattern(term: Seq<char>) -> Seq<char> {
    r"(?i)(^|[^A-Za-z0-9])("@ + regex_escaped(term) + r")([^A-Za-z0-9]|$)"@
}

/// What `compile_term_pattern` hands back.
pub open spec fn compiled_term(term: Seq<char>) -> Result<Seq<char>, ErrorView> {
    match regex_failure(term_pattern(term)) {
        None => Ok(term_pattern(term)),
        Some(cause) => Err(ErrorView::InvalidTerm(cause)),
    }
}

/// The pattern that finds a term where no ASCII letter or digit touches it,
/// where it compiles, and otherwise the error.
pub fn compile_term_pattern(term: &str) -> (r: Result<String, SearchError>)
    ensures
        result_view(r) == compiled_term(term@),
{
    let pattern = write_term_pattern(term);
    match failure(pattern.as_str()) {
        None => Ok(pattern),
        Some(cause) => Err(SearchError::InvalidTerm(cause)),
    }
}

/// The pattern that finds a term where no ASCII letter or digit touches it.
pub fn write_term_pattern(term: &str) -> (r: String)
    ensures
        r@ == term_pattern(term@),
{
    r"(?i)(^|[^A-Za-z0-9])(".to_owned().concat(escape(term).as_str()).concat(
        r")([^A-Za-z0-9]|$)",
    )
}

} // verus!
