//! Regular expressions.
use vstd::prelude::*;

use crate::text::{has, joined, small_letters};

verus! {

/// How often a regular expression matches a text without overlap; none where the expression
/// does not compile.
pub uninterp spec fn match_count(pattern: Seq<char>, text: Seq<char>) -> Option<usize>;

/// `regex::Regex::find_iter`, counted: the number of matches that follow each other without
/// overlap. What an expression matches is left to the crate's syntax.
#[verifier::external_body]
pub(crate) fn count_matches(pattern: &str, text: &str) -> (r: Option<usize>)
    ensures
        r == match_count(pattern@, text@),
{
    regex::Regex::new(pattern).ok().map(|re| re.find_iter(text).count())
}

/// Whether a regular expression matches somewhere in a text; none where the expression does
/// not compile.
pub uninterp spec fn matches_text(
    pattern: Seq<char>,
    ignore_case: bool,
    text: Seq<char>,
) -> Option<bool>;

/// A small ASCII letter whose only other form is its capital. Unicode has a third one of `k`, the
/// sign for kelvin, and of `s`, the long one.
pub open spec fn is_two_cased(c: char) -> bool {
    'a' <= c && c <= 'z' && c != 'k' && c != 's'
}

/// Blanks and letters with two forms, at least one.
pub open spec fn is_spelled(s: Seq<char>) -> bool {
    s.len() > 0 && forall|i: int|
        0 <= i < s.len() ==> (#[trigger] s[i]) == ' ' || is_two_cased(s[i])
}

/// The short expression for one of some words followed by others, without regard to case.
pub open spec fn is_choice(pattern: Seq<char>, words: Seq<Seq<char>>, tail: Seq<char>) -> bool {
    &&& pattern == "(?i)(?:"@ + joined(words, "|"@) + ")"@ + tail
    &&& pattern.len() <= 100
    &&& words.len() > 0
    &&& forall|k: int| 0 <= k < words.len() ==> is_spelled(#[trigger] words[k])
    &&& is_spelled(tail)
}

/// A text in small letters holds one of some words followed by others.
pub open spec fn holds_choice(lower: Seq<char>, words: Seq<Seq<char>>, tail: Seq<char>) -> bool {
    exists|k: int| 0 <= k < words.len() && has(lower, (#[trigger] words[k]) + tail)
}

/// Why a regular expression does not compile; none where it does.
pub uninterp spec fn build_error(pattern: Seq<char>, ignore_case: bool) -> Option<Seq<char>>;

/// `regex::Regex::is_match` of an expression that `regex::RegexBuilder` compiles, with or
/// without regard to case: whether it matches somewhere in a text. There is an answer exactly
/// where the expression compiles. A short expression for one of some words followed by others,
/// without regard to case, compiles, and matches a text where the text holds that, whatever the case
/// of its ASCII letters: the crate's table of simple case folding gives each letter of the words
/// but its capital. Of other expressions it is left to the crate's syntax and to Unicode's tables
/// what matches.
#[verifier::external_body]
pub(crate) fn is_match(pattern: &str, ignore_case: bool, text: &str) -> (r: Option<bool>)
    ensures
        r == matches_text(pattern@, ignore_case, text@),
        r is Some <==> build_error(pattern@, ignore_case) is None,
        forall|words: Seq<Seq<char>>, tail: Seq<char>|
            #[trigger] is_choice(pattern@, words, tail) ==> r == Some(
                holds_choice(small_letters(text@), words, tail),
            ),
{
    regex::RegexBuilder::new(pattern).case_insensitive(ignore_case).build().ok().map(
        |re| re.is_match(text),
    )
}

/// `regex::RegexBuilder::build`: the message of the error where an expression does not compile.
#[verifier::external_body]
pub(crate) fn why_not_compiled(pattern: &str, ignore_case: bool) -> (r: Option<String>)
    ensures
        match r {
            Some(message) => build_error(pattern@, ignore_case) == Some(message@),
            None => build_error(pattern@, ignore_case) is None,
        },
{
    regex::RegexBuilder::new(pattern).case_insensitive(ignore_case).build().err().map(
        |error| error.to_string(),
    )
}

} // verus!
