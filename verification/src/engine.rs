//! The regular-expression engine that the search rests on.
//!
//! Matching itself is done by the `regex` crate. Nothing in this module is
//! proved: each function states what the crate's documentation promises of
//! the call it makes, and the rest of the library is verified against these
//! statements.

use crate::color::painted_red;
use crate::color::Colorize;
use regex::Regex;
use vstd::prelude::*;

verus! {

#[verifier::external_type_specification]
#[verifier::external_body]
pub struct ExRegex(Regex);

#[verifier::external_type_specification]
#[verifier::external_body]
pub struct ExRegexError(regex::Error);

/// Whether the engine compiles the pattern text: whether `Regex::new`, with
/// the limits it is built with, answers it with a compiled expression.
pub uninterp spec fn regex_accepts(pattern: Seq<char>) -> bool;

/// The message with which the engine refuses the pattern text: what the
/// error that `Regex::new` answers it with writes as its `Display`.
pub uninterp spec fn regex_refusal(pattern: Seq<char>) -> Seq<char>;

/// The pattern text that a compiled expression was built from: what
/// `Regex::as_str` returns for it.
pub uninterp spec fn regex_source(re: Regex) -> Seq<char>;

/// Whether the expression matches anywhere in the haystack: what
/// `Regex::is_match` returns.
pub uninterp spec fn regex_is_match(re: Regex, haystack: Seq<char>) -> bool;

/// The successive non-overlapping matches of the expression in the haystack,
/// in the order in which the engine finds them: the matches that
/// `Regex::replace_all` replaces. Each is the pair of the position of its
/// first character and the position after its last one, counted in
/// characters.
pub uninterp spec fn regex_matches(re: Regex, haystack: Seq<char>) -> Seq<(int, int)>;

/// The message with which the engine describes why it refused a pattern:
/// what the error's `Display` writes.
pub uninterp spec fn regex_error_text(e: regex::Error) -> Seq<char>;

/// `Regex::new`: compiles `pattern`. The answer depends on the text alone:
/// a compiled expression, which remembers the text it was built from, where
/// the engine accepts it, and otherwise the error that carries the engine's
/// message for it.
#[verifier::external_body]
pub(crate) fn compile(pattern: &str) -> (r: Result<Regex, regex::Error>)
    ensures
        r is Ok <==> regex_accepts(pattern@),
        r matches Ok(re) ==> regex_source(re) == pattern@,
        r matches Err(e) ==> regex_error_text(e) == regex_refusal(pattern@),
{
    Regex::new(pattern)
}

/// `Regex::is_match`: true exactly when the expression matches somewhere in
/// `haystack`, which is when there is at least one match to find in it.
#[verifier::external_body]
pub(crate) fn is_match(re: &Regex, haystack: &str) -> (r: bool)
    ensures
        r == regex_is_match(*re, haystack@),
        r == (regex_matches(*re, haystack@).len() > 0),
{
    re.is_match(haystack)
}

/// `Regex::replace_all` with a replacement that paints the match red: the
/// haystack with every one of the non-overlapping matches wrapped in red
/// and everything between them left as it is. The matches lie inside the
/// haystack, one after the other.
#[verifier::external_body]
pub(crate) fn replace_all_red(re: &Regex, haystack: &str) -> (r: String)
    ensures
        painted_red(haystack@, regex_matches(*re, haystack@), r@),
{
    re.replace_all(haystack, |found: &regex::Captures| found[0].red()).into_owned()
}

/// `ToString::to_string` on the engine's error: its message.
#[verifier::external_body]
pub(crate) fn error_text(e: &regex::Error) -> (r: String)
    ensures
        r@ == regex_error_text(*e),
{
    e.to_string()
}

} // verus!
