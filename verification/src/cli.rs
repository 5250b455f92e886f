//! The search options and the pattern they compose.

use crate::engine::compile;
use crate::engine::error_text;
use crate::engine::regex_accepts;
use crate::engine::regex_error_text;
use crate::engine::regex_refusal;
use crate::engine::regex_source;
use crate::error::SearchError;
use crate::search::Searchable;
use regex::Regex;
use std::path::PathBuf;
use vstd::prelude::*;

verus! {

#[verifier::external_type_specification]
#[verifier::external_body]
pub struct ExPathBuf(PathBuf);

/// `Clone::clone` on an optional path: the copy names the same path.
#[verifier::external_body]
fn clone_path(path: &Option<PathBuf>) -> (r: Option<PathBuf>)
    ensures
        r == *path,
{
    path.clone()
}

/// The pattern `p` anchored at both ends of the line.
pub open spec fn whole_line_pattern(p: Seq<char>) -> Seq<char> {
    "^"@ + p + "$"@
}

/// The pattern `p` between two word boundaries.
pub open spec fn whole_word_pattern(p: Seq<char>) -> Seq<char> {
    "\\b"@ + p + "\\b"@
}

/// The pattern `p` behind the flag that makes the whole of it ignore case.
pub open spec fn ignore_case_pattern(p: Seq<char>) -> Seq<char> {
    "(?i)"@ + p
}

/// What to search for, where, and how the pattern is to be read.
pub struct Cli {
    /// The pattern to look for.
    pub pattern: String,
    /// The file to search; without one the text comes from standard input.
    pub path: Option<PathBuf>,
    /// Letters match whatever their case.
    pub ignore_case: bool,
    /// The pattern must match whole words.
    pub whole_word: bool,
    /// The pattern must match a whole line.
    pub whole_line: bool,
}

/// The options as plain values.
pub struct CliView {
    pub pattern: Seq<char>,
    pub path: Option<PathBuf>,
    pub ignore_case: bool,
    pub whole_word: bool,
    pub whole_line: bool,
}

impl CliView {
    /// The same options around another pattern.
    pub open spec fn with_pattern(self, pattern: Seq<char>) -> CliView {
        CliView { pattern, ..self }
    }

    /// The expression that the options ask for. The line anchors go on
    /// first, the word boundaries around them, and the case flag in front of
    /// everything, so that it governs the whole expression.
    pub open spec fn composed(self) -> Seq<char> {
        let line = if self.whole_line {
            whole_line_pattern(self.pattern)
        } else {
            self.pattern
        };
        let word = if self.whole_word {
            whole_word_pattern(line)
        } else {
            line
        };
        if self.ignore_case {
            ignore_case_pattern(word)
        } else {
            word
        }
    }
}

impl View for Cli {
    type V = CliView;

    open spec fn view(&self) -> CliView {
        CliView {
            pattern: self.pattern@,
            path: self.path,
            ignore_case: self.ignore_case,
            whole_word: self.whole_word,
            whole_line: self.whole_line,
        }
    }
}

/// The pattern anchored at both ends of the line.
fn anchor_line(pattern: &str) -> (r: String)
    ensures
        r@ == whole_line_pattern(pattern@),
{
    let mut out = String::from_str("^");
    out.append(pattern);
    out.append("$");
    out
}

/// The pattern between two word boundaries.
fn bound_word(pattern: &str) -> (r: String)
    ensures
        r@ == whole_word_pattern(pattern@),
{
    let mut out = String::from_str("\\b");
    out.append(pattern);
    out.append("\\b");
    out
}

/// The pattern behind the flag that makes it ignore case.
fn fold_case(pattern: &str) -> (r: String)
    ensures
        r@ == ignore_case_pattern(pattern@),
{
    let mut out = String::from_str("(?i)");
    out.append(pattern);
    out
}

/// What a compilation by the engine means for the search: the compiled
/// expression, or an invalid pattern with the engine's message.
pub fn pattern_from(outcome: Result<Regex, regex::Error>) -> (r: Result<Regex, SearchError>)
    ensures
        match outcome {
            Ok(re) => r == Ok::<Regex, SearchError>(re),
            Err(e) => r matches Err(SearchError::InvalidPattern(why)) && why@ == regex_error_text(
                e,
            ),
        },
{
    match outcome {
        Ok(re) => Ok(re),
        Err(e) => Err(SearchError::InvalidPattern(error_text(&e))),
    }
}

/// Puts a compiled pattern and the text that was read together. A pattern
/// that did not compile comes first; then a text that could not be read.
pub fn searchable_from(pattern: Result<Regex, SearchError>, input: Result<String, String>) -> (r:
    Result<Searchable, SearchError>)
    ensures
        match (pattern, input) {
            (Err(e), _) => r == Err::<Searchable, SearchError>(e),
            (Ok(_), Err(why)) => r == Err::<Searchable, SearchError>(
                SearchError::InputUnavailable(why),
            ),
            (Ok(re), Ok(buffer)) => r == Ok::<Searchable, SearchError>(Searchable { re, buffer }),
        },
{
    match pattern {
        Err(e) => Err(e),
        Ok(re) => match input {
            Err(why) => Err(SearchError::InputUnavailable(why)),
            Ok(buffer) => Ok(Searchable { re, buffer }),
        },
    }
}

impl Cli {
    /// A copy of the options whose pattern, if `predicate` holds, is what
    /// `modifier` makes of the present one.
    pub fn pattern_modifier<F>(&self, predicate: bool, modifier: F) -> (r: Self) where
        F: FnOnce(&str) -> String,
        requires
            predicate ==> forall|p: &str| p@ == self.pattern@ ==> call_requires(modifier, (p,)),
        ensures
            r@ == self@.with_pattern(r.pattern@),
            !predicate ==> r.pattern@ == self.pattern@,
            predicate ==> exists|p: &str|
                p@ == self.pattern@ && #[trigger] call_ensures(modifier, (p,), r.pattern),
    {
        let pattern = if predicate {
            let current = self.pattern.as_str();
            let changed = modifier(current);
            assert(current@ == self.pattern@ && call_ensures(modifier, (current,), changed));
            changed
        } else {
            self.pattern.clone()
        };
        let ghost made = pattern;
        let r = Cli {
            pattern,
            path: clone_path(&self.path),
            ignore_case: self.ignore_case,
            whole_word: self.whole_word,
            whole_line: self.whole_line,
        };
        assert(r.pattern == made);
        r
    }

    /// The options with the pattern between word boundaries, if whole words
    /// are asked for.
    pub fn whole_word(&self) -> (r: Self)
        ensures
            r@ == self@.with_pattern(
                if self.whole_word {
                    whole_word_pattern(self.pattern@)
                } else {
                    self.pattern@
                },
            ),
    {
        self.pattern_modifier(self.whole_word, bound_word)
    }

    /// The options with the pattern anchored at both ends, if whole lines
    /// are asked for.
    pub fn whole_line(&self) -> (r: Self)
        ensures
            r@ == self@.with_pattern(
                if self.whole_line {
                    whole_line_pattern(self.pattern@)
                } else {
                    self.pattern@
                },
            ),
    {
        self.pattern_modifier(self.whole_line, anchor_line)
    }

    /// The options with the case flag in front of the pattern, if case is to
    /// be ignored.
    pub fn ignore_case(&self) -> (r: Self)
        ensures
            r@ == self@.with_pattern(
                if self.ignore_case {
                    ignore_case_pattern(self.pattern@)
                } else {
                    self.pattern@
                },
            ),
    {
        self.pattern_modifier(self.ignore_case, fold_case)
    }

    /// Compiles the expression that the options compose. The result is the
    /// engine's answer on that text: where the engine accepts it, the
    /// expression compiled from exactly that text, and otherwise an invalid
    /// pattern with the engine's message.
    pub fn build_pattern(&self) -> (r: Result<Regex, SearchError>)
        ensures
            r is Ok <==> regex_accepts(self@.composed()),
            r matches Ok(re) ==> regex_source(re) == self@.composed(),
            r matches Err(e) ==> (e matches SearchError::InvalidPattern(why) && why@
                == regex_refusal(self@.composed())),
    {
        let composed = self.whole_line().whole_word().ignore_case();
        pattern_from(compile(composed.pattern.as_str()))
    }

    /// Compiles the pattern and joins it with the text that was read, given
    /// as `input`: the text, or the reason why there is none. A pattern that
    /// the engine refuses is an invalid pattern whatever the input is. With
    /// a pattern that the engine accepts, an input that could not be read
    /// is reported with its reason, and an input that was read is kept as it
    /// is, beside the expression compiled from the composed text.
    pub fn to_searchable(&self, input: Result<String, String>) -> (r: Result<
        Searchable,
        SearchError,
    >)
        ensures
            r is Ok <==> regex_accepts(self@.composed()) && input is Ok,
            !regex_accepts(self@.composed()) ==> (r matches Err(
                SearchError::InvalidPattern(why),
            ) && why@ == regex_refusal(self@.composed())),
            regex_accepts(self@.composed()) ==> (match input {
                Err(why) => r == Err::<Searchable, SearchError>(
                    SearchError::InputUnavailable(why),
                ),
                Ok(buffer) => (r matches Ok(found) && found.buffer == buffer && regex_source(
                    found.re,
                ) == self@.composed()),
            }),
    {
        searchable_from(self.build_pattern(), input)
    }
}

} // verus!
