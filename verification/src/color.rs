//! Terminal colours: the escape codes, and painting text with them.

use crate::engine::regex_matches;
use crate::engine::replace_all_red;
use regex::Regex;
use vstd::prelude::*;

verus! {

/// The escape code that switches the terminal to red.
pub open spec fn red_code() -> Seq<char> {
    seq!['\x1b', '[', '3', '1', 'm']
}

/// The escape code that switches the terminal to green.
pub open spec fn green_code() -> Seq<char> {
    seq!['\x1b', '[', '3', '2', 'm']
}

/// The escape code that switches the terminal back to its own colour.
pub open spec fn reset_code() -> Seq<char> {
    seq!['\x1b', '[', '0', 'm']
}

/// The text `s` between the code that switches to red and the reset code.
pub open spec fn red_text(s: Seq<char>) -> Seq<char> {
    red_code() + s + reset_code()
}

/// The text `s` between the code that switches to green and the reset code.
pub open spec fn green_text(s: Seq<char>) -> Seq<char> {
    green_code() + s + reset_code()
}

/// The spans, each a pair of a start and an end position, follow one
/// another without overlap between `from` and `len`.
pub open spec fn spans_within(spans: Seq<(int, int)>, from: int, len: int) -> bool
    decreases spans.len(),
{
    if spans.len() == 0 {
        0 <= from <= len
    } else {
        &&& 0 <= from <= spans[0].0 <= spans[0].1 <= len
        &&& spans_within(spans.drop_first(), spans[0].1, len)
    }
}

/// The part of `text` from position `from` on, with each of the spans
/// painted red and the text between them unchanged.
pub open spec fn paint_spans(text: Seq<char>, spans: Seq<(int, int)>, from: int) -> Seq<char>
    decreases spans.len(),
{
    if spans.len() == 0 {
        text.subrange(from, text.len() as int)
    } else {
        text.subrange(from, spans[0].0) + red_text(text.subrange(spans[0].0, spans[0].1))
            + paint_spans(text, spans.drop_first(), spans[0].1)
    }
}

/// `out` is `text` with exactly the spans painted red, and the spans follow
/// one another inside `text`.
pub open spec fn painted_red(text: Seq<char>, spans: Seq<(int, int)>, out: Seq<char>) -> bool {
    &&& spans_within(spans, 0, text.len() as int)
    &&& out == paint_spans(text, spans, 0)
}

/// Painting adds the two codes around every span and nothing else: a text
/// without a span stays as it is, and every span makes the painted text
/// longer by the length of the two codes.
pub proof fn lemma_paint_len(text: Seq<char>, spans: Seq<(int, int)>, from: int)
    requires
        spans_within(spans, from, text.len() as int),
    ensures
        paint_spans(text, spans, from).len() == text.len() - from + 9 * spans.len(),
        spans.len() == 0 && from == 0 ==> paint_spans(text, spans, from) == text,
    decreases spans.len(),
{
    if spans.len() == 0 {
        assert(text.subrange(0, text.len() as int) =~= text);
    } else {
        lemma_paint_len(text, spans.drop_first(), spans[0].1);
    }
}

/// Text that can be shown in colour.
pub trait Colorize {
    /// The text in red.
    fn red(self) -> String;

    /// The text in green.
    fn green(self) -> String;

    /// The text with every match of `re` in red.
    fn paint_it_red(self, re: &Regex) -> String;
}

impl<'a> Colorize for &'a str {
    /// The text between the red code and the reset code.
    fn red(self) -> (r: String)
        ensures
            r@ == red_text(self@),
    {
        proof {
            reveal_strlit("\x1b[31m");
            reveal_strlit("\x1b[0m");
            assert("\x1b[31m"@ =~= red_code());
            assert("\x1b[0m"@ =~= reset_code());
        }
        let mut out = String::from_str("\x1b[31m");
        out.append(self);
        out.append("\x1b[0m");
        out
    }

    /// The text between the green code and the reset code.
    fn green(self) -> (r: String)
        ensures
            r@ == green_text(self@),
    {
        proof {
            reveal_strlit("\x1b[32m");
            reveal_strlit("\x1b[0m");
            assert("\x1b[32m"@ =~= green_code());
            assert("\x1b[0m"@ =~= reset_code());
        }
        let mut out = String::from_str("\x1b[32m");
        out.append(self);
        out.append("\x1b[0m");
        out
    }

    /// The text with each of the matches that the engine finds for `re`
    /// painted red, and the rest as it is.
    fn paint_it_red(self, re: &Regex) -> (r: String)
        ensures
            painted_red(self@, regex_matches(*re, self@), r@),
            regex_matches(*re, self@).len() == 0 ==> r@ == self@,
    {
        let r = replace_all_red(re, self);
        proof {
            lemma_paint_len(self@, regex_matches(*re, self@), 0);
        }
        r
    }
}

} // verus!
