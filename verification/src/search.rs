//! Scanning a text for the lines that match, and the record of such a line.

use crate::color::green_text;
use crate::color::paint_spans;
use crate::color::spans_within;
use crate::color::Colorize;
use crate::decimal::decimal;
use crate::decimal::decimal_string;
use crate::engine::is_match;
use crate::engine::regex_is_match;
use crate::engine::regex_matches;
use crate::lines::lines_of;
use crate::lines::split_lines;
use crate::lines::texts_of;
use regex::Regex;
use vstd::prelude::*;

verus! {

/// A line that matched: its number, counted from one, and its text.
#[derive(Debug)]
pub struct Grepped<'a> {
    line_number: usize,
    matched: &'a str,
}

/// A record as plain values.
pub struct GreppedView {
    pub line_number: nat,
    pub matched: Seq<char>,
}

impl GreppedView {
    /// The record as one line of plain output: the number, a colon and a
    /// space, the text, and a line feed.
    pub open spec fn plain(self) -> Seq<char> {
        decimal(self.line_number) + ": "@ + self.matched + "\n"@
    }

    /// The record as one line of coloured output, around a text that has
    /// been painted already: the number in green, a colon and a space, the
    /// painted text, and a line feed.
    pub open spec fn colored_around(self, painted: Seq<char>) -> Seq<char> {
        green_text(decimal(self.line_number)) + ": "@ + painted + "\n"@
    }

    /// The record as one line of coloured output, with the given spans of
    /// its text in red.
    pub open spec fn colored(self, spans: Seq<(int, int)>) -> Seq<char> {
        self.colored_around(paint_spans(self.matched, spans, 0))
    }
}

impl<'a> View for Grepped<'a> {
    type V = GreppedView;

    closed spec fn view(&self) -> GreppedView {
        GreppedView { line_number: self.line_number as nat, matched: self.matched@ }
    }
}

impl<'a> Grepped<'a> {
    /// The record of the line `matched` with the number `line_number`.
    pub fn new(line_number: usize, matched: &'a str) -> (r: Self)
        ensures
            r@ == (GreppedView { line_number: line_number as nat, matched: matched@ }),
    {
        Self { line_number, matched }
    }

    /// The number of the line.
    pub fn line_number(&self) -> (n: usize)
        ensures
            n == self@.line_number,
    {
        self.line_number
    }

    /// The text of the line.
    pub fn matched(&self) -> (text: &'a str)
        ensures
            text@ == self@.matched,
    {
        self.matched
    }

    /// The coloured line for this record around `painted`, which stands for
    /// the text of the record.
    pub fn colored_around(&self, painted: &str) -> (r: String)
        ensures
            r@ == self@.colored_around(painted@),
    {
        let number = decimal_string(self.line_number);
        let mut out = number.as_str().green();
        out.append(": ");
        out.append(painted);
        out.append("\n");
        out
    }

    /// The record as a line of coloured output: the number in green and
    /// every match of `re` in the text in red.
    pub fn to_colored(&self, re: &Regex) -> (r: String)
        ensures
            r@ == self@.colored(regex_matches(*re, self@.matched)),
            spans_within(regex_matches(*re, self@.matched), 0, self@.matched.len() as int),
    {
        let painted = self.matched.paint_it_red(re);
        self.colored_around(painted.as_str())
    }

    /// The record as a line of plain output.
    pub fn to_non_colored(&self) -> (r: String)
        ensures
            r@ == self@.plain(),
    {
        let mut out = decimal_string(self.line_number);
        out.append(": ");
        out.append(self.matched);
        out.append("\n");
        out
    }
}

/// The records in a sequence as plain values.
pub open spec fn records_of(found: Seq<Grepped>) -> Seq<GreppedView> {
    found.map_values(|g: Grepped| g@)
}

/// Every line with its number: the first line has the number one.
pub open spec fn numbered(lines: Seq<Seq<char>>) -> Seq<GreppedView> {
    Seq::new(lines.len(), |i: int| GreppedView { line_number: (i + 1) as nat, matched: lines[i] })
}

/// The test that keeps the records whose text `re` matches somewhere.
pub open spec fn is_hit(re: Regex) -> spec_fn(GreppedView) -> bool {
    |g: GreppedView| regex_is_match(re, g.matched)
}

/// The records of a search for `re` in `text`: of the numbered lines of the
/// text, in their order, exactly those that `re` matches.
pub open spec fn hits(re: Regex, text: Seq<char>) -> Seq<GreppedView> {
    numbered(lines_of(text)).filter(is_hit(re))
}

/// In the text of every record the engine finds at least one match of
/// `re`.
pub open spec fn all_with_match(re: Regex, records: Seq<GreppedView>) -> bool {
    forall|i: int|
        0 <= i < records.len() ==> regex_matches(re, (#[trigger] records[i]).matched).len() > 0
}

/// The line numbers in `records` grow from each record to the next.
pub open spec fn ascending(records: Seq<GreppedView>) -> bool {
    forall|i: int, j: int|
        0 <= i < j < records.len() ==> records[i].line_number < records[j].line_number
}

/// Picking records out of a sequence with growing line numbers leaves the
/// line numbers growing.
proof fn lemma_filter_ascending(all: Seq<GreppedView>, keep: spec_fn(GreppedView) -> bool)
    requires
        ascending(all),
    ensures
        ascending(all.filter(keep)),
    decreases all.len(),
{
    reveal(Seq::filter);
    if all.len() > 0 {
        let front = all.drop_last();
        let kept = front.filter(keep);
        lemma_filter_ascending(front, keep);
        if keep(all.last()) {
            let out = all.filter(keep);
            assert forall|i: int, j: int| 0 <= i < j < out.len() implies out[i].line_number
                < out[j].line_number by {
                if j < kept.len() {
                    assert(out[i] == kept[i] && out[j] == kept[j]);
                } else {
                    assert(kept.contains(kept[i]));
                    front.lemma_filter_contains_rev(keep, kept[i]);
                    let m = choose|m: int| 0 <= m < front.len() && front[m] == kept[i];
                    assert(all[m] == kept[i]);
                }
            }
        }
    }
}

/// What a search reports. Every record is a line of the text under its own
/// number, and the pattern matches it; every line that the pattern matches
/// is reported; and the records come in the order of the lines, so that no
/// line is reported twice.
pub proof fn lemma_hits(re: Regex, text: Seq<char>)
    ensures
        forall|i: int|
            0 <= i < hits(re, text).len() ==> {
                let g = #[trigger] hits(re, text)[i];
                &&& 1 <= g.line_number <= lines_of(text).len()
                &&& g.matched == lines_of(text)[g.line_number - 1]
                &&& regex_is_match(re, g.matched)
            },
        forall|k: int|
            0 <= k < lines_of(text).len() && regex_is_match(re, #[trigger] lines_of(text)[k])
                ==> hits(re, text).contains(
                GreppedView { line_number: (k + 1) as nat, matched: lines_of(text)[k] },
            ),
        ascending(hits(re, text)),
{
    let lines = lines_of(text);
    let all = numbered(lines);
    let found = hits(re, text);
    assert forall|i: int| 0 <= i < found.len() implies {
        let g = #[trigger] found[i];
        &&& 1 <= g.line_number <= lines.len()
        &&& g.matched == lines[g.line_number - 1]
        &&& regex_is_match(re, g.matched)
    } by {
        all.lemma_filter_pred(is_hit(re), i);
        assert(found.contains(found[i]));
        all.lemma_filter_contains_rev(is_hit(re), found[i]);
        let m = choose|m: int| 0 <= m < all.len() && all[m] == found[i];
        assert(all[m].line_number == m + 1);
    }
    assert forall|k: int|
        0 <= k < lines.len() && regex_is_match(re, #[trigger] lines[k]) implies found.contains(
        GreppedView { line_number: (k + 1) as nat, matched: lines[k] },
    ) by {
        assert(all[k] == GreppedView { line_number: (k + 1) as nat, matched: lines[k] });
        all.lemma_filter_contains(is_hit(re), k);
    }
    lemma_filter_ascending(all, is_hit(re));
}

/// A compiled pattern together with the text to search.
pub struct Searchable {
    pub re: Regex,
    pub buffer: String,
}

impl Searchable {
    /// The matching lines of the text, each once, in the order of the text.
    /// In each of them the engine finds at least one match to paint.
    pub fn search(&self) -> (found: Vec<Grepped<'_>>)
        ensures
            records_of(found@) == hits(self.re, self.buffer@),
            all_with_match(self.re, records_of(found@)),
    {
        let lines = split_lines(self.buffer.as_str());
        let ghost all = numbered(lines_of(self.buffer@));
        let mut found: Vec<Grepped<'_>> = Vec::new();
        let mut i: usize = 0;
        proof {
            reveal(Seq::filter);
            assert(all.take(0) =~= Seq::<GreppedView>::empty());
        }
        while i < lines.len()
            invariant
                i <= lines@.len(),
                texts_of(lines@) == lines_of(self.buffer@),
                all == numbered(lines_of(self.buffer@)),
                records_of(found@) == all.take(i as int).filter(is_hit(self.re)),
                all_with_match(self.re, records_of(found@)),
            decreases lines@.len() - i,
        {
            let line = lines[i];
            let ghost before = found@;
            proof {
                reveal(Seq::filter);
                assert(texts_of(lines@)[i as int] == line@);
                assert(all.take(i + 1).drop_last() =~= all.take(i as int));
                assert(all.take(i + 1).last() == all[i as int]);
            }
            if is_match(&self.re, line) {
                found.push(Grepped::new(i + 1, line));
                assert(records_of(found@) =~= records_of(before).push(all[i as int]));
            }
            i += 1;
        }
        assert(all.take(i as int) =~= all);
        found
    }
}

} // verus!
