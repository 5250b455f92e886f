//! Rendering the records of a search as one block of output, plain or in
//! colour, and what holds of the two renderings.

use crate::color::green_code;
use crate::color::paint_spans;
use crate::color::red_code;
use crate::color::reset_code;
use crate::color::spans_within;
use crate::decimal::decimal;
use crate::decimal::lemma_decimal_digits;
use crate::engine::regex_matches;
use crate::escape::escape_free;
use crate::escape::inside_code;
use crate::escape::lemma_empty_free;
use crate::escape::lemma_free_joined;
use crate::escape::lemma_free_part;
use crate::escape::lemma_no_code_across;
use crate::escape::lemma_no_escape_char;
use crate::escape::lemma_strip_drops;
use crate::escape::lemma_strip_free;
use crate::escape::lemma_strip_keeps;
use crate::escape::strip_escapes;
use crate::lines::feed_free;
use crate::lines::lemma_line_feeds_joined;
use crate::lines::lemma_line_feeds_none;
use crate::lines::lemma_lines_feed_free;
use crate::lines::line_feeds;
use crate::lines::lines_of;
use crate::search::hits;
use crate::search::is_hit;
use crate::search::numbered;
use crate::search::records_of;
use crate::search::Grepped;
use crate::search::GreppedView;
use regex::Regex;
use vstd::prelude::*;

verus! {

/// The plain output for the records: their plain lines, one after the
/// other, with nothing between them.
pub open spec fn plain_output(records: Seq<GreppedView>) -> Seq<char> {
    records.map_values(|g: GreppedView| g.plain()).flatten()
}

/// The coloured output for the records: their coloured lines, one after the
/// other, where `spans` gives for each text the spans to paint.
pub open spec fn colored_output(
    records: Seq<GreppedView>,
    spans: spec_fn(Seq<char>) -> Seq<(int, int)>,
) -> Seq<char> {
    records.map_values(|g: GreppedView| g.colored(spans(g.matched))).flatten()
}

/// The spans that the engine finds for `re` in each text.
pub open spec fn engine_spans(re: Regex) -> spec_fn(Seq<char>) -> Seq<(int, int)> {
    |text: Seq<char>| regex_matches(re, text)
}

/// The text of no record holds a colour code.
pub open spec fn all_free(records: Seq<GreppedView>) -> bool {
    forall|i: int| 0 <= i < records.len() ==> escape_free(#[trigger] records[i].matched)
}

/// For the text of every record, `spans` gives spans that follow one
/// another inside that text.
pub open spec fn spans_fit(
    records: Seq<GreppedView>,
    spans: spec_fn(Seq<char>) -> Seq<(int, int)>,
) -> bool {
    forall|i: int|
        0 <= i < records.len() ==> spans_within(
            spans(#[trigger] records[i].matched),
            0,
            records[i].matched.len() as int,
        )
}

/// Stripping a painted text gives the text back: the part of a text that is
/// free of codes, painted from `from` on and followed by `tail`, strips to
/// that part followed by what `tail` strips to.
pub proof fn lemma_strip_painted(
    text: Seq<char>,
    spans: Seq<(int, int)>,
    from: int,
    tail: Seq<char>,
)
    requires
        escape_free(text),
        spans_within(spans, from, text.len() as int),
        tail.len() == 0 || !inside_code(tail[0]),
    ensures
        strip_escapes(paint_spans(text, spans, from) + tail) == text.subrange(
            from,
            text.len() as int,
        ) + strip_escapes(tail),
    decreases spans.len(),
{
    let len = text.len() as int;
    if spans.len() == 0 {
        let part = text.subrange(from, len);
        lemma_free_part(text, from, len);
        lemma_no_code_across(part, tail);
        lemma_strip_keeps(part, tail);
    } else {
        let (start, end) = spans[0];
        let before = text.subrange(from, start);
        let found = text.subrange(start, end);
        let rest = paint_spans(text, spans.drop_first(), end);
        let x4 = rest + tail;
        let x3 = reset_code() + x4;
        let x2 = found + x3;
        let x1 = red_code() + x2;
        assert(paint_spans(text, spans, from) + tail =~= before + x1);
        lemma_free_part(text, from, start);
        assert(x1[0] == '\x1b');
        lemma_no_code_across(before, x1);
        lemma_strip_keeps(before, x1);
        lemma_strip_drops(red_code(), x2);
        lemma_free_part(text, start, end);
        assert(x3[0] == '\x1b');
        lemma_no_code_across(found, x3);
        lemma_strip_keeps(found, x3);
        lemma_strip_drops(reset_code(), x4);
        lemma_strip_painted(text, spans.drop_first(), end, tail);
        assert(before + (found + (text.subrange(end, len) + strip_escapes(tail)))
            =~= text.subrange(from, len) + strip_escapes(tail));
    }
}

/// A coloured line strips to the plain line of the same record, whatever
/// follows it.
pub proof fn lemma_strip_colored_line(g: GreppedView, spans: Seq<(int, int)>, tail: Seq<char>)
    requires
        escape_free(g.matched),
        spans_within(spans, 0, g.matched.len() as int),
    ensures
        strip_escapes(g.colored(spans) + tail) == g.plain() + strip_escapes(tail),
{
    reveal_strlit(": ");
    reveal_strlit("\n");
    let number = decimal(g.line_number);
    let painted = paint_spans(g.matched, spans, 0);
    let x5 = "\n"@ + tail;
    let x4 = painted + x5;
    let x3 = ": "@ + x4;
    let x2 = reset_code() + x3;
    let x1 = number + x2;
    assert(g.colored(spans) + tail =~= green_code() + x1);
    lemma_strip_drops(green_code(), x1);
    lemma_decimal_digits(g.line_number);
    lemma_no_escape_char(number, x2);
    lemma_strip_keeps(number, x2);
    lemma_strip_drops(reset_code(), x3);
    lemma_no_escape_char(": "@, x4);
    lemma_strip_keeps(": "@, x4);
    assert(x5[0] == '\n');
    lemma_strip_painted(g.matched, spans, 0, x5);
    assert(g.matched.subrange(0, g.matched.len() as int) =~= g.matched);
    lemma_no_escape_char("\n"@, tail);
    lemma_strip_keeps("\n"@, tail);
    assert(number + (": "@ + (g.matched + ("\n"@ + strip_escapes(tail)))) =~= g.plain()
        + strip_escapes(tail));
}

/// A plain line whose text is free of codes, followed by something that is
/// free of codes, is free of codes.
pub proof fn lemma_plain_line_free(g: GreppedView, tail: Seq<char>)
    requires
        escape_free(g.matched),
        escape_free(tail),
    ensures
        escape_free(g.plain() + tail),
{
    reveal_strlit(": ");
    reveal_strlit("\n");
    let number = decimal(g.line_number);
    let x3 = "\n"@ + tail;
    let x2 = g.matched + x3;
    let x1 = ": "@ + x2;
    assert(g.plain() + tail =~= number + x1);
    lemma_no_escape_char("\n"@, tail);
    lemma_free_joined("\n"@, tail);
    assert(x3[0] == '\n');
    lemma_no_code_across(g.matched, x3);
    lemma_free_joined(g.matched, x3);
    lemma_no_escape_char(": "@, x2);
    lemma_free_joined(": "@, x2);
    lemma_decimal_digits(g.line_number);
    lemma_no_escape_char(number, x1);
    lemma_free_joined(number, x1);
}

/// The plain output holds no colour code if the text of no record holds
/// one.
pub proof fn lemma_plain_output_free(records: Seq<GreppedView>)
    requires
        all_free(records),
    ensures
        escape_free(plain_output(records)),
    decreases records.len(),
{
    let lines = records.map_values(|g: GreppedView| g.plain());
    if records.len() == 0 {
        lemma_empty_free();
        assert(plain_output(records) =~= Seq::<char>::empty());
    } else {
        let rest = records.drop_first();
        assert(lines.drop_first() =~= rest.map_values(|g: GreppedView| g.plain()));
        assert(plain_output(records) == records[0].plain() + plain_output(rest));
        assert forall|i: int| 0 <= i < rest.len() implies escape_free(
            #[trigger] rest[i].matched,
        ) by {
            assert(rest[i] == records[i + 1]);
        }
        lemma_plain_output_free(rest);
        lemma_plain_line_free(records[0], plain_output(rest));
    }
}

/// Stripping the colour codes from the coloured output gives the plain
/// output, if the text of no record holds a colour code of its own.
pub proof fn lemma_colored_strips_to_plain(
    records: Seq<GreppedView>,
    spans: spec_fn(Seq<char>) -> Seq<(int, int)>,
)
    requires
        all_free(records),
        spans_fit(records, spans),
    ensures
        strip_escapes(colored_output(records, spans)) == plain_output(records),
    decreases records.len(),
{
    let colored = records.map_values(|g: GreppedView| g.colored(spans(g.matched)));
    let plain = records.map_values(|g: GreppedView| g.plain());
    if records.len() == 0 {
        lemma_empty_free();
        assert(plain_output(records) =~= Seq::<char>::empty());
        assert(colored_output(records, spans) =~= Seq::<char>::empty());
    } else {
        let rest = records.drop_first();
        assert(colored.drop_first() =~= rest.map_values(
            |g: GreppedView| g.colored(spans(g.matched)),
        ));
        assert(plain.drop_first() =~= rest.map_values(|g: GreppedView| g.plain()));
        assert forall|i: int| 0 <= i < rest.len() implies escape_free(#[trigger] rest[i].matched)
            && spans_within(spans(rest[i].matched), 0, rest[i].matched.len() as int) by {
            assert(rest[i] == records[i + 1]);
        }
        assert(plain_output(records) == records[0].plain() + plain_output(rest));
        assert(colored_output(records, spans) == records[0].colored(spans(records[0].matched))
            + colored_output(rest, spans));
        lemma_colored_strips_to_plain(rest, spans);
        lemma_strip_colored_line(
            records[0],
            spans(records[0].matched),
            colored_output(rest, spans),
        );
    }
}

/// The text of no record holds the escape character, with which every
/// escape sequence of a terminal begins.
pub open spec fn all_printable(records: Seq<GreppedView>) -> bool {
    forall|i: int| 0 <= i < records.len() ==> !(#[trigger] records[i].matched).contains('\x1b')
}

/// The plain output holds no escape sequence of any kind, if the text of no
/// record holds the escape character.
pub proof fn lemma_plain_output_printable(records: Seq<GreppedView>)
    requires
        all_printable(records),
    ensures
        !plain_output(records).contains('\x1b'),
    decreases records.len(),
{
    let lines = records.map_values(|g: GreppedView| g.plain());
    if records.len() == 0 {
        assert(plain_output(records) =~= Seq::<char>::empty());
    } else {
        let rest = records.drop_first();
        let first = records[0];
        assert(lines.drop_first() =~= rest.map_values(|g: GreppedView| g.plain()));
        assert(plain_output(records) == first.plain() + plain_output(rest));
        assert forall|i: int| 0 <= i < rest.len() implies !(#[trigger] rest[i].matched).contains(
            '\x1b',
        ) by {
            assert(rest[i] == records[i + 1]);
        }
        lemma_plain_output_printable(rest);
        reveal_strlit(": ");
        reveal_strlit("\n");
        lemma_decimal_digits(first.line_number);
        let out = plain_output(records);
        assert forall|j: int| 0 <= j < out.len() implies out[j] != '\x1b' by {
            let number = decimal(first.line_number);
            if j < number.len() {
                assert(out[j] == number[j]);
            } else if j < number.len() + 2 {
                assert(out[j] == ": "@[j - number.len()]);
            } else if j < number.len() + 2 + first.matched.len() {
                let at = j - number.len() - 2;
                assert(out[j] == first.matched[at]);
                assert(first.matched.contains(first.matched[at]));
            } else if j < first.plain().len() {
                assert(out[j] == '\n');
            } else {
                let at = j - first.plain().len();
                assert(out[j] == plain_output(rest)[at]);
                assert(plain_output(rest).contains(plain_output(rest)[at]));
            }
        }
    }
}

/// The text of no record holds a line feed.
pub open spec fn all_feed_free(records: Seq<GreppedView>) -> bool {
    forall|i: int| 0 <= i < records.len() ==> feed_free(#[trigger] records[i].matched)
}

/// The plain line of a record whose text holds no line feed holds exactly
/// one: the one at its end.
pub proof fn lemma_plain_line_feeds(g: GreppedView)
    requires
        feed_free(g.matched),
    ensures
        line_feeds(g.plain()) == 1,
        g.plain().last() == '\n',
{
    reveal_strlit(": ");
    reveal_strlit("\n");
    let number = decimal(g.line_number);
    lemma_decimal_digits(g.line_number);
    lemma_line_feeds_none(number);
    lemma_line_feeds_none(": "@);
    lemma_line_feeds_none(g.matched);
    assert(line_feeds("\n"@) == 1) by {
        reveal_with_fuel(Seq::filter, 2);
        assert("\n"@.drop_last() =~= Seq::<char>::empty());
        assert("\n"@.last() == '\n');
    }
    lemma_line_feeds_joined(number, ": "@);
    lemma_line_feeds_joined(number + ": "@, g.matched);
    lemma_line_feeds_joined(number + ": "@ + g.matched, "\n"@);
}

/// The plain output holds exactly one line for each record, if the text of
/// no record holds a line feed.
pub proof fn lemma_plain_output_lines(records: Seq<GreppedView>)
    requires
        all_feed_free(records),
    ensures
        line_feeds(plain_output(records)) == records.len(),
    decreases records.len(),
{
    let lines = records.map_values(|g: GreppedView| g.plain());
    if records.len() == 0 {
        assert(plain_output(records) =~= Seq::<char>::empty());
        lemma_line_feeds_none(plain_output(records));
    } else {
        let rest = records.drop_first();
        assert(lines.drop_first() =~= rest.map_values(|g: GreppedView| g.plain()));
        assert(plain_output(records) == records[0].plain() + plain_output(rest));
        assert forall|i: int| 0 <= i < rest.len() implies feed_free(#[trigger] rest[i].matched) by {
            assert(rest[i] == records[i + 1]);
        }
        lemma_plain_output_lines(rest);
        lemma_plain_line_feeds(records[0]);
        lemma_line_feeds_joined(records[0].plain(), plain_output(rest));
    }
}

/// The plain output of a search holds exactly one line for each line of the
/// text that matched.
pub proof fn lemma_one_line_per_hit(re: Regex, text: Seq<char>)
    ensures
        all_feed_free(hits(re, text)),
        line_feeds(plain_output(hits(re, text))) == hits(re, text).len(),
{
    let lines = lines_of(text);
    let all = numbered(lines);
    let found = hits(re, text);
    lemma_lines_feed_free(text);
    assert forall|i: int| 0 <= i < found.len() implies feed_free(#[trigger] found[i].matched) by {
        assert(found.contains(found[i]));
        all.lemma_filter_contains_rev(is_hit(re), found[i]);
        let j = choose|j: int| 0 <= j < all.len() && all[j] == found[i];
        assert(all[j].matched == lines[j]);
    }
    lemma_plain_output_lines(found);
}

/// The output for the records, in the order in which they come: the plain
/// lines if `test` is set, and the coloured ones, with the matches of `re`
/// in red, if it is not. Where no text holds a colour code of its own, the
/// plain output holds none, and the coloured output is the plain output
/// with colour codes put in.
pub fn stdout_str<'a>(arr: Vec<Grepped<'a>>, re: &Regex, test: bool) -> (out: String)
    ensures
        test ==> out@ == plain_output(records_of(arr@)),
        !test ==> out@ == colored_output(records_of(arr@), engine_spans(*re)),
        !test ==> spans_fit(records_of(arr@), engine_spans(*re)),
        all_free(records_of(arr@)) ==> strip_escapes(out@) == plain_output(records_of(arr@)),
        all_free(records_of(arr@)) && test ==> escape_free(out@),
        all_feed_free(records_of(arr@)) && test ==> line_feeds(out@) == arr@.len(),
        all_printable(records_of(arr@)) && test ==> !out@.contains('\x1b'),
{
    let ghost records = records_of(arr@);
    let ghost spans = engine_spans(*re);
    let mut out = String::new();
    let mut i: usize = 0;
    assert(records.take(0) =~= Seq::<GreppedView>::empty());
    assert(plain_output(records.take(0)) =~= Seq::<char>::empty());
    assert(colored_output(records.take(0), spans) =~= Seq::<char>::empty());
    while i < arr.len()
        invariant
            i <= arr@.len(),
            records == records_of(arr@),
            spans == engine_spans(*re),
            test ==> out@ == plain_output(records.take(i as int)),
            !test ==> out@ == colored_output(records.take(i as int), spans),
            !test ==> spans_fit(records.take(i as int), spans),
        decreases arr@.len() - i,
    {
        let line = match test {
            false => arr[i].to_colored(re),
            true => arr[i].to_non_colored(),
        };
        out.append(line.as_str());
        proof {
            let done = records.take(i as int);
            assert(records.take(i + 1) =~= done.push(records[i as int]));
            assert(records[i as int] == arr@[i as int]@);
            if test {
                let lines = done.map_values(|g: GreppedView| g.plain());
                assert(records.take(i + 1).map_values(|g: GreppedView| g.plain()) =~= lines.push(
                    records[i as int].plain(),
                ));
                lines.lemma_flatten_push(records[i as int].plain());
            } else {
                let lines = done.map_values(|g: GreppedView| g.colored(spans(g.matched)));
                let next = records[i as int].colored(spans(records[i as int].matched));
                assert(records.take(i + 1).map_values(
                    |g: GreppedView| g.colored(spans(g.matched)),
                ) =~= lines.push(next));
                lines.lemma_flatten_push(next);
            }
        }
        i += 1;
    }
    proof {
        assert(records.take(i as int) =~= records);
        if all_feed_free(records) && test {
            lemma_plain_output_lines(records);
        }
        if all_printable(records) && test {
            lemma_plain_output_printable(records);
        }
        if all_free(records) {
            if test {
                lemma_plain_output_free(records);
                lemma_strip_free(out@);
            } else {
                lemma_colored_strips_to_plain(records, spans);
            }
        }
    }
    out
}

} // verus!
