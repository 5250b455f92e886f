//! Splitting a text into lines.
//!
//! Lines are taken as they stand in the text: nothing is trimmed, so blanks
//! at either end of a line belong to the line.

use vstd::prelude::*;
use vstd::utf8::*;

verus! {

/// The number of characters in front of the first line feed of `s`, or the
/// length of `s` if it holds no line feed.
pub open spec fn line_end(s: Seq<char>) -> nat
    decreases s.len(),
{
    if s.len() == 0 || s[0] == '\n' {
        0
    } else {
        1 + line_end(s.drop_first())
    }
}

/// `s` without the carriage return at its end, if it has one there.
pub open spec fn without_cr(s: Seq<char>) -> Seq<char> {
    if s.len() > 0 && s.last() == '\r' {
        s.drop_last()
    } else {
        s
    }
}

/// The lines of a text. A line ends at a line feed, or at a carriage return
/// directly followed by one; neither belongs to the line. What follows the
/// last line feed is a line if it is not empty, and keeps a carriage return
/// at its end.
pub open spec fn lines_of(s: Seq<char>) -> Seq<Seq<char>>
    decreases s.len(),
{
    if s.len() == 0 {
        Seq::empty()
    } else if line_end(s) >= s.len() {
        seq![s]
    } else {
        seq![without_cr(s.take(line_end(s) as int))] + lines_of(s.skip(line_end(s) as int + 1))
    }
}

/// The texts of the lines in a vector.
pub open spec fn texts_of(lines: Seq<&str>) -> Seq<Seq<char>> {
    lines.map_values(|line: &str| line@)
}

/// `s` holds no line feed.
pub open spec fn feed_free(s: Seq<char>) -> bool {
    forall|j: int| 0 <= j < s.len() ==> s[j] != '\n'
}

/// The number of line feeds in `s`.
pub open spec fn line_feeds(s: Seq<char>) -> nat {
    s.filter(|c: char| c == '\n').len()
}

/// `line_end` is the one position that has no line feed in front of it and
/// a line feed, or the end of the text, at it.
pub proof fn lemma_line_end(s: Seq<char>, k: int)
    requires
        0 <= k <= s.len(),
        forall|j: int| 0 <= j < k ==> s[j] != '\n',
        k < s.len() ==> s[k] == '\n',
    ensures
        line_end(s) == k,
    decreases s.len(),
{
    if s.len() == 0 || s[0] == '\n' {
    } else {
        lemma_line_end(s.drop_first(), k - 1);
    }
}

/// `line_end` lies inside the text or at its end, and no line feed stands
/// in front of it.
pub proof fn lemma_line_end_bounds(s: Seq<char>)
    ensures
        line_end(s) <= s.len(),
        feed_free(s.take(line_end(s) as int)),
        line_end(s) < s.len() ==> s[line_end(s) as int] == '\n',
    decreases s.len(),
{
    if s.len() == 0 || s[0] == '\n' {
    } else {
        let rest = s.drop_first();
        lemma_line_end_bounds(rest);
        let end = line_end(s) as int;
        assert forall|j: int| 0 <= j < end implies s.take(end)[j] != '\n' by {
            if j > 0 {
                assert(s.take(end)[j] == rest.take(end - 1)[j - 1]);
            }
        }
    }
}

/// No line of a text holds a line feed.
pub proof fn lemma_lines_feed_free(s: Seq<char>)
    ensures
        forall|i: int| 0 <= i < lines_of(s).len() ==> feed_free(#[trigger] lines_of(s)[i]),
    decreases s.len(),
{
    lemma_line_end_bounds(s);
    if s.len() == 0 {
    } else if line_end(s) >= s.len() {
        assert(s.take(s.len() as int) =~= s);
    } else {
        let end = line_end(s) as int;
        let first = without_cr(s.take(end));
        let rest = lines_of(s.skip(end + 1));
        lemma_lines_feed_free(s.skip(end + 1));
        assert(feed_free(first)) by {
            assert forall|j: int| 0 <= j < first.len() implies first[j] != '\n' by {
                assert(first[j] == s.take(end)[j]);
            }
        }
        assert forall|i: int| 0 <= i < lines_of(s).len() implies feed_free(
            #[trigger] lines_of(s)[i],
        ) by {
            if i > 0 {
                assert(lines_of(s)[i] == rest[i - 1]);
            }
        }
    }
}

/// The line feeds of a text made of two parts are those of the parts.
pub proof fn lemma_line_feeds_joined(a: Seq<char>, b: Seq<char>)
    ensures
        line_feeds(a + b) == line_feeds(a) + line_feeds(b),
{
    Seq::filter_distributes_over_add(a, b, |c: char| c == '\n');
}

/// A text that holds no line feed has none to count.
pub proof fn lemma_line_feeds_none(s: Seq<char>)
    requires
        feed_free(s),
    ensures
        line_feeds(s) == 0,
    decreases s.len(),
{
    reveal(Seq::filter);
    if s.len() > 0 {
        assert forall|j: int| 0 <= j < s.drop_last().len() implies s.drop_last()[j] != '\n' by {
            assert(s.drop_last()[j] == s[j]);
        }
        lemma_line_feeds_none(s.drop_last());
    }
}

/// A single character below 128 is encoded as the one byte of its number.
proof fn lemma_encode_ascii(c: char, b: u8)
    requires
        b < 128,
        c as u32 == b as u32,
    ensures
        encode_utf8(seq![c]) == seq![b],
{
    let v = c as u32;
    assert(leading_byte_width_1(v) == b) by (bit_vector)
        requires
            b < 128,
            v == b as u32,
    ;
    reveal_with_fuel(encode_utf8, 2);
    assert(seq![c].drop_first() =~= Seq::<char>::empty());
    assert(encode_utf8(seq![c]) =~= seq![b]);
}

/// The encoding of a text made of two parts is made of their encodings.
proof fn lemma_encode_concat(a: Seq<char>, b: Seq<char>)
    ensures
        encode_utf8(a + b) == encode_utf8(a) + encode_utf8(b),
    decreases a.len(),
{
    if a.len() == 0 {
        assert(a + b =~= b);
        assert(encode_utf8(a) + encode_utf8(b) =~= encode_utf8(b));
    } else {
        lemma_encode_concat(a.drop_first(), b);
        assert((a + b).drop_first() =~= a.drop_first() + b);
        assert(encode_utf8(a + b) =~= encode_utf8(a) + encode_utf8(b));
    }
}

/// Where the encoding of a text holds a byte below 128, a character of
/// that number stands in the text, and the encoding falls apart there into
/// the encodings of what stands before that character and of what follows
/// it.
proof fn lemma_ascii_byte(s: Seq<char>, i: int) -> (k: int)
    requires
        0 <= i < encode_utf8(s).len(),
        encode_utf8(s)[i] < 128,
    ensures
        0 <= k < s.len(),
        s[k] as u32 == encode_utf8(s)[i] as u32,
        encode_utf8(s.take(k)) == encode_utf8(s).subrange(0, i),
        encode_utf8(s.skip(k + 1)) == encode_utf8(s).subrange(i + 1, encode_utf8(s).len() as int),
        is_char_boundary(encode_utf8(s), i),
        is_char_boundary(encode_utf8(s).subrange(i, encode_utf8(s).len() as int), 1),
{
    broadcast use group_utf8_lib;

    let bytes = encode_utf8(s);
    let first = bytes.subrange(0, i);
    let second = bytes.subrange(i, bytes.len() as int);
    let b = bytes[i];
    encode_utf8_valid_utf8(s);
    is_char_boundary_iff_not_is_continuation_byte(bytes, i);
    valid_utf8_split(bytes, i);
    decode_utf8_split(bytes, i);
    let head = decode_utf8(first);
    let tail = decode_utf8(second);
    assert(s =~= head + tail);
    assert(second[0] == b);
    assert(is_leading_byte_width_1(b));
    assert((b & 0x7F) as u32 == b as u32) by (bit_vector)
        requires
            b < 128,
    ;
    assert(valid_first_scalar(second));
    let rest = pop_first_scalar(second);
    assert(rest =~= bytes.subrange(i + 1, bytes.len() as int));
    assert(valid_utf8(rest));
    assert(tail =~= seq![decode_first_scalar(second) as char] + decode_utf8(rest));
    let k = head.len() as int;
    assert(s.take(k) =~= head);
    assert(s.skip(k + 1) =~= decode_utf8(rest));
    assert(s[k] == tail[0]);
    assert(is_char_boundary(second, 1)) by {
        reveal_with_fuel(is_char_boundary, 2);
    }
    k
}

/// Where a text holds a character below 128, its encoding holds the byte
/// of that number, right behind the encoding of what stands before the
/// character.
proof fn lemma_ascii_char(s: Seq<char>, k: int, b: u8)
    requires
        0 <= k < s.len(),
        b < 128,
        s[k] as u32 == b as u32,
    ensures
        encode_utf8(s) == encode_utf8(s.take(k)) + seq![b] + encode_utf8(s.skip(k + 1)),
{
    assert(s =~= s.take(k) + (seq![s[k]] + s.skip(k + 1)));
    lemma_encode_concat(s.take(k), seq![s[k]] + s.skip(k + 1));
    lemma_encode_concat(seq![s[k]], s.skip(k + 1));
    lemma_encode_ascii(s[k], b);
    assert(encode_utf8(s) =~= encode_utf8(s.take(k)) + seq![b] + encode_utf8(s.skip(k + 1)));
}

/// Two texts with the same encoding are the same text.
proof fn lemma_same_encoding(a: Seq<char>, b: Seq<char>)
    requires
        encode_utf8(a) == encode_utf8(b),
    ensures
        a == b,
{
    encode_utf8_decode_utf8(a);
    encode_utf8_decode_utf8(b);
}

/// A text whose encoding holds no byte `b` below 128 holds no character of
/// that number.
proof fn lemma_no_ascii_byte(s: Seq<char>, b: u8)
    requires
        b < 128,
        forall|i: int| 0 <= i < encode_utf8(s).len() ==> encode_utf8(s)[i] != b,
    ensures
        forall|k: int| 0 <= k < s.len() ==> s[k] as u32 != b as u32,
{
    assert forall|k: int| 0 <= k < s.len() implies s[k] as u32 != b as u32 by {
        if s[k] as u32 == b as u32 {
            lemma_ascii_char(s, k, b);
            let at = encode_utf8(s.take(k)).len() as int;
            assert(encode_utf8(s)[at] == b);
        }
    }
}

/// The position of the first byte `b` in `bytes`, or their number if there
/// is none.
fn find_byte(bytes: &[u8], b: u8) -> (at: usize)
    ensures
        at <= bytes@.len(),
        forall|i: int| 0 <= i < at ==> bytes@[i] != b,
        at < bytes@.len() ==> bytes@[at as int] == b,
{
    let mut at: usize = 0;
    while at < bytes.len() && bytes[at] != b
        invariant
            at <= bytes@.len(),
            forall|i: int| 0 <= i < at ==> bytes@[i] != b,
        decreases bytes@.len() - at,
    {
        at += 1;
    }
    at
}

/// `line` without the carriage return at its end, if it has one there.
fn trim_cr<'a>(line: &'a str) -> (r: &'a str)
    ensures
        r@ == without_cr(line@),
{
    let bytes = line.as_bytes();
    let n = bytes.len();
    if n > 0 && bytes[n - 1] == 13 {
        proof {
            let k = lemma_ascii_byte(line@, n - 1);
            assert(encode_utf8(line@.skip(k + 1)).len() == 0);
            lemma_same_encoding(line@.skip(k + 1), Seq::empty());
            assert(line@.skip(k + 1).len() == 0);
            assert(k == line@.len() - 1);
            char_u32_cast(line@[k], 13);
            char_u32_cast('\r', 13);
        }
        let (kept, _) = line.split_at(n - 1);
        proof {
            lemma_same_encoding(kept@, line@.drop_last());
        }
        kept
    } else {
        proof {
            if line@.len() > 0 && line@.last() == '\r' {
                let k = line@.len() - 1;
                lemma_ascii_char(line@, k, 13);
                assert(line@.skip(k + 1) =~= Seq::<char>::empty());
                assert(encode_utf8(line@.skip(k + 1)).len() == 0);
                assert(bytes@[n - 1] == 13);
            }
        }
        line
    }
}

/// Cuts the first line off a text that is not empty: the line, and what
/// follows its end.
fn cut_line<'a>(text: &'a str) -> (r: (&'a str, &'a str))
    requires
        text@.len() > 0,
    ensures
        lines_of(text@) == seq![r.0@] + lines_of(r.1@),
        r.1@.len() < text@.len(),
{
    let bytes = text.as_bytes();
    let at = find_byte(bytes, 10);
    if at == bytes.len() {
        proof {
            lemma_no_ascii_byte(text@, 10);
            lemma_line_end(text@, text@.len() as int);
            reveal_strlit("");
            assert(lines_of(text@) =~= seq![text@] + lines_of(""@));
        }
        (text, "")
    } else {
        let ghost k = lemma_ascii_byte(text@, at as int);
        let (head, tail) = text.split_at(at);
        let (_, rest) = tail.split_at(1);
        proof {
            lemma_same_encoding(head@, text@.take(k));
            assert(encode_utf8(tail@).subrange(1, encode_utf8(tail@).len() as int) =~= bytes@.subrange(
                at + 1,
                bytes@.len() as int,
            ));
            lemma_same_encoding(rest@, text@.skip(k + 1));
            lemma_no_ascii_byte(head@, 10);
            char_u32_cast(text@[k], 10);
            char_u32_cast('\n', 10);
            assert forall|j: int| 0 <= j < k implies text@[j] != '\n' by {
                assert(text@[j] == head@[j]);
                assert(head@[j] as u32 != 10);
            }
            lemma_line_end(text@, k);
        }
        (trim_cr(head), rest)
    }
}

/// The lines of `text`, in their order.
pub fn split_lines<'a>(text: &'a str) -> (lines: Vec<&'a str>)
    ensures
        texts_of(lines@) == lines_of(text@),
{
    let mut lines: Vec<&'a str> = Vec::new();
    let mut rest: &'a str = text;
    while !rest.is_empty()
        invariant
            lines_of(text@) == texts_of(lines@) + lines_of(rest@),
        decreases rest@.len(),
    {
        let ghost before = lines@;
        let (line, after) = cut_line(rest);
        lines.push(line);
        rest = after;
        assert(texts_of(lines@) =~= texts_of(before) + seq![line@]);
    }
    lines
}

} // verus!
