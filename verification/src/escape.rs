//! Taking the colour codes out of a text again.

use crate::color::green_code;
use crate::color::red_code;
use crate::color::reset_code;
use vstd::prelude::*;

verus! {

/// The length of the colour code that `s` begins with, or zero if it begins
/// with none.
pub open spec fn code_len(s: Seq<char>) -> nat {
    if red_code().is_prefix_of(s) || green_code().is_prefix_of(s) {
        5
    } else if reset_code().is_prefix_of(s) {
        4
    } else {
        0
    }
}

/// `s` without its colour codes: read from the left, every code is left
/// out and every other character kept.
#[verifier::opaque]
pub open spec fn strip_escapes(s: Seq<char>) -> Seq<char>
    decreases s.len(),
{
    if s.len() == 0 {
        s
    } else if code_len(s) > 0 {
        strip_escapes(s.skip(code_len(s) as int))
    } else {
        seq![s[0]] + strip_escapes(s.skip(1))
    }
}

/// No colour code begins anywhere in `s`.
#[verifier::opaque]
pub open spec fn escape_free(s: Seq<char>) -> bool {
    forall|i: int| 0 <= i < s.len() ==> code_len(#[trigger] s.skip(i)) == 0
}

/// A character that can stand inside a colour code, behind its first one.
pub open spec fn inside_code(c: char) -> bool {
    c == '[' || c == '0' || c == '1' || c == '2' || c == '3' || c == 'm'
}

/// No colour code begins in `a` where `a` is followed by `b`.
#[verifier::opaque]
pub open spec fn no_code_begins(a: Seq<char>, b: Seq<char>) -> bool {
    forall|i: int| 0 <= i < a.len() ==> code_len(#[trigger] (a + b).skip(i)) == 0
}

/// Where no code begins in the first part of a text, stripping keeps that
/// part and goes on behind it.
pub proof fn lemma_strip_keeps(a: Seq<char>, b: Seq<char>)
    requires
        no_code_begins(a, b),
    ensures
        strip_escapes(a + b) == a + strip_escapes(b),
    decreases a.len(),
{
    reveal(strip_escapes);
    reveal(no_code_begins);
    if a.len() == 0 {
        assert(a + b =~= b);
        assert(a + strip_escapes(b) =~= strip_escapes(b));
    } else {
        let rest = a.drop_first();
        assert((a + b).skip(0) =~= a + b);
        assert((a + b).skip(1) =~= rest + b);
        assert forall|i: int| 0 <= i < rest.len() implies code_len(#[trigger] (rest + b).skip(i))
            == 0 by {
            assert((rest + b).skip(i) =~= (a + b).skip(i + 1));
        }
        lemma_strip_keeps(rest, b);
        assert(a + strip_escapes(b) =~= seq![a[0]] + (rest + strip_escapes(b)));
    }
}

/// A colour code at the front of a text is stripped, and stripping goes on
/// behind it.
pub proof fn lemma_strip_drops(code: Seq<char>, b: Seq<char>)
    requires
        code == red_code() || code == green_code() || code == reset_code(),
    ensures
        strip_escapes(code + b) == strip_escapes(b),
{
    reveal(strip_escapes);
    assert(code.is_prefix_of(code + b));
    assert((code + b).skip(code.len() as int) =~= b);
    assert(code_len(code + b) == code.len()) by {
        assert((code + b)[2] == code[2]);
    }
}

/// No code begins in a text without the escape character, whatever
/// follows it.
pub proof fn lemma_no_escape_char(a: Seq<char>, b: Seq<char>)
    requires
        forall|i: int| 0 <= i < a.len() ==> a[i] != '\x1b',
    ensures
        no_code_begins(a, b),
{
    reveal(no_code_begins);
    assert forall|i: int| 0 <= i < a.len() implies code_len(#[trigger] (a + b).skip(i)) == 0 by {
        assert((a + b).skip(i)[0] == a[i]);
    }
}

/// No code begins in a text that is free of codes, if what follows it does
/// not begin with a character that could go on a code.
pub proof fn lemma_no_code_across(a: Seq<char>, b: Seq<char>)
    requires
        escape_free(a),
        b.len() == 0 || !inside_code(b[0]),
    ensures
        no_code_begins(a, b),
{
    reveal(no_code_begins);
    reveal(escape_free);
    assert forall|i: int| 0 <= i < a.len() implies code_len(#[trigger] (a + b).skip(i)) == 0 by {
        let here = (a + b).skip(i);
        let within = a.skip(i);
        assert(code_len(within) == 0);
        if code_len(here) > 0 {
            let n = code_len(here) as int;
            if n <= within.len() {
                assert(here.subrange(0, n) =~= within.subrange(0, n));
                assert(here.subrange(0, 4) =~= within.subrange(0, 4));
            } else {
                let j = within.len() as int;
                assert(here[j] == b[0]);
                assert(here.subrange(0, n)[j] == here[j]);
            }
        }
    }
}

/// Every part of a text that is free of codes is free of codes.
pub proof fn lemma_free_part(s: Seq<char>, from: int, to: int)
    requires
        escape_free(s),
        0 <= from <= to <= s.len(),
    ensures
        escape_free(s.subrange(from, to)),
{
    reveal(escape_free);
    let part = s.subrange(from, to);
    assert forall|i: int| 0 <= i < part.len() implies code_len(#[trigger] part.skip(i)) == 0 by {
        assert(code_len(s.skip(from + i)) == 0);
        if code_len(part.skip(i)) > 0 {
            let n = code_len(part.skip(i)) as int;
            assert(part.skip(i).subrange(0, n) =~= s.skip(from + i).subrange(0, n));
        }
    }
}

/// A text in which no code begins, followed by one that is free of codes,
/// is free of codes.
pub proof fn lemma_free_joined(a: Seq<char>, b: Seq<char>)
    requires
        no_code_begins(a, b),
        escape_free(b),
    ensures
        escape_free(a + b),
{
    reveal(escape_free);
    reveal(no_code_begins);
    assert forall|i: int| 0 <= i < (a + b).len() implies code_len(#[trigger] (a + b).skip(i))
        == 0 by {
        if i >= a.len() {
            assert((a + b).skip(i) =~= b.skip(i - a.len()));
        }
    }
}

/// Stripping leaves a text that is free of codes as it is.
pub proof fn lemma_strip_free(s: Seq<char>)
    requires
        escape_free(s),
    ensures
        strip_escapes(s) == s,
{
    reveal(escape_free);
    reveal(no_code_begins);
    reveal(strip_escapes);
    let none = Seq::<char>::empty();
    assert(s + none =~= s);
    lemma_strip_keeps(s, none);
}

/// The empty text is free of codes, and stripping leaves it empty.
pub proof fn lemma_empty_free()
    ensures
        escape_free(Seq::empty()),
        strip_escapes(Seq::empty()) == Seq::<char>::empty(),
{
    reveal(escape_free);
    reveal(strip_escapes);
}

} // verus!
