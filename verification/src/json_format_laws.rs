//! How pretty-printed JSON is laid out, told from the text alone.
//!
//! A position of a text lies in a string or outside strings, and a number of brackets is open
//! there. Both are counted from the start of the text, byte by byte.
use vstd::prelude::*;

use crate::json_format::{
    formatted_json, json_end, json_next, json_start, json_text, json_written, JsonScan,
};

verus! {

/// Where the byte `n` of `s` stands: outside strings, in a string, or in a string right behind a
/// backslash that escapes it. The opening quotation mark stands outside, the closing one inside.
#[derive(PartialEq, Eq, Structural)]
pub enum StringPlace {
    Outside,
    Inside,
    Escaped,
}

/// Where the byte `n` of `s` stands.
pub open spec fn string_place(s: Seq<u8>, n: int) -> StringPlace
    decreases n,
{
    if n <= 0 {
        StringPlace::Outside
    } else {
        let mark = s[n - 1] == 0x22;
        match string_place(s, n - 1) {
            StringPlace::Outside => if mark {
                StringPlace::Inside
            } else {
                StringPlace::Outside
            },
            StringPlace::Escaped => StringPlace::Inside,
            StringPlace::Inside => if mark {
                StringPlace::Outside
            } else if s[n - 1] == 0x5c {
                StringPlace::Escaped
            } else {
                StringPlace::Inside
            },
        }
    }
}

/// The byte `n` of `s` stands outside strings.
pub open spec fn outside_strings(s: Seq<u8>, n: int) -> bool {
    string_place(s, n) == StringPlace::Outside
}

/// `{` or `[`.
pub open spec fn opens_bracket(b: u8) -> bool {
    b == 0x7b || b == 0x5b
}

/// `}` or `]`.
pub open spec fn closes_bracket(b: u8) -> bool {
    b == 0x7d || b == 0x5d
}

/// Space, tab, line feed, form feed or carriage return.
pub open spec fn json_blank(b: u8) -> bool {
    b == 0x20 || b == 0x09 || b == 0x0a || b == 0x0c || b == 0x0d
}

/// How many brackets are open before the byte `n` of `s`; a closing bracket with none open closes
/// nothing.
pub open spec fn brackets_open(s: Seq<u8>, n: int) -> nat
    decreases n,
{
    if n <= 0 {
        0
    } else {
        let before = brackets_open(s, n - 1);
        if !outside_strings(s, n - 1) {
            before
        } else if opens_bracket(s[n - 1]) {
            before + 1
        } else if closes_bracket(s[n - 1]) && before > 0 {
            (before - 1) as nat
        } else {
            before
        }
    }
}

/// The bytes of `s` up to `n` without the whitespace outside strings.
pub open spec fn meant_bytes(s: Seq<u8>, n: int) -> Seq<u8>
    decreases n,
{
    if n <= 0 {
        Seq::empty()
    } else if outside_strings(s, n - 1) && json_blank(s[n - 1]) {
        meant_bytes(s, n - 1)
    } else {
        meant_bytes(s, n - 1).push(s[n - 1])
    }
}

/// The columns that `depth` levels are indented by: two for each, as far as a `usize` counts.
pub open spec fn indentation(depth: nat) -> int {
    if 2 * depth <= usize::MAX {
        2 * depth as int
    } else {
        usize::MAX as int
    }
}

/// All bytes of `t` from `a` up to `b` are spaces.
pub open spec fn only_spaces(t: Seq<u8>, a: int, b: int) -> bool {
    forall|j: int| a <= j < b ==> #[trigger] t[j] == 0x20
}

/// A new line starts at `a`: a line feed, and the indentation of `depth` levels behind it up to
/// `b`.
pub open spec fn breaks_line(t: Seq<u8>, a: int, b: int, depth: nat) -> bool {
    &&& 0 <= a < b <= t.len()
    &&& t[a] == 0x0a
    &&& b == a + 1 + indentation(depth)
    &&& only_spaces(t, a + 1, b)
}

/// The byte `i` of the text `t`, if it stands outside strings, is laid out as its structure asks:
/// behind a comma and an opening bracket, and before a closing bracket, a new line starts, indented
/// by the brackets that are open there; one space stands behind a colon; and whitespace stands
/// nowhere else.
pub open spec fn laid_out(t: Seq<u8>, i: int) -> bool {
    outside_strings(t, i) ==> {
        &&& t[i] == 0x2c || opens_bracket(t[i]) ==> {
            let depth = brackets_open(t, i + 1);
            let end = i + 2 + indentation(depth);
            breaks_line(t, i + 1, end, depth) && (end == t.len() || t[end] != 0x20)
        }
        &&& closes_bracket(t[i]) ==> {
            let depth = brackets_open(t, i + 1);
            breaks_line(t, i - 1 - indentation(depth), i, depth)
        }
        &&& t[i] == 0x3a ==> i + 1 < t.len() && t[i + 1] == 0x20 && (i + 2 == t.len() || t[i + 2]
            != 0x20)
        &&& json_blank(t[i]) ==> t[i] == 0x0a || t[i] == 0x20
        &&& t[i] == 0x0a ==> {
            ||| i > 0 && outside_strings(t, i - 1) && (t[i - 1] == 0x2c || opens_bracket(t[i - 1]))
            ||| exists|j: int|
                i < j < t.len() && closes_bracket(#[trigger] t[j]) && only_spaces(t, i + 1, j)
        }
        &&& t[i] == 0x20 ==> i > 0 && outside_strings(t, i - 1) && (t[i - 1] == 0x3a || t[i - 1]
            == 0x0a || t[i - 1] == 0x20)
    }
}

/// The scan stands at the place that is counted from the start.
spec fn agrees(s: Seq<u8>, n: int, st: JsonScan) -> bool {
    &&& st.depth == brackets_open(s, n)
    &&& string_place(s, n) == if !st.in_string {
        StringPlace::Outside
    } else if st.escaped {
        StringPlace::Escaped
    } else {
        StringPlace::Inside
    }
    &&& !st.in_string ==> !st.escaped
}

proof fn lemma_agrees_next(s: Seq<u8>, n: int, st: JsonScan)
    requires
        0 <= n < s.len(),
        agrees(s, n, st),
    ensures
        agrees(s, n + 1, json_next(st, s[n])),
{
}

proof fn lemma_blank_run(t: Seq<u8>, a: int, b: int)
    requires
        0 <= a <= b <= t.len(),
        outside_strings(t, a),
        forall|j: int| a <= j < b ==> json_blank(#[trigger] t[j]),
    ensures
        forall|j: int| a <= j <= b ==> #[trigger] outside_strings(t, j),
        brackets_open(t, b) == brackets_open(t, a),
        meant_bytes(t, b) == meant_bytes(t, a),
    decreases b - a,
{
    if a < b {
        lemma_blank_run(t, a, b - 1);
        assert(outside_strings(t, b - 1));
        assert(json_blank(t[b - 1]));
    }
}

/// What is written never starts with a space outside strings.
proof fn lemma_text_starts(st: JsonScan, s: Seq<u8>)
    requires
        !st.in_string,
    ensures
        json_text(st, s).len() > 0 ==> json_text(st, s)[0] != 0x20,
    decreases s.len(),
{
    if s.len() > 0 {
        let next = json_next(st, s[0]);
        let w = json_written(st, s[0]);
        if w.len() == 0 {
            lemma_text_starts(next, s.skip(1));
            assert(json_text(st, s) =~= json_text(next, s.skip(1)));
        } else {
            assert(json_text(st, s)[0] == w[0]);
        }
    }
}

/// A comma, an opening bracket or a colon at `n` with the whitespace behind it up to `end`.
proof fn lemma_leading_mark(t: Seq<u8>, n: int, end: int, st: JsonScan)
    requires
        0 <= n < end <= t.len(),
        agrees(t, n, st),
        !st.in_string,
        opens_bracket(t[n]) || t[n] == 0x2c || t[n] == 0x3a,
        t[n] == 0x3a ==> end == n + 2 && t[n + 1] == 0x20,
        t[n] != 0x3a ==> breaks_line(t, n + 1, end, json_next(st, t[n]).depth),
        end == t.len() || t[end] != 0x20,
    ensures
        agrees(t, end, json_next(st, t[n])),
        forall|i: int| n <= i < end ==> #[trigger] laid_out(t, i),
        meant_bytes(t, end) == meant_bytes(t, n).push(t[n]),
{
    lemma_agrees_next(t, n, st);
    assert forall|j: int| n + 1 <= j < end implies json_blank(#[trigger] t[j]) by {
        if j > n + 1 {
            assert(t[j] == 0x20);
        }
    }
    lemma_blank_run(t, n + 1, end);
    assert(outside_strings(t, n));
    assert(laid_out(t, n));
    assert forall|i: int| n <= i < end implies #[trigger] laid_out(t, i) by {
        if i > n {
            assert(outside_strings(t, i));
            assert(outside_strings(t, i - 1));
            if i > n + 1 {
                assert(t[i] == 0x20);
                if i - 1 > n + 1 {
                    assert(t[i - 1] == 0x20);
                }
            }
        }
    }
}

/// A closing bracket at `end - 1` with the whitespace before it from `n` on.
proof fn lemma_trailing_mark(t: Seq<u8>, n: int, end: int, st: JsonScan)
    requires
        0 <= n < end <= t.len(),
        agrees(t, n, st),
        !st.in_string,
        closes_bracket(t[end - 1]),
        breaks_line(t, n, end - 1, json_next(st, t[end - 1]).depth),
    ensures
        agrees(t, end, json_next(st, t[end - 1])),
        forall|i: int| n <= i < end ==> #[trigger] laid_out(t, i),
        meant_bytes(t, end) == meant_bytes(t, n).push(t[end - 1]),
{
    assert forall|j: int| n <= j < end - 1 implies json_blank(#[trigger] t[j]) by {
        if j > n {
            assert(t[j] == 0x20);
        }
    }
    lemma_blank_run(t, n, end - 1);
    assert(outside_strings(t, end - 1));
    lemma_agrees_next(t, end - 1, st);
    assert(laid_out(t, end - 1));
    assert(closes_bracket(t[end - 1]) && only_spaces(t, n + 1, end - 1));
    assert(laid_out(t, n));
    assert forall|i: int| n <= i < end implies #[trigger] laid_out(t, i) by {
        if n < i < end - 1 {
            assert(t[i] == 0x20);
            assert(outside_strings(t, i - 1));
            if i - 1 > n {
                assert(t[i - 1] == 0x20);
            }
        }
    }
}

/// What is written for one byte, at `n` in the whole.
proof fn lemma_written_laid_out(t: Seq<u8>, n: int, st: JsonScan, b: u8)
    requires
        0 <= n,
        n + json_written(st, b).len() <= t.len(),
        t.subrange(n, n + json_written(st, b).len()) == json_written(st, b),
        agrees(t, n, st),
        ({
            let end = n + json_written(st, b).len();
            !json_next(st, b).in_string ==> end == t.len() || t[end] != 0x20
        }),
    ensures
        agrees(t, n + json_written(st, b).len(), json_next(st, b)),
        forall|i: int| n <= i < n + json_written(st, b).len() ==> #[trigger] laid_out(t, i),
        meant_bytes(t, n + json_written(st, b).len()) == if !st.in_string && json_blank(b) {
            meant_bytes(t, n)
        } else {
            meant_bytes(t, n).push(b)
        },
{
    let w = json_written(st, b);
    let end = n + w.len();
    assert forall|j: int| n <= j < end implies #[trigger] t[j] == w[j - n] by {
        assert(t.subrange(n, end)[j - n] == t[j]);
    }
    if st.in_string || b == 0x22 {
        assert(t[n] == b);
        lemma_agrees_next(t, n, st);
        assert(laid_out(t, n));
    } else if opens_bracket(b) || b == 0x2c || b == 0x3a {
        assert(t[n] == w[0] && t[n + 1] == w[1]);
        if b != 0x3a {
            let depth = json_next(st, b).depth;
            assert(w.len() == 2 + indentation(depth));
            assert forall|j: int| n + 2 <= j < end implies #[trigger] t[j] == 0x20 by {
                assert(t[j] == w[j - n]);
            }
            assert(breaks_line(t, n + 1, end, depth));
        }
        lemma_leading_mark(t, n, end, st);
    } else if closes_bracket(b) {
        let depth = json_next(st, b).depth;
        assert(w.len() == 2 + indentation(depth));
        assert(t[n] == w[0] && t[end - 1] == w[w.len() - 1]);
        assert forall|j: int| n + 1 <= j < end - 1 implies #[trigger] t[j] == 0x20 by {
            assert(t[j] == w[j - n]);
        }
        assert(breaks_line(t, n, end - 1, depth));
        lemma_trailing_mark(t, n, end, st);
    } else if json_blank(b) {
        assert(w =~= Seq::<u8>::empty());
    } else {
        assert(w =~= seq![b]);
        assert(t[n] == b);
        lemma_agrees_next(t, n, st);
        assert(laid_out(t, n));
    }
}

proof fn lemma_text_laid_out(t: Seq<u8>, n: int, whole: Seq<u8>, m: int, st: JsonScan)
    requires
        0 <= n <= t.len(),
        0 <= m <= whole.len(),
        t.skip(n) == json_text(st, whole.skip(m)),
        agrees(t, n, st),
        agrees(whole, m, st),
        meant_bytes(t, n) == meant_bytes(whole, m),
    ensures
        forall|i: int| n <= i < t.len() ==> #[trigger] laid_out(t, i),
        meant_bytes(t, t.len() as int) == meant_bytes(whole, whole.len() as int),
        agrees(whole, whole.len() as int, json_end(st, whole.skip(m))),
        agrees(t, t.len() as int, json_end(st, whole.skip(m))),
    decreases whole.len() - m,
{
    let s = whole.skip(m);
    if s.len() == 0 {
        assert(t.skip(n).len() == 0);
    } else {
        let b = s[0];
        let w = json_written(st, b);
        let next = json_next(st, b);
        let end = n + w.len();
        assert(s.skip(1) =~= whole.skip(m + 1));
        assert(t.skip(n) == w + json_text(next, s.skip(1)));
        assert(t.skip(n).len() == t.len() - n);
        assert(t.subrange(n, end) =~= t.skip(n).take(w.len() as int));
        assert(t.skip(n).take(w.len() as int) =~= w);
        assert(t.skip(end) =~= t.skip(n).skip(w.len() as int));
        assert(t.skip(n).skip(w.len() as int) =~= json_text(next, s.skip(1)));
        if !next.in_string {
            lemma_text_starts(next, s.skip(1));
            if end < t.len() {
                assert(t.skip(end)[0] == t[end]);
            }
        }
        lemma_written_laid_out(t, n, st, b);
        lemma_agrees_next(whole, m, st);
        lemma_text_laid_out(t, end, whole, m + 1, next);
    }
}

proof fn lemma_whole(s: Seq<u8>)
    ensures
        ({
            let t = json_text(json_start(), s);
            &&& forall|i: int| 0 <= i < t.len() ==> #[trigger] laid_out(t, i)
            &&& meant_bytes(t, t.len() as int) == meant_bytes(s, s.len() as int)
            &&& agrees(s, s.len() as int, json_end(json_start(), s))
            &&& agrees(t, t.len() as int, json_end(json_start(), s))
        }),
{
    let t = json_text(json_start(), s);
    assert(t.skip(0) =~= t);
    assert(s.skip(0) =~= s);
    lemma_text_laid_out(t, 0, s, 0, json_start());
}

/// In a pretty-printed document every byte outside strings is laid out as the structure asks,
/// however deep it stands: a new line behind commas and opening brackets and before closing ones,
/// indented by two columns for each open bracket, a space behind colons, and no other whitespace.
pub proof fn law_json_lines(s: Seq<u8>, t: Seq<u8>, i: int)
    requires
        formatted_json(s) == Some(t),
        0 <= i < t.len(),
    ensures
        laid_out(t, i),
{
    lemma_whole(s);
    assert(laid_out(json_text(json_start(), s), i));
}

/// A pretty-printed document holds the bytes of the document, in their order, but for the whitespace
/// outside strings.
pub proof fn law_json_bytes_kept(s: Seq<u8>, t: Seq<u8>)
    requires
        formatted_json(s) == Some(t),
    ensures
        meant_bytes(t, t.len() as int) == meant_bytes(s, s.len() as int),
{
    lemma_whole(s);
}

/// A document is pretty-printed if and only if it leaves no string and no bracket open.
pub proof fn law_json_is_closed(s: Seq<u8>)
    ensures
        formatted_json(s) is Some <==> outside_strings(s, s.len() as int) && brackets_open(
            s,
            s.len() as int,
        ) == 0,
{
    lemma_whole(s);
}

} // verus!
