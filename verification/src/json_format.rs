//! Pretty-printing of JSON into indented lines.
//!
//! Outside strings all whitespace is dropped, and line breaks, indentation and a space behind each
//! colon are put where the structure asks for them. Inside strings nothing changes.
use vstd::prelude::*;

use crate::text::{ascii_space, indent, is_ascii_space, push_indent};

verus! {

/// Where the scan stands: inside a string, right behind a backslash in one, and how many
/// brackets are open.
pub struct JsonScan {
    pub in_string: bool,
    pub escaped: bool,
    pub depth: nat,
}

/// The state before the first byte.
pub open spec fn json_start() -> JsonScan {
    JsonScan { in_string: false, escaped: false, depth: 0 }
}

/// One level less, none at the outermost.
pub open spec fn shallower(depth: nat) -> nat {
    if depth > 0 {
        (depth - 1) as nat
    } else {
        0
    }
}

/// The state behind the byte `b`.
pub open spec fn json_next(st: JsonScan, b: u8) -> JsonScan {
    if st.in_string {
        if st.escaped {
            JsonScan { escaped: false, ..st }
        } else if b == 0x5c {
            JsonScan { escaped: true, ..st }
        } else if b == 0x22 {
            JsonScan { in_string: false, ..st }
        } else {
            st
        }
    } else if b == 0x22 {
        JsonScan { in_string: true, ..st }
    } else if b == 0x7b || b == 0x5b {
        JsonScan { depth: st.depth + 1, ..st }
    } else if b == 0x7d || b == 0x5d {
        JsonScan { depth: shallower(st.depth), ..st }
    } else {
        st
    }
}

/// What is written for the byte `b`.
pub open spec fn json_written(st: JsonScan, b: u8) -> Seq<u8> {
    if st.in_string || b == 0x22 {
        seq![b]
    } else if b == 0x7b || b == 0x5b {
        seq![b, 0x0a] + indent(st.depth + 1)
    } else if b == 0x7d || b == 0x5d {
        (seq![0x0a] + indent(shallower(st.depth))).push(b)
    } else if b == 0x2c {
        seq![b, 0x0a] + indent(st.depth)
    } else if b == 0x3a {
        seq![b, 0x20]
    } else if ascii_space(b) {
        Seq::empty()
    } else {
        seq![b]
    }
}

/// What is written for `s`, from the state `st` on.
pub open spec fn json_text(st: JsonScan, s: Seq<u8>) -> Seq<u8>
    decreases s.len(),
{
    if s.len() == 0 {
        Seq::empty()
    } else {
        json_written(st, s[0]) + json_text(json_next(st, s[0]), s.skip(1))
    }
}

/// The state behind `s`, from the state `st` on.
pub open spec fn json_end(st: JsonScan, s: Seq<u8>) -> JsonScan
    decreases s.len(),
{
    if s.len() == 0 {
        st
    } else {
        json_end(json_next(st, s[0]), s.skip(1))
    }
}

/// A document as it is shown, or `None` where a string or a bracket is left open.
pub open spec fn formatted_json(s: Seq<u8>) -> Option<Seq<u8>> {
    let end = json_end(json_start(), s);
    if end.in_string || end.depth != 0 {
        None
    } else {
        Some(json_text(json_start(), s))
    }
}

/// The document as indented lines: see [`formatted_json`].
pub fn format_json_for_display(bytes: &[u8]) -> (r: Option<Vec<u8>>)
    ensures
        match r {
            Some(out) => formatted_json(bytes@) == Some(out@),
            None => formatted_json(bytes@) is None,
        },
{
    let mut out: Vec<u8> = Vec::new();
    let mut idx: usize = 0;
    let mut depth: usize = 0;
    let mut in_string: bool = false;
    let mut escaped: bool = false;
    proof {
        assert(bytes@.skip(0) =~= bytes@);
        assert(out@ + json_text(json_start(), bytes@) =~= json_text(json_start(), bytes@));
    }
    while idx < bytes.len()
        invariant
            depth <= idx <= bytes@.len(),
            !in_string ==> !escaped,
            json_text(json_start(), bytes@) == out@ + json_text(
                JsonScan { in_string, escaped, depth: depth as nat },
                bytes@.skip(idx as int),
            ),
            json_end(json_start(), bytes@) == json_end(
                JsonScan { in_string, escaped, depth: depth as nat },
                bytes@.skip(idx as int),
            ),
        decreases bytes.len() - idx,
    {
        let b = bytes[idx];
        let ghost before = out@;
        let ghost st = JsonScan { in_string, escaped, depth: depth as nat };
        if in_string {
            out.push(b);
            if escaped {
                escaped = false;
            } else if b == 0x5c {
                escaped = true;
            } else if b == 0x22 {
                in_string = false;
            }
        } else if b == 0x22 {
            in_string = true;
            out.push(b);
        } else if b == 0x7b || b == 0x5b {
            out.push(b);
            out.push(0x0a);
            depth = depth + 1;
            push_indent(&mut out, depth);
        } else if b == 0x7d || b == 0x5d {
            out.push(0x0a);
            depth = depth.saturating_sub(1);
            push_indent(&mut out, depth);
            out.push(b);
        } else if b == 0x2c {
            out.push(b);
            out.push(0x0a);
            push_indent(&mut out, depth);
        } else if b == 0x3a {
            out.push(b);
            out.push(0x20);
        } else if !is_ascii_space(b) {
            out.push(b);
        }
        proof {
            let rest = bytes@.skip(idx as int);
            assert(rest[0] == b);
            assert(rest.skip(1) =~= bytes@.skip(idx + 1));
            assert(json_next(st, b) == JsonScan { in_string, escaped, depth: depth as nat });
            assert(out@ =~= before + json_written(st, b));
            assert(json_text(json_start(), bytes@) =~= out@ + json_text(
                json_next(st, b),
                rest.skip(1),
            ));
        }
        idx = idx + 1;
    }
    proof {
        assert(out@ + Seq::<u8>::empty() =~= out@);
    }
    if in_string || depth != 0 {
        return None;
    }
    Some(out)
}

/// The bytes of `s` that matter: all of a string, and outside strings all but whitespace.
pub open spec fn json_significant(st: JsonScan, s: Seq<u8>) -> Seq<u8>
    decreases s.len(),
{
    if s.len() == 0 {
        Seq::empty()
    } else {
        let rest = json_significant(json_next(st, s[0]), s.skip(1));
        if !st.in_string && ascii_space(s[0]) {
            rest
        } else {
            seq![s[0]] + rest
        }
    }
}

proof fn lemma_significant_split(st: JsonScan, a: Seq<u8>, b: Seq<u8>)
    ensures
        json_significant(st, a + b) == json_significant(st, a) + json_significant(
            json_end(st, a),
            b,
        ),
        json_end(st, a + b) == json_end(json_end(st, a), b),
    decreases a.len(),
{
    if a.len() == 0 {
        assert(a + b =~= b);
        assert(json_significant(st, a) + json_significant(st, b) =~= json_significant(st, b));
    } else {
        assert((a + b).skip(1) =~= a.skip(1) + b);
        lemma_significant_split(json_next(st, a[0]), a.skip(1), b);
        assert(json_significant(st, a + b) =~= json_significant(st, a) + json_significant(
            json_end(st, a),
            b,
        ));
    }
}

proof fn lemma_space_insignificant(st: JsonScan, w: Seq<u8>)
    requires
        !st.in_string,
        forall|i: int| 0 <= i < w.len() ==> ascii_space(w[i]),
    ensures
        json_significant(st, w) == Seq::<u8>::empty(),
        json_end(st, w) == st,
    decreases w.len(),
{
    if w.len() > 0 {
        assert(json_next(st, w[0]) == st);
        lemma_space_insignificant(st, w.skip(1));
    }
}

proof fn lemma_one_byte(st: JsonScan, b: u8)
    ensures
        json_end(st, seq![b]) == json_next(st, b),
        json_significant(st, seq![b]) == if !st.in_string && ascii_space(b) {
            Seq::<u8>::empty()
        } else {
            seq![b]
        },
{
    let s = seq![b];
    assert(s.skip(1) =~= Seq::<u8>::empty());
    assert(json_end(json_next(st, b), s.skip(1)) == json_next(st, b));
    assert(json_significant(json_next(st, b), s.skip(1)) =~= Seq::<u8>::empty());
    assert(s + Seq::<u8>::empty() =~= s);
}

proof fn lemma_written(st: JsonScan, b: u8)
    ensures
        json_end(st, json_written(st, b)) == json_next(st, b),
        json_significant(st, json_written(st, b)) == json_significant(st, seq![b]),
{
    let w = json_written(st, b);
    let one = seq![b];
    lemma_one_byte(st, b);
    if st.in_string || b == 0x22 {
    } else if b == 0x7b || b == 0x5b || b == 0x2c || b == 0x3a {
        let space = w.skip(1);
        assert(w =~= one + space);
        lemma_significant_split(st, one, space);
        lemma_space_insignificant(json_next(st, b), space);
        assert(one + Seq::<u8>::empty() =~= one);
    } else if b == 0x7d || b == 0x5d {
        let space = w.drop_last();
        assert(w =~= space + one);
        lemma_significant_split(st, space, one);
        lemma_space_insignificant(st, space);
        assert(Seq::<u8>::empty() + one =~= one);
    }
}

proof fn lemma_text_significant(st: JsonScan, s: Seq<u8>)
    ensures
        json_significant(st, json_text(st, s)) == json_significant(st, s),
        json_end(st, json_text(st, s)) == json_end(st, s),
    decreases s.len(),
{
    if s.len() > 0 {
        let next = json_next(st, s[0]);
        lemma_text_significant(next, s.skip(1));
        lemma_written(st, s[0]);
        lemma_significant_split(st, json_written(st, s[0]), json_text(next, s.skip(1)));
        lemma_one_byte(st, s[0]);
        assert(json_significant(st, json_text(st, s)) =~= json_significant(st, s));
    }
}

proof fn lemma_only_significant(st: JsonScan, s: Seq<u8>)
    ensures
        json_text(st, json_significant(st, s)) == json_text(st, s),
        json_end(st, json_significant(st, s)) == json_end(st, s),
    decreases s.len(),
{
    if s.len() > 0 {
        let next = json_next(st, s[0]);
        lemma_only_significant(next, s.skip(1));
        if !st.in_string && ascii_space(s[0]) {
            assert(next == st);
            assert(json_text(st, s) =~= json_text(st, s.skip(1)));
        } else {
            let kept = json_significant(st, s);
            assert(kept.skip(1) =~= json_significant(next, s.skip(1)));
        }
    }
}

/// Pretty-printing keeps every byte of the document but whitespace outside strings, in
/// their order.
pub proof fn law_formatting_keeps_json(s: Seq<u8>, t: Seq<u8>)
    requires
        formatted_json(s) == Some(t),
    ensures
        json_significant(json_start(), t) == json_significant(json_start(), s),
{
    lemma_text_significant(json_start(), s);
}

/// Whitespace outside strings has no part in how a document is shown: two documents that differ
/// in nothing else are shown alike.
pub proof fn law_json_layout_ignored(s: Seq<u8>, t: Seq<u8>)
    requires
        json_significant(json_start(), s) == json_significant(json_start(), t),
    ensures
        formatted_json(s) == formatted_json(t),
{
    lemma_only_significant(json_start(), s);
    lemma_only_significant(json_start(), t);
}

/// Pretty-printing a document that is already pretty-printed changes nothing.
pub proof fn law_formatting_json_twice(s: Seq<u8>, t: Seq<u8>)
    requires
        formatted_json(s) == Some(t),
    ensures
        formatted_json(t) == Some(t),
{
    law_formatting_keeps_json(s, t);
    law_json_layout_ignored(s, t);
}

} // verus!
