//! How pretty-printed XML is laid out, told from the document itself: where its pieces are cut, which
//! of them share a line, and how far each line is indented.
use vstd::prelude::*;

use crate::text::{ascii_space, indent};
use crate::xml_format::{
    closing_tag, depth_after, formatted_xml, leading_name, lemma_tag_rest_len, lemma_text_len,
    lemma_trim_end_len, line_depth, names_match, opening_tag, piece_len, self_closing_tag, tag_body,
    tag_len, tag_name, tag_rest_len, text_element, text_len, trim_end, trim_start, with_line_feeds,
    xml_lines, xml_pieces, XmlPiece,
};

verus! {

/// Space, tab, line feed, form feed or carriage return.
pub open spec fn xml_blank(b: u8) -> bool {
    b == 0x20 || b == 0x09 || b == 0x0a || b == 0x0c || b == 0x0d
}

/// All bytes of `s` from `a` up to `b` are whitespace.
pub open spec fn all_blank(s: Seq<u8>, a: int, b: int) -> bool {
    forall|x: int| a <= x < b ==> xml_blank(#[trigger] s[x])
}

/// The quotation mark that is open before the byte `n` in the tag that starts at `a`.
pub open spec fn open_quote(s: Seq<u8>, a: int, n: int) -> Option<u8>
    decreases n - a,
{
    if n <= a + 1 {
        None
    } else {
        let b = s[n - 1];
        match open_quote(s, a, n - 1) {
            Some(quote) => if b == quote {
                None
            } else {
                Some(quote)
            },
            None => if b == 0x22 || b == 0x27 {
                Some(b)
            } else {
                None
            },
        }
    }
}

/// The byte `x` is a `>` outside the quotes of the tag that starts at `a`.
pub open spec fn tag_mark(s: Seq<u8>, a: int, x: int) -> bool {
    s[x] == 0x3e && open_quote(s, a, x) is None
}

/// The tag that starts at `a` ends before `b`: with the first `>` outside its quotes, or with
/// the document.
pub open spec fn tag_ends(s: Seq<u8>, a: int, b: int) -> bool {
    &&& a < b <= s.len()
    &&& forall|x: int| a < x < b - 1 ==> !#[trigger] tag_mark(s, a, x)
    &&& b == s.len() || (a < b - 1 && tag_mark(s, a, b - 1))
}

/// The text that starts at `a` ends before `b`: nothing but whitespace stands between it and the next
/// tag, or the end.
pub open spec fn text_ends(s: Seq<u8>, a: int, b: int) -> bool {
    &&& a < b <= s.len()
    &&& forall|x: int| a <= x < b ==> #[trigger] s[x] != 0x3c
    &&& !xml_blank(s[b - 1])
    &&& exists|e: int| b <= e <= s.len() && #[trigger] all_blank(s, b, e) && (e == s.len() || s[e]
        == 0x3c)
}

/// `piece` is the tag or the text that stands in `s` from `a` up to `b`.
pub open spec fn is_piece(s: Seq<u8>, a: int, b: int, piece: XmlPiece) -> bool {
    &&& 0 <= a < b <= s.len()
    &&& piece.content == s.subrange(a, b)
    &&& !xml_blank(s[a])
    &&& piece.tag <==> s[a] == 0x3c
    &&& if s[a] == 0x3c {
        tag_ends(s, a, b)
    } else {
        text_ends(s, a, b)
    }
}

/// Where the gap before the piece `k` starts.
pub open spec fn gap_start(n: int, ends: Seq<int>, k: int) -> int {
    if k <= 0 {
        n
    } else {
        ends[k - 1]
    }
}

/// Where the gap before the piece `k` ends.
pub open spec fn gap_end(s: Seq<u8>, starts: Seq<int>, k: int) -> int {
    if k < starts.len() {
        starts[k]
    } else {
        s.len() as int
    }
}

/// `pieces` are the tags and texts of `s` from `n` on, in their order, and nothing but whitespace
/// stands between them.
pub open spec fn is_cut(
    s: Seq<u8>,
    n: int,
    pieces: Seq<XmlPiece>,
    starts: Seq<int>,
    ends: Seq<int>,
) -> bool {
    &&& starts.len() == pieces.len()
    &&& ends.len() == pieces.len()
    &&& forall|k: int|
        0 <= k < pieces.len() ==> #[trigger] is_piece(s, starts[k], ends[k], pieces[k])
    &&& forall|k: int|
        0 <= k <= pieces.len() ==> #[trigger] gap_start(n, ends, k) <= gap_end(s, starts, k)
            && all_blank(s, gap_start(n, ends, k), gap_end(s, starts, k))
}

proof fn lemma_tag_end(s: Seq<u8>, a: int, x: int, quote: Option<u8>)
    requires
        0 <= a < x <= s.len(),
        quote == open_quote(s, a, x),
        forall|y: int| a < y < x ==> !#[trigger] tag_mark(s, a, y),
    ensures
        tag_ends(s, a, x + tag_rest_len(s.skip(x), quote)),
    decreases s.len() - x,
{
    let rest = s.skip(x);
    if rest.len() > 0 {
        assert(rest[0] == s[x]);
        assert(rest.skip(1) =~= s.skip(x + 1));
        if quote is None && s[x] == 0x3e {
            assert(tag_mark(s, a, x));
        } else {
            assert(!tag_mark(s, a, x));
            lemma_tag_end(s, a, x + 1, open_quote(s, a, x + 1));
        }
    }
}

/// A tag takes its `<` and what follows up to its end.
pub(crate) proof fn lemma_tag_at(s: Seq<u8>, a: int)
    requires
        0 <= a < s.len(),
    ensures
        tag_ends(s, a, a + tag_len(s.skip(a))),
{
    assert(s.skip(a).skip(1) =~= s.skip(a + 1));
    lemma_tag_end(s, a, a + 1, None);
}

proof fn lemma_text_end(s: Seq<u8>, a: int)
    requires
        0 <= a < s.len(),
        !xml_blank(s[a]),
        s[a] != 0x3c,
    ensures
        ({
            let n = text_len(s.skip(a));
            let c = trim_end(s.skip(a).take(n as int));
            let b = a + c.len();
            &&& 0 < n <= s.len() - a
            &&& text_ends(s, a, b)
            &&& c == s.subrange(a, b)
            &&& b <= a + n
            &&& all_blank(s, b, a + n)
        }),
{
    let rest = s.skip(a);
    assert(rest[0] == s[a]);
    lemma_text_len(rest);
    let n = text_len(rest) as int;
    assert(n > 0);
    let whole = rest.take(n);
    let c = trim_end(whole);
    lemma_trim_end_len(whole);
    assert(whole[0] == s[a]);
    let b = a + c.len();
    assert(c =~= s.subrange(a, b)) by {
        assert(c == whole.take(c.len() as int));
    }
    lemma_trimmed_blank(whole);
    assert forall|x: int| b <= x < a + n implies xml_blank(#[trigger] s[x]) by {
        assert(ascii_space(whole[x - a]));
    }
    assert(all_blank(s, b, a + n));
    assert forall|x: int| a <= x < b implies #[trigger] s[x] != 0x3c by {
        assert(rest[x - a] == s[x]);
    }
    assert(c.last() == s[b - 1]);
    if a + n < s.len() {
        assert(rest[n] == s[a + n]);
    }
    assert(b <= a + n <= s.len() && all_blank(s, b, a + n));
}

/// What is taken off the end is whitespace.
pub(crate) proof fn lemma_trimmed_blank(s: Seq<u8>)
    ensures
        forall|x: int| trim_end(s).len() <= x < s.len() ==> ascii_space(#[trigger] s[x]),
    decreases s.len(),
{
    if s.len() > 0 && ascii_space(s.last()) {
        let shorter = s.drop_last();
        lemma_trimmed_blank(shorter);
        assert forall|x: int| trim_end(s).len() <= x < s.len() implies ascii_space(
            #[trigger] s[x],
        ) by {
            if x < s.len() - 1 {
                assert(shorter[x] == s[x]);
            }
        }
    }
}

proof fn lemma_cut(s: Seq<u8>, n: int) -> (r: (Seq<int>, Seq<int>))
    requires
        0 <= n <= s.len(),
    ensures
        is_cut(s, n, xml_pieces(s.skip(n)), r.0, r.1),
    decreases s.len() - n,
{
    let rest = s.skip(n);
    if rest.len() == 0 {
        (Seq::empty(), Seq::empty())
    } else if ascii_space(rest[0]) {
        assert(rest.skip(1) =~= s.skip(n + 1));
        let (starts, ends) = lemma_cut(s, n + 1);
        let p = xml_pieces(rest);
        assert forall|k: int| 0 <= k <= p.len() implies #[trigger] gap_start(n, ends, k) <= gap_end(
            s,
            starts,
            k,
        ) && all_blank(s, gap_start(n, ends, k), gap_end(s, starts, k)) by {
            assert(gap_start(n + 1, ends, k) <= gap_end(s, starts, k));
            if k == 0 {
                let to = gap_end(s, starts, 0);
                assert forall|x: int| n <= x < to implies xml_blank(#[trigger] s[x]) by {
                    if x > n {
                        assert(all_blank(s, n + 1, to));
                    }
                }
            }
        }
        (starts, ends)
    } else {
        let p = xml_pieces(rest);
        let len = piece_len(rest) as int;
        assert(rest[0] == s[n]);
        if rest[0] == 0x3c {
            lemma_tag_rest_len(rest.skip(1), None);
            assert(rest.skip(1) =~= s.skip(n + 1));
            lemma_tag_end(s, n, n + 1, None);
        } else {
            lemma_text_end(s, n);
        }
        assert(rest.skip(len) =~= s.skip(n + len));
        let (more_starts, more_ends) = lemma_cut(s, n + len);
        let q = xml_pieces(s.skip(n + len));
        assert(p.skip(1) =~= q);
        let b = n + p[0].content.len();
        let starts = seq![n] + more_starts;
        let ends = seq![b] + more_ends;
        assert(p[0].content =~= s.subrange(n, b));
        assert(is_piece(s, n, b, p[0]));
        assert(all_blank(s, b, n + len));
        assert forall|k: int| 0 <= k < p.len() implies #[trigger] is_piece(
            s,
            starts[k],
            ends[k],
            p[k],
        ) by {
            if k > 0 {
                assert(is_piece(s, more_starts[k - 1], more_ends[k - 1], q[k - 1]));
                assert(p[k] == q[k - 1]);
            }
        }
        assert forall|k: int| 0 <= k <= p.len() implies #[trigger] gap_start(n, ends, k) <= gap_end(
            s,
            starts,
            k,
        ) && all_blank(s, gap_start(n, ends, k), gap_end(s, starts, k)) by {
            if k == 1 {
                assert(gap_start(n + len, more_ends, 0) <= gap_end(s, more_starts, 0));
                let to = gap_end(s, more_starts, 0);
                assert(gap_end(s, starts, 1) == to);
                assert(all_blank(s, n + len, to));
                assert forall|x: int| b <= x < to implies xml_blank(#[trigger] s[x]) by {}
            } else if k > 1 {
                assert(gap_start(n + len, more_ends, k - 1) <= gap_end(s, more_starts, k - 1));
                assert(gap_start(n, ends, k) == gap_start(n + len, more_ends, k - 1));
                assert(gap_end(s, starts, k) == gap_end(s, more_starts, k - 1));
            }
        }
        (starts, ends)
    }
}

/// A document is cut into its tags and texts, in their order, and nothing but whitespace is left
/// out: a tag reaches from its `<` to the first `>` outside quotes, a text from its first byte to the
/// last one before the next `<`, whitespace around it taken off.
pub proof fn law_xml_pieces(s: Seq<u8>) -> (r: (Seq<int>, Seq<int>))
    ensures
        is_cut(s, 0, xml_pieces(s), r.0, r.1),
{
    assert(s.skip(0) =~= s);
    lemma_cut(s, 0)
}

/// A tag that closes an element.
pub open spec fn closes_element(p: XmlPiece) -> bool {
    p.tag && p.content.len() >= 2 && p.content[1] == 0x2f
}

/// A tag that is a declaration, a comment or a processing instruction.
pub open spec fn declares(c: Seq<u8>) -> bool {
    c.len() >= 2 && (c[1] == 0x21 || c[1] == 0x3f)
}

/// The byte `j` of a tag is a slash with nothing but whitespace, and the final `>`, behind it.
pub open spec fn ending_slash(c: Seq<u8>, j: int) -> bool {
    &&& 1 <= j < c.len()
    &&& c[j] == 0x2f
    &&& forall|x: int|
        j < x < c.len() ==> xml_blank(#[trigger] c[x]) || (x == c.len() - 1 && c[x] == 0x3e)
}

/// A tag that opens an element, which is still open behind it.
pub open spec fn opens_element(p: XmlPiece) -> bool {
    p.tag && !closes_element(p) && !declares(p.content) && !exists|j: int|
        ending_slash(p.content, j)
}

/// How many elements are open before the piece `k`; a closing tag with none open closes nothing.
pub open spec fn elements_open(p: Seq<XmlPiece>, k: int) -> nat
    decreases k,
{
    if k <= 0 {
        0
    } else {
        let before = elements_open(p, k - 1);
        if closes_element(p[k - 1]) {
            if before > 0 {
                (before - 1) as nat
            } else {
                0
            }
        } else if opens_element(p[k - 1]) {
            before + 1
        } else {
            before
        }
    }
}

/// How deep the line of the piece `k` stands: as many elements as are open around it, a closing tag
/// standing as deep as its opening tag.
pub open spec fn line_level(p: Seq<XmlPiece>, k: int) -> nat {
    let before = elements_open(p, k);
    if closes_element(p[k]) && before > 0 {
        (before - 1) as nat
    } else {
        before
    }
}

/// The bytes that end a name.
pub open spec fn name_stop(b: u8) -> bool {
    xml_blank(b) || b == 0x2f || b == 0x3e || b == 0x3f
}

/// The first name of the tag `c` behind its byte `from` and whitespace stands from `i` up to `j`.
pub open spec fn name_span(c: Seq<u8>, from: int, i: int, j: int) -> bool {
    &&& from <= i <= j <= c.len()
    &&& all_blank(c, from, i)
    &&& i < c.len() ==> !xml_blank(c[i])
    &&& forall|x: int| i <= x < j ==> !name_stop(#[trigger] c[x])
    &&& j < c.len() ==> name_stop(c[j])
}

/// An opening tag and a closing tag carry the same name, and have one.
pub open spec fn same_name(open: Seq<u8>, close: Seq<u8>) -> bool {
    &&& open.len() > 2
    &&& close.len() > 2
    &&& exists|i: int, j: int, x: int, y: int|
        i < j && #[trigger] name_span(open, 1, i, j) && #[trigger] name_span(close, 2, x, y)
            && open.subrange(i, j) == close.subrange(x, y)
}

/// The pieces from `k` on are an element that holds nothing but text: it stands on one line.
pub open spec fn on_one_line(p: Seq<XmlPiece>, k: int) -> bool {
    &&& 0 <= k && k + 2 < p.len()
    &&& opens_element(p[k])
    &&& !p[k + 1].tag
    &&& closes_element(p[k + 2])
    &&& same_name(p[k].content, p[k + 2].content)
}

/// The pieces that start a line, from `k` on.
pub open spec fn line_heads(p: Seq<XmlPiece>, k: int) -> Seq<int>
    decreases p.len() - k,
{
    if k < 0 || k >= p.len() {
        Seq::empty()
    } else {
        seq![k] + line_heads(
            p,
            if on_one_line(p, k) {
                k + 3
            } else {
                k + 1
            },
        )
    }
}

/// How many columns a line of the level `level` is indented by: two for each level, as far as a
/// `usize` counts.
pub open spec fn line_indentation(level: nat) -> nat {
    if 2 * level <= usize::MAX {
        2 * level
    } else {
        usize::MAX as nat
    }
}

/// What the line shows that the piece `k` starts.
pub open spec fn line_content(p: Seq<XmlPiece>, k: int) -> Seq<u8> {
    if on_one_line(p, k) {
        p[k].content + p[k + 1].content + p[k + 2].content
    } else {
        p[k].content
    }
}

/// The line that the piece `k` starts: its indentation and what it shows.
pub open spec fn line_of_piece(p: Seq<XmlPiece>, k: int) -> Seq<u8> {
    Seq::new(line_indentation(line_level(p, k)), |x: int| 0x20u8) + line_content(p, k)
}

pub(crate) proof fn lemma_self_closing(c: Seq<u8>)
    requires
        c.len() > 0,
        !declares(c),
    ensures
        self_closing_tag(c) <==> exists|j: int| ending_slash(c, j),
{
    let body = tag_body(c);
    let short = trim_end(body);
    lemma_trim_end_len(body);
    lemma_trimmed_blank(body);
    assert forall|x: int| 0 <= x < body.len() implies body[x] == #[trigger] c[x + 1] by {}
    if short.len() > 0 && short.last() == 0x2f {
        let j = short.len() as int;
        assert(short.last() == body[j - 1]);
        assert(c[j] == 0x2f);
        assert forall|x: int| j < x < c.len() implies xml_blank(#[trigger] c[x]) || (x == c.len()
            - 1 && c[x] == 0x3e) by {
            if x - 1 < body.len() {
                assert(body[x - 1] == c[x]);
                assert(ascii_space(body[x - 1]));
            }
        }
        assert(ending_slash(c, j));
    }
    if exists|j: int| ending_slash(c, j) {
        let j = choose|j: int| ending_slash(c, j);
        assert(c[j] == 0x2f);
        assert(j - 1 < body.len());
        assert(body[j - 1] == c[j]);
        if short.len() < j {
            assert(ascii_space(body[j - 1]));
        }
        assert(short.len() >= j);
        if short.len() > j {
            let x = short.len() as int;
            assert(short.last() == body[x - 1]);
            assert(body[x - 1] == c[x]);
        }
        assert(short.len() == j);
        assert(short.last() == body[j - 1]);
    }
}

proof fn lemma_kinds(p: XmlPiece)
    requires
        p.tag ==> p.content.len() > 0,
    ensures
        closes_element(p) <==> p.tag && closing_tag(p.content),
        opens_element(p) <==> p.tag && opening_tag(p.content) && !self_closing_tag(p.content),
{
    if p.tag && !declares(p.content) {
        lemma_self_closing(p.content);
    }
}

proof fn lemma_leading_name(c: Seq<u8>, i: int, j: int)
    requires
        0 <= i <= j <= c.len(),
        forall|x: int| i <= x < j ==> !name_stop(#[trigger] c[x]),
        j < c.len() ==> name_stop(c[j]),
    ensures
        leading_name(c.skip(i)) == c.subrange(i, j),
    decreases j - i,
{
    let rest = c.skip(i);
    if i < j {
        assert(rest[0] == c[i]);
        assert(rest.skip(1) =~= c.skip(i + 1));
        lemma_leading_name(c, i + 1, j);
        assert(c.subrange(i, j) =~= seq![c[i]] + c.subrange(i + 1, j));
    } else {
        if rest.len() > 0 {
            assert(rest[0] == c[i]);
        }
        assert(c.subrange(i, j) =~= Seq::<u8>::empty());
    }
}

proof fn lemma_skip_blank(c: Seq<u8>, from: int, i: int)
    requires
        0 <= from <= i <= c.len(),
        all_blank(c, from, i),
        i < c.len() ==> !xml_blank(c[i]),
    ensures
        trim_start(c.skip(from)) == c.skip(i),
    decreases i - from,
{
    let rest = c.skip(from);
    if from < i {
        assert(rest[0] == c[from]);
        assert(rest.skip(1) =~= c.skip(from + 1));
        lemma_skip_blank(c, from + 1, i);
    } else if rest.len() > 0 {
        assert(rest[0] == c[from]);
    }
}

/// The name of a tag is what stands in its name's place.
pub(crate) proof fn lemma_name(c: Seq<u8>, closing: bool, i: int, j: int)
    requires
        c.len() > 2,
        name_span(
            c,
            if closing && c[1] == 0x2f {
                2
            } else {
                1
            },
            i,
            j,
        ),
    ensures
        tag_name(c, closing) == c.subrange(i, j),
{
    let from: int = if closing && c[1] == 0x2f {
        2
    } else {
        1
    };
    lemma_skip_blank(c, from, i);
    lemma_leading_name(c, i, j);
}

/// Every tag has a place for its name.
proof fn lemma_name_place(c: Seq<u8>, from: int, i: int, j: int, found: bool) -> (r: (int, int))
    requires
        0 <= from <= i <= j <= c.len(),
        all_blank(c, from, i),
        !found ==> i == j,
        found && i < c.len() ==> !xml_blank(c[i]),
        forall|x: int| i <= x < j ==> !name_stop(#[trigger] c[x]),
    ensures
        name_span(c, from, r.0, r.1),
    decreases c.len() - j, !found as int,
{
    if j == c.len() {
        (i, j)
    } else if !found {
        if xml_blank(c[i]) {
            lemma_name_place(c, from, i + 1, i + 1, false)
        } else {
            lemma_name_place(c, from, i, i, true)
        }
    } else if name_stop(c[j]) {
        (i, j)
    } else {
        lemma_name_place(c, from, i, j + 1, true)
    }
}

proof fn lemma_same_name(open: Seq<u8>, close: Seq<u8>)
    requires
        close.len() > 1 ==> close[1] == 0x2f,
    ensures
        names_match(open, close) <==> same_name(open, close),
{
    if open.len() > 2 && close.len() > 2 {
        let (i, j) = lemma_name_place(open, 1, 1, 1, false);
        let (x, y) = lemma_name_place(close, 2, 2, 2, false);
        lemma_name(open, false, i, j);
        lemma_name(close, true, x, y);
        if names_match(open, close) {
            assert(i < j && name_span(open, 1, i, j) && name_span(close, 2, x, y));
        }
        if same_name(open, close) {
            let (i2, j2, x2, y2) = choose|i: int, j: int, x: int, y: int|
                i < j && #[trigger] name_span(open, 1, i, j) && #[trigger] name_span(close, 2, x, y)
                    && open.subrange(i, j) == close.subrange(x, y);
            lemma_name(open, false, i2, j2);
            lemma_name(close, true, x2, y2);
        }
    }
}

proof fn lemma_one_line(p: Seq<XmlPiece>, k: int)
    requires
        0 <= k < p.len(),
        forall|m: int| 0 <= m < p.len() && (#[trigger] p[m]).tag ==> p[m].content.len() > 0,
    ensures
        text_element(p.skip(k)) <==> on_one_line(p, k),
{
    let q = p.skip(k);
    assert(q[0] == p[k]);
    lemma_kinds(p[k]);
    if k + 2 < p.len() {
        assert(q[1] == p[k + 1] && q[2] == p[k + 2]);
        lemma_kinds(p[k + 2]);
        if closing_tag(p[k + 2].content) {
            lemma_same_name(p[k].content, p[k + 2].content);
        }
    }
}

proof fn lemma_lines(p: Seq<XmlPiece>, k: int)
    requires
        0 <= k <= p.len(),
        forall|m: int| 0 <= m < p.len() && (#[trigger] p[m]).tag ==> p[m].content.len() > 0,
    ensures
        ({
            let lines = xml_lines(p.skip(k), elements_open(p, k));
            let heads = line_heads(p, k);
            &&& lines.len() == heads.len()
            &&& forall|l: int| 0 <= l < heads.len() ==> k <= #[trigger] heads[l] < p.len()
            &&& forall|l: int|
                0 <= l < heads.len() ==> #[trigger] lines[l] == line_of_piece(p, heads[l])
        }),
    decreases p.len() - k,
{
    if k < p.len() {
        let q = p.skip(k);
        let depth = elements_open(p, k);
        let lines = xml_lines(q, depth);
        let heads = line_heads(p, k);
        assert(q[0] == p[k]);
        lemma_one_line(p, k);
        lemma_kinds(p[k]);
        let (next, head) = if on_one_line(p, k) {
            assert(q[1] == p[k + 1] && q[2] == p[k + 2]);
            assert(q.skip(3) =~= p.skip(k + 3));
            assert(elements_open(p, k + 1) == depth + 1);
            assert(elements_open(p, k + 2) == depth + 1);
            assert(elements_open(p, k + 3) == depth);
            (k + 3, indent(depth) + (q[0].content + q[1].content + q[2].content))
        } else {
            assert(q.skip(1) =~= p.skip(k + 1));
            assert(elements_open(p, k + 1) == depth_after(p[k], depth));
            (k + 1, indent(line_depth(q[0], depth)) + q[0].content)
        };
        lemma_lines(p, next);
        let more = xml_lines(p.skip(next), elements_open(p, next));
        assert(lines == seq![head] + more);
        assert(heads == seq![k] + line_heads(p, next));
        assert(line_level(p, k) == if on_one_line(p, k) {
            depth
        } else {
            line_depth(p[k], depth)
        });
        assert(indent(line_level(p, k)) =~= Seq::new(
            line_indentation(line_level(p, k)),
            |x: int| 0x20u8,
        ));
        assert(head =~= line_of_piece(p, k));
        assert forall|l: int| 0 <= l < heads.len() implies k <= #[trigger] heads[l] < p.len() by {
            if l > 0 {
                assert(heads[l] == line_heads(p, next)[l - 1]);
            }
        }
        assert forall|l: int| 0 <= l < heads.len() implies #[trigger] lines[l] == line_of_piece(
            p,
            heads[l],
        ) by {
            if l > 0 {
                assert(lines[l] == more[l - 1]);
                assert(heads[l] == line_heads(p, next)[l - 1]);
            } else {
                assert(lines[0] == head);
                assert(heads[0] == k);
            }
        }
        assert(lines.len() == heads.len());
    } else {
        assert(p.skip(k).len() == 0);
    }
}

/// Where the line `l` starts, each line before it taking its bytes and a line feed.
pub open spec fn line_place(p: Seq<XmlPiece>, l: int) -> int
    decreases l,
{
    if l <= 0 {
        0
    } else {
        line_place(p, l - 1) + line_of_piece(p, line_heads(p, 0)[l - 1]).len() + 1
    }
}

proof fn lemma_joined(lines: Seq<Seq<u8>>, m: int, t: Seq<u8>, at: int, p: Seq<XmlPiece>)
    requires
        0 <= m <= lines.len(),
        0 <= at <= t.len(),
        t.skip(at) == with_line_feeds(lines.skip(m)),
        at == line_place(p, m),
        lines.len() == line_heads(p, 0).len(),
        forall|l: int|
            0 <= l < lines.len() ==> #[trigger] lines[l] == line_of_piece(p, line_heads(p, 0)[l]),
    ensures
        forall|l: int|
            m <= l < lines.len() ==> {
                let from = #[trigger] line_place(p, l);
                &&& 0 <= from && from + lines[l].len() < t.len()
                &&& t.subrange(from, from + lines[l].len()) == lines[l]
                &&& t[from + lines[l].len()] == 0x0a
            },
        line_place(p, lines.len() as int) == t.len(),
    decreases lines.len() - m,
{
    let rest = lines.skip(m);
    if m < lines.len() {
        assert(rest[0] == lines[m]);
        assert(rest.skip(1) =~= lines.skip(m + 1));
        let n = lines[m].len() as int;
        let tail = with_line_feeds(rest.skip(1));
        assert(t.skip(at) == lines[m].push(0x0a) + tail);
        assert(t.skip(at).len() == t.len() - at);
        assert(t.skip(at + n + 1) =~= t.skip(at).skip(n + 1));
        assert(t.skip(at).skip(n + 1) =~= tail);
        assert(t.subrange(at, at + n) =~= t.skip(at).take(n));
        assert(t.skip(at).take(n) =~= lines[m]);
        assert(t.skip(at)[n] == t[at + n]);
        assert(line_place(p, m + 1) == at + n + 1);
        lemma_joined(lines, m + 1, t, at + n + 1, p);
    } else {
        assert(rest.len() == 0);
        assert(t.skip(at).len() == t.len() - at);
    }
}

proof fn lemma_tags_nonempty(s: Seq<u8>)
    ensures
        forall|m: int|
            0 <= m < xml_pieces(s).len() && (#[trigger] xml_pieces(s)[m]).tag
                ==> xml_pieces(s)[m].content.len() > 0,
{
    let (starts, ends) = law_xml_pieces(s);
    assert forall|m: int|
        0 <= m < xml_pieces(s).len() && (#[trigger] xml_pieces(s)[m]).tag implies xml_pieces(
        s,
    )[m].content.len() > 0 by {
        assert(is_piece(s, starts[m], ends[m], xml_pieces(s)[m]));
    }
}

/// The line `l` of a pretty-printed document stands where the lines before it end: it is indented by
/// two columns for each element that is open around it and shows the tag or text, or the element
/// that holds nothing but text, that starts it; a line feed stands between two lines.
pub proof fn law_xml_line(s: Seq<u8>, l: int)
    requires
        0 <= l < line_heads(xml_pieces(s), 0).len(),
    ensures
        ({
            let p = xml_pieces(s);
            let t = formatted_xml(s);
            let line = line_of_piece(p, line_heads(p, 0)[l]);
            let from = line_place(p, l);
            &&& 0 <= line_heads(p, 0)[l] < p.len()
            &&& 0 <= from && from + line.len() <= t.len()
            &&& t.subrange(from, from + line.len()) == line
            &&& l + 1 < line_heads(p, 0).len() ==> from + line.len() < t.len() && t[from
                + line.len()] == 0x0a
            &&& l + 1 == line_heads(p, 0).len() ==> from + line.len() == t.len()
        }),
{
    let p = xml_pieces(s);
    let heads = line_heads(p, 0);
    let lines = xml_lines(p, 0);
    lemma_tags_nonempty(s);
    lemma_lines(p, 0);
    assert(p.skip(0) =~= p);
    let whole = with_line_feeds(lines);
    let t = formatted_xml(s);
    assert(whole.skip(0) =~= whole);
    assert(lines.skip(0) =~= lines);
    lemma_joined(lines, 0, whole, 0, p);
    let from = line_place(p, l);
    assert(lines[l] == line_of_piece(p, heads[l]));
    let n = lines[l].len() as int;
    lemma_places_rise(p, l + 1, heads.len() as int);
    assert(line_place(p, l + 1) == from + n + 1);
    assert(t =~= whole.drop_last());
    assert(t.subrange(from, from + n) =~= whole.subrange(from, from + n));
    if l + 1 < heads.len() {
        lemma_places_rise(p, l + 2, heads.len() as int);
        assert(line_place(p, l + 2) > line_place(p, l + 1));
    }
}

proof fn lemma_places_rise(p: Seq<XmlPiece>, a: int, b: int)
    requires
        0 <= a <= b,
    ensures
        line_place(p, a) <= line_place(p, b),
    decreases b - a,
{
    if a < b {
        lemma_places_rise(p, a, b - 1);
    }
}

/// A document without tags and texts is shown as one line feed.
pub proof fn law_xml_nothing_to_show(s: Seq<u8>)
    requires
        all_blank(s, 0, s.len() as int),
    ensures
        formatted_xml(s) == seq![0x0au8],
{
    let (starts, ends) = law_xml_pieces(s);
    let p = xml_pieces(s);
    if p.len() > 0 {
        assert(is_piece(s, starts[0], ends[0], p[0]));
        assert(xml_blank(s[starts[0]]));
    }
    assert(xml_lines(p, 0).len() == 0);
}

/// By how much the pieces from `a` up to `b` open more elements than they close.
pub open spec fn opened_between(p: Seq<XmlPiece>, a: int, b: int) -> int
    decreases b - a,
{
    if b <= a {
        0
    } else if closes_element(p[b - 1]) {
        opened_between(p, a, b - 1) - 1
    } else if opens_element(p[b - 1]) {
        opened_between(p, a, b - 1) + 1
    } else {
        opened_between(p, a, b - 1)
    }
}

proof fn lemma_open_inside(p: Seq<XmlPiece>, k: int, m: int)
    requires
        0 <= k < m,
        opens_element(p[k]),
        forall|j: int| k < j <= m ==> #[trigger] opened_between(p, k + 1, j) >= 0,
    ensures
        elements_open(p, m) == elements_open(p, k) + 1 + opened_between(p, k + 1, m),
    decreases m - k,
{
    if m > k + 1 {
        lemma_open_inside(p, k, m - 1);
        assert(opened_between(p, k + 1, m) >= 0);
        assert(opened_between(p, k + 1, m - 1) >= 0);
    }
}

/// A closing tag stands as deep as the opening tag that it belongs to, and everything between them
/// stands deeper.
pub proof fn law_xml_nesting(p: Seq<XmlPiece>, k: int, m: int)
    requires
        0 <= k < m < p.len(),
        opens_element(p[k]),
        closes_element(p[m]),
        forall|j: int| k < j <= m ==> #[trigger] opened_between(p, k + 1, j) >= 0,
        opened_between(p, k + 1, m) == 0,
    ensures
        line_level(p, m) == line_level(p, k),
        forall|j: int| k < j < m ==> #[trigger] line_level(p, j) >= line_level(p, k) + 1,
{
    lemma_open_inside(p, k, m);
    assert forall|j: int| k < j < m implies #[trigger] line_level(p, j) >= line_level(p, k) + 1 by {
        assert(opened_between(p, k + 1, j) >= 0);
        assert(opened_between(p, k + 1, j + 1) >= 0);
        lemma_open_inside(p, k, j);
    }
}

} // verus!
