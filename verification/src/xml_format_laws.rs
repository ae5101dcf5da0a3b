//! What pretty-printing XML keeps.
use vstd::prelude::*;

use crate::text::{ascii_space, indent};
use crate::xml_format::{
    depth_after, formatted_xml, lemma_tag_rest_len, lemma_text_len, lemma_trim_end_len, line_depth,
    piece_len, tag_rest_len, text_element, text_len, trim_end, with_line_feeds, xml_lines,
    xml_pieces, XmlPiece,
};

verus! {

/// Text with nothing to trim and no tag in it.
spec fn plain_text(c: Seq<u8>) -> bool {
    &&& c.len() > 0
    &&& !ascii_space(c[0])
    &&& !ascii_space(c.last())
    &&& forall|i: int| 0 <= i < c.len() ==> c[i] != 0x3c
}

/// A tag that ends with its last byte whatever follows it.
spec fn closed_tag(c: Seq<u8>) -> bool {
    forall|t: Seq<u8>| #[trigger] tag_rest_len(c.skip(1) + t, None) == c.len() - 1
}

/// Pieces that a document can have: text is never followed by text, and only the last tag may lack
/// its end.
spec fn well_cut(p: Seq<XmlPiece>) -> bool
    decreases p.len(),
{
    p.len() == 0 || {
        let c = p[0].content;
        &&& p[0].tag ==> c.len() > 0 && c[0] == 0x3c && tag_rest_len(c.skip(1), None) == c.len() - 1
        &&& p[0].tag && p.len() > 1 ==> closed_tag(c)
        &&& !p[0].tag ==> plain_text(c)
        &&& !p[0].tag && p.len() > 1 ==> p[1].tag
        &&& well_cut(p.skip(1))
    }
}

/// The lines of the pieces `p` with line feeds between them.
spec fn shown(p: Seq<XmlPiece>, depth: nat) -> Seq<u8> {
    with_line_feeds(xml_lines(p, depth)).drop_last()
}

proof fn lemma_tag_rest_prefix(s: Seq<u8>, quote: Option<u8>, t: Seq<u8>)
    requires
        tag_rest_len(s, quote) < s.len(),
    ensures
        tag_rest_len(s.take(tag_rest_len(s, quote) as int) + t, quote) == tag_rest_len(s, quote),
    decreases s.len(),
{
    let n = tag_rest_len(s, quote);
    let u = s.take(n as int) + t;
    lemma_tag_rest_len(s, quote);
    assert(u[0] == s[0]);
    let next = match quote {
        Some(q) => if s[0] == q {
            None
        } else {
            quote
        },
        None => if s[0] == 0x22 || s[0] == 0x27 {
            Some(s[0])
        } else {
            None
        },
    };
    if quote is None && s[0] == 0x3e {
    } else {
        assert(n == 1 + tag_rest_len(s.skip(1), next));
        lemma_tag_rest_prefix(s.skip(1), next, t);
        assert(u.skip(1) =~= s.skip(1).take(n - 1) + t);
    }
}

proof fn lemma_pieces_well_cut(s: Seq<u8>)
    ensures
        well_cut(xml_pieces(s)),
        s.len() > 0 && s[0] == 0x3c ==> xml_pieces(s).len() > 0 && xml_pieces(s)[0].tag,
    decreases s.len(),
{
    if s.len() == 0 {
    } else if ascii_space(s[0]) {
        lemma_pieces_well_cut(s.skip(1));
    } else {
        let n = piece_len(s) as int;
        lemma_tag_rest_len(s.skip(1), None);
        lemma_text_len(s);
        let rest = s.skip(n);
        lemma_pieces_well_cut(rest);
        let p = xml_pieces(s);
        assert(p.skip(1) =~= xml_pieces(rest));
        let c = p[0].content;
        if s[0] == 0x3c {
            assert(c.skip(1) =~= s.skip(1).take(n - 1));
            if n == s.len() {
                assert(c =~= s);
                assert(rest =~= Seq::<u8>::empty());
            } else {
                assert forall|t: Seq<u8>| #[trigger]
                    tag_rest_len(c.skip(1) + t, None) == c.len() - 1 by {
                    lemma_tag_rest_prefix(s.skip(1), None, t);
                }
                assert(c.skip(1) + Seq::<u8>::empty() =~= c.skip(1));
            }
        } else {
            lemma_trim_end_len(s.take(n));
            if n < s.len() {
                assert(rest[0] == s[n]);
            } else {
                assert(rest =~= Seq::<u8>::empty());
            }
        }
    }
}

/// Whitespace before a document adds no piece.
proof fn lemma_leading_space(sp: Seq<u8>, x: Seq<u8>)
    requires
        forall|i: int| 0 <= i < sp.len() ==> ascii_space(sp[i]),
    ensures
        xml_pieces(sp + x) == xml_pieces(x),
    decreases sp.len(),
{
    if sp.len() == 0 {
        assert(sp + x =~= x);
    } else {
        assert((sp + x).skip(1) =~= sp.skip(1) + x);
        lemma_leading_space(sp.skip(1), x);
    }
}

proof fn lemma_head_tag(c: Seq<u8>, w: Seq<u8>)
    requires
        c.len() > 0,
        c[0] == 0x3c,
        tag_rest_len(c.skip(1) + w, None) == c.len() - 1,
    ensures
        xml_pieces(c + w) == seq![XmlPiece { tag: true, content: c }] + xml_pieces(w),
{
    let s = c + w;
    assert(s.skip(1) =~= c.skip(1) + w);
    assert(s.take(c.len() as int) =~= c);
    assert(s.skip(c.len() as int) =~= w);
    assert(!ascii_space(s[0]));
}

proof fn lemma_text_then(c: Seq<u8>, w: Seq<u8>)
    requires
        forall|i: int| 0 <= i < c.len() ==> c[i] != 0x3c,
    ensures
        text_len(c + w) == c.len() + text_len(w),
    decreases c.len(),
{
    if c.len() == 0 {
        assert(c + w =~= w);
    } else {
        assert((c + w)[0] == c[0]);
        assert((c + w).skip(1) =~= c.skip(1) + w);
        lemma_text_then(c.skip(1), w);
    }
}

proof fn lemma_trim_end_of(c: Seq<u8>, sp: Seq<u8>)
    requires
        c.len() > 0,
        !ascii_space(c.last()),
        forall|i: int| 0 <= i < sp.len() ==> ascii_space(sp[i]),
    ensures
        trim_end(c + sp) == c,
    decreases sp.len(),
{
    if sp.len() == 0 {
        assert(c + sp =~= c);
    } else {
        assert((c + sp).last() == sp.last());
        assert((c + sp).drop_last() =~= c + sp.drop_last());
        lemma_trim_end_of(c, sp.drop_last());
    }
}

proof fn lemma_head_text(c: Seq<u8>, sp: Seq<u8>, x: Seq<u8>)
    requires
        plain_text(c),
        forall|i: int| 0 <= i < sp.len() ==> ascii_space(sp[i]),
        x.len() > 0 ==> x[0] == 0x3c,
    ensures
        xml_pieces(c + (sp + x)) == seq![XmlPiece { tag: false, content: c }] + xml_pieces(sp + x),
{
    let s = c + (sp + x);
    lemma_text_then(sp, x);
    lemma_text_then(c, sp + x);
    let n = c.len() + sp.len();
    assert(text_len(s) == n);
    assert(s.take(n as int) =~= c + sp);
    assert(s.skip(n as int) =~= x);
    lemma_trim_end_of(c, sp);
    lemma_leading_space(sp, x);
    assert(s[0] == c[0]);
}

proof fn lemma_shown_head(line: Seq<u8>, lines: Seq<Seq<u8>>)
    ensures
        lines.len() == 0 ==> with_line_feeds(seq![line] + lines).drop_last() == line,
        lines.len() > 0 ==> with_line_feeds(lines).len() > 0,
        lines.len() > 0 ==> with_line_feeds(seq![line] + lines).drop_last() == line + (seq![0x0au8]
            + with_line_feeds(lines).drop_last()),
{
    let all = seq![line] + lines;
    assert(all.skip(1) =~= lines);
    if lines.len() == 0 {
        assert(with_line_feeds(lines) =~= Seq::<u8>::empty());
        assert(with_line_feeds(all) =~= line.push(0x0a));
        assert(with_line_feeds(all).drop_last() =~= line);
    } else {
        assert(with_line_feeds(all).drop_last() =~= line + (seq![0x0au8] + with_line_feeds(
            lines,
        ).drop_last()));
    }
}

/// A line that starts with a tag starts, behind its indentation, with `<`.
proof fn lemma_shown_tag(p: Seq<XmlPiece>, depth: nat) -> (r: (Seq<u8>, Seq<u8>))
    requires
        well_cut(p),
        p.len() > 0,
        p[0].tag,
    ensures
        shown(p, depth) == r.0 + r.1,
        forall|i: int| 0 <= i < r.0.len() ==> ascii_space(r.0[i]),
        r.1.len() > 0 && r.1[0] == 0x3c,
{
    let lines = xml_lines(p, depth);
    let rest = lines.skip(1);
    lemma_shown_head(lines[0], rest);
    assert(lines =~= seq![lines[0]] + rest);
    let sp = if text_element(p) {
        indent(depth)
    } else {
        indent(line_depth(p[0], depth))
    };
    let x = shown(p, depth).skip(sp.len() as int);
    assert(shown(p, depth) =~= sp + x);
    assert(x[0] == p[0].content[0]);
    (sp, x)
}

/// The pieces of the lines that show `p` are `p` again.
proof fn lemma_shown_pieces(p: Seq<XmlPiece>, depth: nat)
    requires
        well_cut(p),
        p.len() > 0,
    ensures
        xml_pieces(shown(p, depth)) == p,
    decreases p.len(),
{
    let feed = seq![0x0au8];
    let none = Seq::<u8>::empty();
    assert(feed + none =~= feed);
    let lines = xml_lines(p, depth);
    assert(lines =~= seq![lines[0]] + lines.skip(1));
    lemma_shown_head(lines[0], lines.skip(1));
    if text_element(p) {
        reveal_with_fuel(well_cut, 4);
        let sp = indent(depth);
        let (c0, c1, c2) = (p[0].content, p[1].content, p[2].content);
        assert(p.skip(1)[0] == p[1] && p.skip(1).skip(1) =~= p.skip(2) && p.skip(2)[0] == p[2]
            && p.skip(2).skip(1) =~= p.skip(3));
        let q = p.skip(3);
        assert(lines.skip(1) =~= xml_lines(q, depth));
        let w = if q.len() == 0 {
            none
        } else {
            feed + shown(q, depth)
        };
        if q.len() == 0 {
            assert(c2.skip(1) + w =~= c2.skip(1));
            assert(xml_pieces(w) =~= q);
        } else {
            lemma_shown_pieces(q, depth);
            lemma_leading_space(feed, shown(q, depth));
            assert(xml_lines(q, depth).len() > 0);
        }
        assert(shown(p, depth) =~= sp + (c0 + (c1 + (none + (c2 + w)))));
        lemma_leading_space(sp, c0 + (c1 + (none + (c2 + w))));
        lemma_head_tag(c0, c1 + (none + (c2 + w)));
        lemma_head_text(c1, none, c2 + w);
        assert(none + (c2 + w) =~= c2 + w);
        lemma_head_tag(c2, w);
        assert(p =~= seq![p[0]] + (seq![p[1]] + (seq![p[2]] + q)));
    } else {
        let sp = indent(line_depth(p[0], depth));
        let c = p[0].content;
        let q = p.skip(1);
        let d = depth_after(p[0], depth);
        assert(lines.skip(1) =~= xml_lines(q, d));
        assert(p =~= seq![p[0]] + q);
        if q.len() == 0 {
            assert(shown(p, depth) =~= sp + (c + (none + none)));
            lemma_leading_space(sp, c + (none + none));
            assert(xml_pieces(none + none) =~= q);
            if p[0].tag {
                assert(c.skip(1) + (none + none) =~= c.skip(1));
                lemma_head_tag(c, none + none);
            } else {
                lemma_head_text(c, none, none);
            }
        } else {
            let w = feed + shown(q, d);
            assert(xml_lines(q, d).len() > 0);
            assert(shown(p, depth) =~= sp + (c + w));
            lemma_shown_pieces(q, d);
            lemma_leading_space(feed, shown(q, d));
            lemma_leading_space(sp, c + w);
            if p[0].tag {
                lemma_head_tag(c, w);
            } else {
                assert(q[0] == p[1]);
                let (sp2, x) = lemma_shown_tag(q, d);
                assert(w =~= (feed + sp2) + x);
                lemma_head_text(c, feed + sp2, x);
            }
        }
    }
}

proof fn lemma_some_line(p: Seq<XmlPiece>, depth: nat)
    ensures
        xml_lines(p, depth).len() == 0 <==> p.len() == 0,
{
}

/// Pretty-printing keeps every tag and every text, in their order: only the whitespace
/// between them changes.
pub proof fn law_formatting_keeps_pieces(s: Seq<u8>)
    ensures
        xml_pieces(formatted_xml(s)) == xml_pieces(s),
{
    let p = xml_pieces(s);
    lemma_some_line(p, 0);
    lemma_pieces_well_cut(s);
    if p.len() == 0 {
        let feed = seq![0x0au8];
        assert(feed.skip(1) =~= Seq::<u8>::empty());
        assert(xml_pieces(feed.skip(1)) =~= p);
    } else {
        lemma_shown_pieces(p, 0);
    }
}

/// Pretty-printing a document that is already pretty-printed changes nothing.
pub proof fn law_formatting_xml_twice(s: Seq<u8>)
    ensures
        formatted_xml(formatted_xml(s)) == formatted_xml(s),
{
    law_formatting_keeps_pieces(s);
}

} // verus!
