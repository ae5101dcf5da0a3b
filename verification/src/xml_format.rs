//! Pretty-printing of XML into indented lines.
//!
//! A document is cut into pieces: tags, and the runs of text between them with the
//! whitespace around them taken off. Each piece gets a line of its own, indented by the number of
//! elements that are open around it; an element that holds nothing but text stays on one line.
use vstd::prelude::*;

use crate::text::{ascii_space, indent, is_ascii_space, push_indent};

verus! {

/// A tag or a run of text, found at `start..end` in the document.
#[derive(Clone, Copy)]
pub struct XmlDisplayToken {
    pub start: usize,
    pub end: usize,
    pub is_tag: bool,
    pub is_closing: bool,
    pub is_opening: bool,
    pub is_self_closing: bool,
}

/// A tag or a run of text, by its bytes.
#[verifier::ext_equal]
pub struct XmlPiece {
    pub tag: bool,
    pub content: Seq<u8>,
}

/// `s` without the whitespace it starts with.
pub open spec fn trim_start(s: Seq<u8>) -> Seq<u8>
    decreases s.len(),
{
    if s.len() > 0 && ascii_space(s[0]) {
        trim_start(s.skip(1))
    } else {
        s
    }
}

/// `s` without the whitespace it ends with.
pub open spec fn trim_end(s: Seq<u8>) -> Seq<u8>
    decreases s.len(),
{
    if s.len() > 0 && ascii_space(s.last()) {
        trim_end(s.drop_last())
    } else {
        s
    }
}

/// `s` without the whitespace around it.
pub open spec fn trim(s: Seq<u8>) -> Seq<u8> {
    trim_end(trim_start(s))
}

/// How many bytes of `s` still belong to a tag that was opened before it, where `quote` is the
/// quotation mark that is open: up to the first `>` outside quotes, or all of `s`.
pub open spec fn tag_rest_len(s: Seq<u8>, quote: Option<u8>) -> nat
    decreases s.len(),
{
    if s.len() == 0 {
        0
    } else {
        match quote {
            Some(q) => 1 + tag_rest_len(s.skip(1), if s[0] == q { None } else { quote }),
            None => if s[0] == 0x22 || s[0] == 0x27 {
                1 + tag_rest_len(s.skip(1), Some(s[0]))
            } else if s[0] == 0x3e {
                1
            } else {
                1 + tag_rest_len(s.skip(1), None)
            },
        }
    }
}

/// The length of the tag that `s` starts with.
pub open spec fn tag_len(s: Seq<u8>) -> nat {
    1 + tag_rest_len(s.skip(1), None)
}

/// The length of the text that `s` starts with: everything before the next `<`.
pub open spec fn text_len(s: Seq<u8>) -> nat
    decreases s.len(),
{
    if s.len() == 0 || s[0] == 0x3c {
        0
    } else {
        1 + text_len(s.skip(1))
    }
}

/// `</...`
pub open spec fn closing_tag(c: Seq<u8>) -> bool {
    c.len() > 1 && c[1] == 0x2f
}

/// `<!...` or `<?...`
pub open spec fn special_tag(c: Seq<u8>) -> bool {
    c.len() > 1 && (c[1] == 0x21 || c[1] == 0x3f)
}

/// A tag that is neither closing nor special.
pub open spec fn opening_tag(c: Seq<u8>) -> bool {
    !special_tag(c) && !closing_tag(c)
}

/// What stands between the `<` and the `>` of a tag.
pub open spec fn tag_body(c: Seq<u8>) -> Seq<u8> {
    if c.len() <= 1 {
        Seq::empty()
    } else if c.last() == 0x3e {
        c.subrange(1, c.len() - 1)
    } else {
        c.skip(1)
    }
}

/// A tag, not special, whose last byte before the `>` other than whitespace is a slash.
pub open spec fn self_closing_tag(c: Seq<u8>) -> bool {
    let body = trim_end(tag_body(c));
    !special_tag(c) && body.len() > 0 && body.last() == 0x2f
}

/// The bytes that end a tag's name.
pub open spec fn ends_name(b: u8) -> bool {
    ascii_space(b) || b == 0x2f || b == 0x3e || b == 0x3f
}

/// The name that `s` starts with.
pub open spec fn leading_name(s: Seq<u8>) -> Seq<u8>
    decreases s.len(),
{
    if s.len() == 0 || ends_name(s[0]) {
        Seq::empty()
    } else {
        seq![s[0]] + leading_name(s.skip(1))
    }
}

/// The name in the tag `c`; `closing` skips the slash of a closing tag. A tag of two bytes or fewer
/// has no name.
pub open spec fn tag_name(c: Seq<u8>, closing: bool) -> Seq<u8> {
    if c.len() <= 2 {
        Seq::empty()
    } else if closing && c[1] == 0x2f {
        leading_name(trim_start(c.skip(2)))
    } else {
        leading_name(trim_start(c.skip(1)))
    }
}

/// An opening tag's content and a closing tag's content that carry the same name.
pub open spec fn names_match(open: Seq<u8>, close: Seq<u8>) -> bool {
    tag_name(open, false).len() > 0 && tag_name(open, false) == tag_name(close, true)
}

/// How many bytes the piece takes that `s` starts with, `s` not starting with whitespace.
pub open spec fn piece_len(s: Seq<u8>) -> nat {
    if s[0] == 0x3c {
        tag_len(s)
    } else {
        text_len(s)
    }
}

/// The piece that `s` starts with, `s` not starting with whitespace.
pub open spec fn first_piece(s: Seq<u8>) -> XmlPiece {
    if s[0] == 0x3c {
        XmlPiece { tag: true, content: s.take(tag_len(s) as int) }
    } else {
        XmlPiece { tag: false, content: trim_end(s.take(text_len(s) as int)) }
    }
}

/// The pieces of a document.
pub open spec fn xml_pieces(s: Seq<u8>) -> Seq<XmlPiece>
    decreases s.len(),
{
    if s.len() == 0 {
        Seq::empty()
    } else if ascii_space(s[0]) {
        xml_pieces(s.skip(1))
    } else if 0 < piece_len(s) <= s.len() {
        seq![first_piece(s)] + xml_pieces(s.skip(piece_len(s) as int))
    } else {
        Seq::empty()
    }
}

/// An element that holds nothing but text stands at the head of `p`.
pub open spec fn text_element(p: Seq<XmlPiece>) -> bool {
    &&& p.len() >= 3
    &&& p[0].tag && opening_tag(p[0].content) && !self_closing_tag(p[0].content)
    &&& !p[1].tag
    &&& p[2].tag && closing_tag(p[2].content)
    &&& names_match(p[0].content, p[2].content)
}

/// How deep the line of the piece `p` stands, `depth` elements being open before it.
pub open spec fn line_depth(p: XmlPiece, depth: nat) -> nat {
    if p.tag && closing_tag(p.content) && depth > 0 {
        (depth - 1) as nat
    } else {
        depth
    }
}

/// How many elements are open after the piece `p`.
pub open spec fn depth_after(p: XmlPiece, depth: nat) -> nat {
    if p.tag && closing_tag(p.content) {
        line_depth(p, depth)
    } else if p.tag && opening_tag(p.content) && !self_closing_tag(p.content) {
        depth + 1
    } else {
        depth
    }
}

/// The lines that show the pieces `p`, `depth` elements being open before them.
pub open spec fn xml_lines(p: Seq<XmlPiece>, depth: nat) -> Seq<Seq<u8>>
    decreases p.len(),
{
    if p.len() == 0 {
        Seq::empty()
    } else if text_element(p) {
        seq![indent(depth) + (p[0].content + p[1].content + p[2].content)] + xml_lines(
            p.skip(3),
            depth,
        )
    } else {
        seq![indent(line_depth(p[0], depth)) + p[0].content] + xml_lines(
            p.skip(1),
            depth_after(p[0], depth),
        )
    }
}

/// The lines one after the other, each with a line feed behind it.
pub open spec fn with_line_feeds(lines: Seq<Seq<u8>>) -> Seq<u8>
    decreases lines.len(),
{
    if lines.len() == 0 {
        Seq::empty()
    } else {
        lines[0].push(0x0a) + with_line_feeds(lines.skip(1))
    }
}

/// A document as it is shown: its lines with line feeds between them, or a lone line feed where
/// it has no piece.
pub open spec fn formatted_xml(s: Seq<u8>) -> Seq<u8> {
    let lines = xml_lines(xml_pieces(s), 0);
    if lines.len() == 0 {
        seq![0x0au8]
    } else {
        with_line_feeds(lines).drop_last()
    }
}

pub(crate) proof fn lemma_tag_rest_len(s: Seq<u8>, quote: Option<u8>)
    ensures
        tag_rest_len(s, quote) <= s.len(),
        s.len() > 0 ==> tag_rest_len(s, quote) > 0,
    decreases s.len(),
{
    if s.len() > 0 {
        lemma_tag_rest_len(s.skip(1), None);
        lemma_tag_rest_len(s.skip(1), quote);
        lemma_tag_rest_len(s.skip(1), Some(s[0]));
    }
}

pub(crate) proof fn lemma_text_len(s: Seq<u8>)
    ensures
        text_len(s) <= s.len(),
        forall|i: int| 0 <= i < text_len(s) ==> s[i] != 0x3c,
        text_len(s) < s.len() ==> s[text_len(s) as int] == 0x3c,
    decreases s.len(),
{
    if s.len() > 0 && s[0] != 0x3c {
        lemma_text_len(s.skip(1));
        assert forall|i: int| 0 <= i < text_len(s) implies s[i] != 0x3c by {
            if i > 0 {
                assert(s[i] == s.skip(1)[i - 1]);
            }
        }
        if text_len(s) < s.len() {
            assert(s[text_len(s) as int] == s.skip(1)[text_len(s) - 1]);
        }
    }
}

pub(crate) proof fn lemma_trim_end_len(s: Seq<u8>)
    ensures
        trim_end(s).len() <= s.len(),
        trim_end(s) == s.take(trim_end(s).len() as int),
        trim_end(s).len() > 0 ==> !ascii_space(trim_end(s).last()),
        s.len() > 0 && !ascii_space(s[0]) ==> trim_end(s).len() > 0,
    decreases s.len(),
{
    if s.len() > 0 && ascii_space(s.last()) {
        lemma_trim_end_len(s.drop_last());
        assert(s.drop_last().take(trim_end(s).len() as int) =~= s.take(trim_end(s).len() as int));
        if !ascii_space(s[0]) {
            assert(s.drop_last().len() > 0);
        }
    } else {
        assert(s.take(s.len() as int) =~= s);
    }
}

pub(crate) proof fn lemma_trim_start_len(s: Seq<u8>)
    ensures
        trim_start(s).len() <= s.len(),
        trim_start(s) == s.skip(s.len() - trim_start(s).len()),
        trim_start(s).len() > 0 ==> !ascii_space(trim_start(s)[0]),
        forall|i: int| 0 <= i < s.len() - trim_start(s).len() ==> ascii_space(s[i]),
    decreases s.len(),
{
    if s.len() > 0 && ascii_space(s[0]) {
        lemma_trim_start_len(s.skip(1));
        let k = s.len() - trim_start(s).len();
        assert(s.skip(1).skip(k - 1) =~= s.skip(k));
        assert forall|i: int| 0 <= i < k implies ascii_space(s[i]) by {
            if i > 0 {
                assert(s[i] == s.skip(1)[i - 1]);
            }
        }
    } else {
        assert(s.skip(0) =~= s);
    }
}

/// The part of `bytes` without the whitespace around it.
pub fn trim_ascii_whitespace(bytes: &[u8]) -> (r: &[u8])
    ensures
        r@ == trim(bytes@),
{
    let mut start: usize = 0;
    let mut end: usize = bytes.len();
    proof {
        assert(bytes@.subrange(0, end as int) =~= bytes@);
    }
    while start < end && is_ascii_space(bytes[start])
        invariant
            start <= end == bytes@.len(),
            trim_start(bytes@) == trim_start(bytes@.subrange(start as int, end as int)),
        decreases end - start,
    {
        proof {
            assert(bytes@.subrange(start as int, end as int).skip(1) =~= bytes@.subrange(
                start + 1,
                end as int,
            ));
        }
        start = start + 1;
    }
    while end > start && is_ascii_space(bytes[end - 1])
        invariant
            start <= end <= bytes@.len(),
            trim(bytes@) == trim_end(bytes@.subrange(start as int, end as int)),
        decreases end - start,
    {
        proof {
            assert(bytes@.subrange(start as int, end as int).drop_last() =~= bytes@.subrange(
                start as int,
                end - 1,
            ));
        }
        end = end - 1;
    }
    &bytes[start..end]
}

/// Where `bytes[start..end]` lies without the whitespace around it; an empty range at `start` where
/// nothing else is in it.
pub fn trim_ascii_whitespace_range(bytes: &[u8], start: usize, end: usize) -> (r: (usize, usize))
    requires
        start <= end <= bytes@.len(),
    ensures
        ({
            let part = bytes@.subrange(start as int, end as int);
            let leading = part.len() - trim_start(part).len();
            if trim(part).len() == 0 {
                r == (start, start)
            } else {
                r.0 == start + leading && r.1 == r.0 + trim(part).len()
            }
        }),
        start <= r.0 <= r.1 <= end,
        bytes@.subrange(r.0 as int, r.1 as int) == trim(
            bytes@.subrange(start as int, end as int),
        ),
{
    let part = &bytes[start..end];
    let trimmed = trim_ascii_whitespace(part);
    proof {
        lemma_trim_start_len(part@);
        lemma_trim_end_len(trim_start(part@));
    }
    if trimmed.len() == 0 {
        proof {
            assert(bytes@.subrange(start as int, start as int) =~= trimmed@);
        }
        return (start, start);
    }
    let mut leading: usize = 0;
    while leading < part.len() && is_ascii_space(part[leading])
        invariant
            leading <= part@.len() - trim_start(part@).len(),
            trim_start(part@).len() > 0,
            trim_start(part@) == part@.skip(part@.len() - trim_start(part@).len()),
            !ascii_space(trim_start(part@)[0]),
        ensures
            leading < part@.len() && !ascii_space(part@[leading as int]),
            leading <= part@.len() - trim_start(part@).len(),
        decreases part.len() - leading,
    {
        proof {
            if leading == part@.len() - trim_start(part@).len() {
                assert(part@[leading as int] == trim_start(part@)[0]);
            }
        }
        leading = leading + 1;
    }
    proof {
        assert(leading == part@.len() - trim_start(part@).len());
        assert(bytes@.subrange(start + leading, start + leading + trimmed@.len()) =~= trimmed@);
    }
    (start + leading, start + leading + trimmed.len())
}

/// Appends one line: the indentation, the content and a line feed.
pub fn push_indented_xml_line(out: &mut Vec<u8>, depth: usize, content: &[u8])
    ensures
        final(out)@ == old(out)@ + (indent(depth as nat) + content@).push(0x0a),
{
    push_indent(out, depth);
    out.extend_from_slice(content);
    out.push(0x0a);
    proof {
        assert(out@ =~= old(out)@ + (indent(depth as nat) + content@).push(0x0a));
    }
}

/// The name in the tag at `start..end`; `closing` skips the slash of a closing tag. A range of two
/// bytes or fewer holds no name.
pub fn extract_tag_name(bytes: &[u8], start: usize, end: usize, closing: bool) -> (r: &[u8])
    requires
        start + 2 < end ==> end <= bytes@.len(),
    ensures
        start + 2 < end ==> r@ == tag_name(bytes@.subrange(start as int, end as int), closing),
        start + 2 >= end ==> r@ == Seq::<u8>::empty(),
{
    if end <= 2 || end - 2 <= start {
        proof {
            assert(bytes@.subrange(0, 0) =~= Seq::<u8>::empty());
        }
        return &bytes[0..0];
    }
    let ghost c = bytes@.subrange(start as int, end as int);
    let mut idx: usize = start + 1;
    if closing && bytes[idx] == 0x2f {
        idx = idx + 1;
    }
    proof {
        assert(c.skip(idx - start) =~= bytes@.subrange(idx as int, end as int));
    }
    while idx < end && is_ascii_space(bytes[idx])
        invariant
            start < idx <= end <= bytes@.len(),
            tag_name(c, closing) == leading_name(
                trim_start(bytes@.subrange(idx as int, end as int)),
            ),
        ensures
            start < idx <= end <= bytes@.len(),
            tag_name(c, closing) == leading_name(bytes@.subrange(idx as int, end as int)),
        decreases end - idx,
    {
        proof {
            assert(bytes@.subrange(idx as int, end as int).skip(1) =~= bytes@.subrange(
                idx + 1,
                end as int,
            ));
        }
        idx = idx + 1;
    }
    let name_start = idx;
    proof {
        assert(bytes@.subrange(name_start as int, idx as int) =~= Seq::<u8>::empty());
    }
    while idx < end && !is_ascii_space(bytes[idx]) && bytes[idx] != 0x2f && bytes[idx] != 0x3e
        && bytes[idx] != 0x3f
        invariant
            name_start <= idx <= end <= bytes@.len(),
            tag_name(c, closing) == bytes@.subrange(name_start as int, idx as int) + leading_name(
                bytes@.subrange(idx as int, end as int),
            ),
        decreases end - idx,
    {
        proof {
            let rest = bytes@.subrange(idx as int, end as int);
            assert(rest.skip(1) =~= bytes@.subrange(idx + 1, end as int));
            assert(bytes@.subrange(name_start as int, idx as int) + (seq![rest[0]] + leading_name(
                rest.skip(1),
            )) =~= bytes@.subrange(name_start as int, idx + 1) + leading_name(rest.skip(1)));
        }
        idx = idx + 1;
    }
    proof {
        assert(leading_name(bytes@.subrange(idx as int, end as int)) =~= Seq::<u8>::empty());
    }
    &bytes[name_start..idx]
}

/// Tells whether two names are equal byte for byte.
fn same_bytes(a: &[u8], b: &[u8]) -> (r: bool)
    ensures
        r == (a@ == b@),
{
    if a.len() != b.len() {
        return false;
    }
    let mut i: usize = 0;
    while i < a.len()
        invariant
            i <= a@.len() == b@.len(),
            forall|j: int| 0 <= j < i ==> a@[j] == b@[j],
        decreases a.len() - i,
    {
        if a[i] != b[i] {
            return false;
        }
        i = i + 1;
    }
    proof {
        assert(a@ =~= b@);
    }
    true
}

/// The bytes of the token `t` in `bytes`.
pub open spec fn token_content(bytes: Seq<u8>, t: XmlDisplayToken) -> Seq<u8> {
    bytes.subrange(t.start as int, t.end as int)
}

/// The token `t` lies inside `bytes`.
pub open spec fn token_inside(bytes: Seq<u8>, t: XmlDisplayToken) -> bool {
    t.start <= t.end <= bytes.len()
}

/// Tells whether an opening and a closing tag carry the same name, one that is not empty.
pub fn matching_tag_names(bytes: &[u8], open: XmlDisplayToken, close: XmlDisplayToken) -> (r: bool)
    requires
        token_inside(bytes@, open),
        token_inside(bytes@, close),
    ensures
        r == names_match(token_content(bytes@, open), token_content(bytes@, close)),
{
    let open_name = extract_tag_name(bytes, open.start, open.end, false);
    let close_name = extract_tag_name(bytes, close.start, close.end, true);
    open_name.len() > 0 && same_bytes(open_name, close_name)
}

/// The bytes of the tag at `start`, none where `start` lies behind the end.
pub open spec fn tag_at(bytes: Seq<u8>, start: int) -> Seq<u8> {
    if start < bytes.len() {
        bytes.skip(start).take(tag_len(bytes.skip(start)) as int)
    } else {
        Seq::empty()
    }
}

/// Where the tag at `start` ends, and whether it is a closing tag, an opening tag and a
/// self-closing tag.
pub fn xml_tag_bounds(bytes: &[u8], start: usize) -> (r: (usize, bool, bool, bool))
    requires
        start < usize::MAX,
    ensures
        start < bytes@.len() ==> r.0 == start + tag_len(bytes@.skip(start as int)),
        start < bytes@.len() ==> start < r.0 <= bytes@.len(),
        start >= bytes@.len() ==> r.0 == bytes@.len(),
        r.1 == closing_tag(tag_at(bytes@, start as int)),
        r.2 == opening_tag(tag_at(bytes@, start as int)),
        r.3 == self_closing_tag(tag_at(bytes@, start as int)),
{
    let ghost c = tag_at(bytes@, start as int);
    let mut idx: usize = start + 1;
    let is_closing = idx < bytes.len() && bytes[idx] == 0x2f;
    let is_special = idx < bytes.len() && (bytes[idx] == 0x21 || bytes[idx] == 0x3f);
    let mut in_quote: Option<u8> = None;
    if idx > bytes.len() {
        proof {
            assert(tag_body(c) =~= Seq::<u8>::empty());
        }
        return (bytes.len(), is_closing, !is_special && !is_closing, false);
    }
    let ghost rest = bytes@.skip(start as int).skip(1);
    proof {
        lemma_tag_rest_len(rest, None);
        assert(rest =~= bytes@.skip(idx as int));
        if rest.len() > 0 {
            assert(c[1] == bytes@[start + 1]);
        }
    }
    let mut open: bool = true;
    while open && idx < bytes.len()
        invariant
            start < idx <= bytes@.len(),
            open ==> tag_rest_len(rest, None) == idx - start - 1 + tag_rest_len(
                bytes@.skip(idx as int),
                in_quote,
            ),
            !open ==> tag_rest_len(rest, None) == idx - start - 1,
        decreases bytes.len() - idx,
    {
        let b = bytes[idx];
        proof {
            assert(bytes@.skip(idx as int).skip(1) =~= bytes@.skip(idx + 1));
        }
        if let Some(quote) = in_quote {
            if b == quote {
                in_quote = None;
            }
        } else if b == 0x22 || b == 0x27 {
            in_quote = Some(b);
        } else if b == 0x3e {
            open = false;
        }
        idx = idx + 1;
    }
    proof {
        assert(idx == start + tag_len(bytes@.skip(start as int)));
        assert(c =~= bytes@.subrange(start as int, idx as int));
    }
    let mut tail: usize = idx - 1;
    if tail > start && bytes[tail] == 0x3e {
        tail = tail - 1;
    }
    proof {
        assert(tag_body(c) =~= bytes@.subrange(start + 1, tail + 1));
    }
    while tail > start && is_ascii_space(bytes[tail])
        invariant
            start <= tail < bytes@.len(),
            trim_end(tag_body(c)) == trim_end(bytes@.subrange(start + 1, tail + 1)),
        decreases tail - start,
    {
        proof {
            assert(bytes@.subrange(start + 1, tail + 1).drop_last() =~= bytes@.subrange(
                start + 1,
                tail as int,
            ));
        }
        tail = tail - 1;
    }
    let is_self_closing = !is_special && tail > start && bytes[tail] == 0x2f;
    (idx, is_closing, !is_special && !is_closing, is_self_closing)
}

/// The piece that the token `t` stands for.
pub open spec fn token_piece(bytes: Seq<u8>, t: XmlDisplayToken) -> XmlPiece {
    XmlPiece { tag: t.is_tag, content: token_content(bytes, t) }
}

/// The token `t` lies inside `bytes` and its marks say what its bytes are.
pub open spec fn token_valid(bytes: Seq<u8>, t: XmlDisplayToken) -> bool {
    let c = token_content(bytes, t);
    &&& token_inside(bytes, t)
    &&& t.is_closing == (t.is_tag && closing_tag(c))
    &&& t.is_opening == (t.is_tag && opening_tag(c))
    &&& t.is_self_closing == (t.is_tag && self_closing_tag(c))
}

/// The pieces that the tokens stand for, in their order.
pub open spec fn token_pieces(bytes: Seq<u8>, tokens: Seq<XmlDisplayToken>) -> Seq<XmlPiece> {
    tokens.map_values(|t: XmlDisplayToken| token_piece(bytes, t))
}

/// Cuts a document into its pieces.
pub fn xml_tokens(bytes: &[u8]) -> (r: Vec<XmlDisplayToken>)
    ensures
        token_pieces(bytes@, r@) == xml_pieces(bytes@),
        forall|i: int| 0 <= i < r@.len() ==> token_valid(bytes@, #[trigger] r@[i]),
{
    let mut tokens: Vec<XmlDisplayToken> = Vec::new();
    let mut idx: usize = 0;
    proof {
        assert(bytes@.skip(0) =~= bytes@);
        assert(token_pieces(bytes@, tokens@) + xml_pieces(bytes@) =~= xml_pieces(bytes@));
    }
    while idx < bytes.len()
        invariant
            idx <= bytes@.len(),
            xml_pieces(bytes@) == token_pieces(bytes@, tokens@) + xml_pieces(
                bytes@.skip(idx as int),
            ),
            forall|i: int| 0 <= i < tokens@.len() ==> token_valid(bytes@, #[trigger] tokens@[i]),
        decreases bytes.len() - idx,
    {
        let ghost rest = bytes@.skip(idx as int);
        let ghost before = tokens@;
        if is_ascii_space(bytes[idx]) {
            proof {
                assert(rest.skip(1) =~= bytes@.skip(idx + 1));
            }
            idx = idx + 1;
        } else if bytes[idx] == 0x3c {
            let (token_end, is_closing, is_opening, is_self_closing) = xml_tag_bounds(bytes, idx);
            let token = XmlDisplayToken {
                start: idx,
                end: token_end,
                is_tag: true,
                is_closing,
                is_opening,
                is_self_closing,
            };
            tokens.push(token);
            proof {
                assert(token_content(bytes@, token) =~= tag_at(bytes@, idx as int));
                assert(rest.skip(piece_len(rest) as int) =~= bytes@.skip(token_end as int));
                assert(token_piece(bytes@, token) == first_piece(rest));
                assert(token_pieces(bytes@, tokens@) =~= token_pieces(bytes@, before).push(
                    first_piece(rest),
                ));
                assert(xml_pieces(bytes@) =~= token_pieces(bytes@, tokens@) + xml_pieces(
                    bytes@.skip(token_end as int),
                ));
            }
            idx = token_end;
        } else {
            let text_start = idx;
            while idx < bytes.len() && bytes[idx] != 0x3c
                invariant
                    text_start <= idx <= bytes@.len(),
                    rest == bytes@.skip(text_start as int),
                    text_len(rest) == idx - text_start + text_len(bytes@.skip(idx as int)),
                decreases bytes.len() - idx,
            {
                proof {
                    assert(bytes@.skip(idx as int).skip(1) =~= bytes@.skip(idx + 1));
                }
                idx = idx + 1;
            }
            let (trimmed_start, trimmed_end) = trim_ascii_whitespace_range(bytes, text_start, idx);
            let ghost part = bytes@.subrange(text_start as int, idx as int);
            proof {
                assert(part =~= rest.take(text_len(rest) as int));
                assert(trim_start(part) == part);
                lemma_trim_end_len(part);
                assert(rest.skip(piece_len(rest) as int) =~= bytes@.skip(idx as int));
            }
            let token = XmlDisplayToken {
                start: trimmed_start,
                end: trimmed_end,
                is_tag: false,
                is_closing: false,
                is_opening: false,
                is_self_closing: false,
            };
            tokens.push(token);
            proof {
                assert(token_piece(bytes@, token) == first_piece(rest));
                assert(token_pieces(bytes@, tokens@) =~= token_pieces(bytes@, before).push(
                    first_piece(rest),
                ));
                assert(xml_pieces(bytes@) =~= token_pieces(bytes@, tokens@) + xml_pieces(
                    bytes@.skip(idx as int),
                ));
            }
        }
    }
    proof {
        assert(token_pieces(bytes@, tokens@) + Seq::<XmlPiece>::empty() =~= token_pieces(
            bytes@,
            tokens@,
        ));
    }
    tokens
}

pub(crate) proof fn lemma_with_line_feeds_push(lines: Seq<Seq<u8>>, last: Seq<u8>)
    ensures
        with_line_feeds(lines.push(last)) == with_line_feeds(lines) + last.push(0x0a),
    decreases lines.len(),
{
    if lines.len() == 0 {
        assert(lines.push(last).skip(1) =~= lines);
        assert(with_line_feeds(lines.push(last)) =~= with_line_feeds(lines) + last.push(0x0a));
    } else {
        lemma_with_line_feeds_push(lines.skip(1), last);
        assert(lines.push(last).skip(1) =~= lines.skip(1).push(last));
        assert(with_line_feeds(lines.push(last)) =~= with_line_feeds(lines) + last.push(0x0a));
    }
}

/// The document as indented lines: see [`formatted_xml`].
pub fn format_xml_for_display(bytes: &[u8]) -> (r: Vec<u8>)
    ensures
        r@ == formatted_xml(bytes@),
{
    let tokens = xml_tokens(bytes);
    let mut out: Vec<u8> = Vec::new();
    let mut depth: usize = 0;
    let mut i: usize = 0;
    let ghost pieces = token_pieces(bytes@, tokens@);
    let ghost lines: Seq<Seq<u8>> = xml_lines(pieces, 0);
    let ghost mut done: Seq<Seq<u8>> = Seq::empty();
    proof {
        assert(pieces.skip(0) =~= pieces);
        assert(done + lines =~= lines);
    }
    while i < tokens.len()
        invariant
            pieces == token_pieces(bytes@, tokens@),
            forall|k: int| 0 <= k < tokens@.len() ==> token_valid(bytes@, #[trigger] tokens@[k]),
            depth <= i <= tokens@.len(),
            lines == done + xml_lines(pieces.skip(i as int), depth as nat),
            out@ == with_line_feeds(done),
            i > 0 ==> done.len() > 0,
        decreases tokens.len() - i,
    {
        let token = tokens[i];
        let ghost p = pieces.skip(i as int);
        proof {
            assert(token_valid(bytes@, tokens@[i as int]));
            assert(p[0] == token_piece(bytes@, token));
            if i + 2 < tokens@.len() {
                assert(token_valid(bytes@, tokens@[i + 1]));
                assert(token_valid(bytes@, tokens@[i + 2]));
                assert(p[1] == token_piece(bytes@, tokens@[i + 1]));
                assert(p[2] == token_piece(bytes@, tokens@[i + 2]));
            }
        }
        if token.is_tag && token.is_opening && !token.is_self_closing && tokens.len() - i > 2
            && !tokens[i + 1].is_tag && tokens[i + 2].is_tag && tokens[i + 2].is_closing
            && matching_tag_names(bytes, token, tokens[i + 2]) {
            let text = tokens[i + 1];
            let close = tokens[i + 2];
            let mut line: Vec<u8> = Vec::new();
            line.extend_from_slice(&bytes[token.start..token.end]);
            line.extend_from_slice(&bytes[text.start..text.end]);
            line.extend_from_slice(&bytes[close.start..close.end]);
            push_indented_xml_line(&mut out, depth, line.as_slice());
            proof {
                assert(line@ =~= p[0].content + p[1].content + p[2].content);
                let shown = indent(depth as nat) + line@;
                lemma_with_line_feeds_push(done, shown);
                assert(lines =~= done.push(shown) + xml_lines(p.skip(3), depth as nat));
                assert(p.skip(3) =~= pieces.skip(i + 3));
                done = done.push(shown);
            }
            i = i + 3;
        } else {
            let line_depth = if token.is_closing {
                depth.saturating_sub(1)
            } else {
                depth
            };
            push_indented_xml_line(&mut out, line_depth, &bytes[token.start..token.end]);
            proof {
                assert(!text_element(p));
                let shown = indent(line_depth as nat) + p[0].content;
                lemma_with_line_feeds_push(done, shown);
                assert(lines =~= done.push(shown) + xml_lines(
                    p.skip(1),
                    depth_after(p[0], depth as nat),
                ));
                assert(p.skip(1) =~= pieces.skip(i + 1));
                done = done.push(shown);
            }
            if token.is_closing {
                depth = depth.saturating_sub(1);
            } else if token.is_opening && !token.is_self_closing {
                depth = depth + 1;
            }
            i = i + 1;
        }
    }
    proof {
        assert(lines =~= done);
        if done.len() > 0 {
            let last = done.last();
            lemma_with_line_feeds_push(done.drop_last(), last);
            assert(done.drop_last().push(last) =~= done);
        }
    }
    if out.len() > 0 {
        out.pop();
    } else {
        out.push(0x0a);
        proof {
            assert(out@ =~= seq![0x0au8]);
        }
    }
    out
}

} // verus!
