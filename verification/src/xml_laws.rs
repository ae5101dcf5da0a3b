//! What the class of a byte of an XML line is, told from its place in the line.
use vstd::prelude::*;

use crate::xml::{
    closes_comment, law_xml_classes_len, opens_comment, xml_classes, xml_step_class, xml_step_len,
    xml_step_mode, NamePhase, XmlMode, XmlTokenClass,
};

verus! {

/// Where a byte of a line stands: in text, in the comment or the tag that starts at an offset, or in a
/// quoted value of a tag, with the quotation mark that ends it.
pub enum XmlPlace {
    Text,
    Comment(int),
    Tag(int),
    Value(int, u8),
}

/// `<!--` stands at `a`.
pub open spec fn comment_starts(s: Seq<u8>, a: int) -> bool {
    0 <= a && a + 4 <= s.len() && s[a] == 0x3c && s[a + 1] == 0x21 && s[a + 2] == 0x2d && s[a + 3]
        == 0x2d
}

/// `-->` stands at `c`.
pub open spec fn comment_ends(s: Seq<u8>, c: int) -> bool {
    0 <= c && c + 3 <= s.len() && s[c] == 0x2d && s[c + 1] == 0x2d && s[c + 2] == 0x3e
}

/// Where the byte `n` of a line stands. A comment ends behind the first `-->` behind its `<!--`, a tag
/// with the first `>` outside its quoted values.
pub open spec fn xml_place(s: Seq<u8>, n: int) -> XmlPlace
    decreases n,
{
    if n <= 0 {
        XmlPlace::Text
    } else {
        let m = n - 1;
        let b = s[m];
        match xml_place(s, m) {
            XmlPlace::Text => if b != 0x3c {
                XmlPlace::Text
            } else if comment_starts(s, m) {
                XmlPlace::Comment(m)
            } else {
                XmlPlace::Tag(m)
            },
            XmlPlace::Comment(a) => if a + 4 <= m - 2 && comment_ends(s, m - 2) {
                XmlPlace::Text
            } else {
                XmlPlace::Comment(a)
            },
            XmlPlace::Tag(a) => if b == 0x3e {
                XmlPlace::Text
            } else if b == 0x22 || b == 0x27 {
                XmlPlace::Value(a, b)
            } else {
                XmlPlace::Tag(a)
            },
            XmlPlace::Value(a, quote) => if b == quote {
                XmlPlace::Tag(a)
            } else {
                XmlPlace::Value(a, quote)
            },
        }
    }
}

/// The bytes that separate the parts of a tag: whitespace, `=` and `>`.
pub open spec fn separates(b: u8) -> bool {
    b == 0x20 || b == 0x09 || b == 0x0a || b == 0x0c || b == 0x0d || b == 0x3d || b == 0x3e
}

/// The byte `x` belongs to a name in the tag that starts at `a`.
pub open spec fn name_byte(s: Seq<u8>, a: int, x: int) -> bool {
    xml_place(s, x) == XmlPlace::Tag(a) && !separates(s[x]) && s[x] != 0x22 && s[x] != 0x27
}

/// The first name in the tag that starts at `a` is not over before the byte `m`: every byte
/// between one of its bytes and `m` is one of its bytes.
pub open spec fn first_name(s: Seq<u8>, a: int, m: int) -> bool {
    forall|x: int, y: int|
        a < x <= y < m && #[trigger] name_byte(s, a, x) ==> #[trigger] name_byte(s, a, y)
}

/// The class of the byte `m` of a line.
pub open spec fn xml_class_by_place(s: Seq<u8>, m: int) -> XmlTokenClass {
    match xml_place(s, m) {
        XmlPlace::Text => if s[m] != 0x3c {
            XmlTokenClass::Text
        } else if comment_starts(s, m) {
            XmlTokenClass::Comment
        } else {
            XmlTokenClass::TagDelimiter
        },
        XmlPlace::Comment(_) => XmlTokenClass::Comment,
        XmlPlace::Value(_, _) => XmlTokenClass::AttributeValue,
        XmlPlace::Tag(a) => if s[m] == 0x22 || s[m] == 0x27 {
            XmlTokenClass::AttributeValue
        } else if separates(s[m]) {
            XmlTokenClass::TagDelimiter
        } else if first_name(s, a, m) {
            XmlTokenClass::TagName
        } else {
            XmlTokenClass::AttributeName
        },
    }
}

/// How far the first name of a tag has got before `n`.
spec fn phase_agrees(s: Seq<u8>, a: int, n: int, phase: NamePhase) -> bool {
    &&& 0 <= a < n
    &&& match phase {
        NamePhase::Before => forall|x: int| a < x < n ==> !#[trigger] name_byte(s, a, x),
        NamePhase::Inside => a < n - 1 && name_byte(s, a, n - 1) && first_name(s, a, n),
        NamePhase::After => exists|x: int, y: int|
            a < x < y < n && #[trigger] name_byte(s, a, x) && !#[trigger] name_byte(s, a, y),
    }
}

spec fn place_agrees(s: Seq<u8>, n: int, mode: XmlMode) -> bool {
    match mode {
        XmlMode::Content => xml_place(s, n) == XmlPlace::Text,
        XmlMode::Comment => xml_place(s, n) matches XmlPlace::Comment(a) && 0 <= a && a + 4 <= n
            && forall|c: int| a + 4 <= c < n ==> !#[trigger] comment_ends(s, c),
        XmlMode::Tag(phase) => xml_place(s, n) matches XmlPlace::Tag(a) && phase_agrees(
            s,
            a,
            n,
            phase,
        ),
        XmlMode::Quoted(quote, phase) => xml_place(s, n) matches XmlPlace::Value(a, q) && q == quote
            && phase != NamePhase::Inside && phase_agrees(s, a, n, phase),
    }
}

/// A byte that belongs to no name ends the name before it.
proof fn lemma_phase_over(s: Seq<u8>, a: int, n: int, phase: NamePhase)
    requires
        phase_agrees(s, a, n, phase),
        !name_byte(s, a, n),
    ensures
        phase == NamePhase::Inside ==> phase_agrees(s, a, n + 1, NamePhase::After),
        phase != NamePhase::Inside ==> phase_agrees(s, a, n + 1, phase),
{
    if phase == NamePhase::Inside {
        assert(a < n - 1 && name_byte(s, a, n - 1) && !name_byte(s, a, n));
    } else if phase == NamePhase::After {
        let (x, y) = choose|x: int, y: int|
            a < x < y < n && #[trigger] name_byte(s, a, x) && !#[trigger] name_byte(s, a, y);
        assert(a < x < y < n + 1 && name_byte(s, a, x) && !name_byte(s, a, y));
    }
}

/// A byte that belongs to a name goes on with the name before it.
proof fn lemma_phase_name(s: Seq<u8>, a: int, n: int, phase: NamePhase)
    requires
        phase_agrees(s, a, n, phase),
        name_byte(s, a, n),
    ensures
        phase == NamePhase::After ==> phase_agrees(s, a, n + 1, NamePhase::After) && !first_name(
            s,
            a,
            n,
        ),
        phase != NamePhase::After ==> phase_agrees(s, a, n + 1, NamePhase::Inside) && first_name(
            s,
            a,
            n,
        ),
{
    if phase == NamePhase::After {
        let (x, y) = choose|x: int, y: int|
            a < x < y < n && #[trigger] name_byte(s, a, x) && !#[trigger] name_byte(s, a, y);
        assert(a < x < y < n + 1 && name_byte(s, a, x) && !name_byte(s, a, y));
        assert(!first_name(s, a, n));
    }
}

proof fn lemma_step(s: Seq<u8>, n: int, mode: XmlMode)
    requires
        0 <= n < s.len(),
        place_agrees(s, n, mode),
    ensures
        ({
            let end = n + xml_step_len(mode, s.skip(n));
            &&& n < end <= s.len()
            &&& place_agrees(s, end, xml_step_mode(mode, s.skip(n)))
            &&& forall|m: int|
                n <= m < end ==> #[trigger] xml_class_by_place(s, m) == xml_step_class(
                    mode,
                    s.skip(n),
                )
        }),
{
    let rest = s.skip(n);
    assert forall|k: int| 0 <= k < rest.len() implies rest[k] == #[trigger] s[n + k] by {}
    assert(rest[0] == s[n]);
    match mode {
        XmlMode::Content => {
            assert(opens_comment(rest) <==> comment_starts(s, n)) by {
                if rest.len() > 3 {
                    assert(rest[1] == s[n + 1] && rest[2] == s[n + 2] && rest[3] == s[n + 3]);
                }
            }
            if comment_starts(s, n) {
                assert(xml_place(s, n + 1) == XmlPlace::Comment(n));
                assert(xml_place(s, n + 2) == XmlPlace::Comment(n));
                assert(xml_place(s, n + 3) == XmlPlace::Comment(n));
                assert(xml_place(s, n + 4) == XmlPlace::Comment(n));
            }
        },
        XmlMode::Comment => {
            let a = xml_place(s, n)->Comment_0;
            assert(closes_comment(rest) <==> comment_ends(s, n)) by {
                if rest.len() > 2 {
                    assert(rest[1] == s[n + 1] && rest[2] == s[n + 2]);
                }
            }
            if comment_ends(s, n) {
                assert(!comment_ends(s, n - 2));
                assert(xml_place(s, n + 1) == XmlPlace::Comment(a));
                assert(!comment_ends(s, n - 1));
                assert(xml_place(s, n + 2) == XmlPlace::Comment(a));
                assert(xml_place(s, n + 3) == XmlPlace::Text);
            } else {
                if a + 4 <= n - 2 {
                    assert(!comment_ends(s, n - 2));
                }
                assert(xml_place(s, n + 1) == XmlPlace::Comment(a));
            }
        },
        XmlMode::Quoted(quote, phase) => {
            let a = xml_place(s, n)->Value_0;
            assert(!name_byte(s, a, n));
            lemma_phase_over(s, a, n, phase);
        },
        XmlMode::Tag(phase) => {
            let a = xml_place(s, n)->Tag_0;
            if separates(s[n]) || s[n] == 0x22 || s[n] == 0x27 {
                assert(!name_byte(s, a, n));
                lemma_phase_over(s, a, n, phase);
            } else {
                assert(name_byte(s, a, n));
                lemma_phase_name(s, a, n, phase);
            }
        },
    }
}

proof fn lemma_xml_classes(s: Seq<u8>, n: int, mode: XmlMode)
    requires
        0 <= n <= s.len(),
        place_agrees(s, n, mode),
    ensures
        forall|m: int|
            n <= m < s.len() ==> xml_classes(mode, s.skip(n))[m - n]
                == #[trigger] xml_class_by_place(s, m),
    decreases s.len() - n,
{
    if n < s.len() {
        let rest = s.skip(n);
        let len = xml_step_len(mode, rest);
        let end = n + len;
        let next = xml_step_mode(mode, rest);
        lemma_step(s, n, mode);
        lemma_xml_classes(s, end, next);
        let tail = s.skip(end);
        assert(rest.skip(len as int) =~= tail);
        law_xml_classes_len(next, tail);
        let step = Seq::new(len, |i: int| xml_step_class(mode, rest));
        let more = xml_classes(next, tail);
        let classes = xml_classes(mode, rest);
        assert(classes == step + more);
        assert forall|m: int| n <= m < s.len() implies classes[m - n]
            == #[trigger] xml_class_by_place(s, m) by {
            if m < end {
                assert(classes[m - n] == step[m - n]);
            } else {
                assert(classes[m - n] == more[m - end]);
            }
        }
    }
}

/// Every byte of a line has the class that its place in the line gives it: in a comment, in a quoted
/// value, in the first name of a tag, in another name of it, between these, or in the text around
/// tags.
pub proof fn law_xml_class_by_place(s: Seq<u8>, m: int)
    requires
        0 <= m < s.len(),
    ensures
        xml_classes(XmlMode::Content, s)[m] == xml_class_by_place(s, m),
{
    assert(s.skip(0) =~= s);
    lemma_xml_classes(s, 0, XmlMode::Content);
    assert(xml_classes(XmlMode::Content, s.skip(0))[m - 0] == xml_class_by_place(s, m));
}

} // verus!
