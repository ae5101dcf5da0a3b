//! Syntax classes of the bytes of one line of XML.
use vstd::prelude::*;

use crate::text::{ascii_space, is_ascii_space};

verus! {

/// What a byte of an XML line is.
#[derive(Clone, Copy, Debug, PartialEq, Eq, Structural)]
pub enum XmlTokenClass {
    Text,
    TagDelimiter,
    TagName,
    AttributeName,
    AttributeValue,
    Comment,
}

/// How far a tag has got with its name.
#[derive(Clone, Copy, Debug, PartialEq, Eq, Structural)]
pub enum NamePhase {
    Before,
    Inside,
    After,
}

/// Where in an XML line the scan stands: in text, in a comment, in a tag, or in a quoted
/// value of a tag, with the quotation mark that ends it.
#[derive(Clone, Copy, Debug, PartialEq, Eq, Structural)]
pub enum XmlMode {
    Content,
    Comment,
    Tag(NamePhase),
    Quoted(u8, NamePhase),
}

/// The phase behind a byte that cannot stand in a name: a name that was being read is over.
pub open spec fn name_over(phase: NamePhase) -> NamePhase {
    match phase {
        NamePhase::Inside => NamePhase::After,
        _ => phase,
    }
}

/// `s` starts with `<!--`.
pub open spec fn opens_comment(s: Seq<u8>) -> bool {
    s.len() > 3 && s[0] == 0x3c && s[1] == 0x21 && s[2] == 0x2d && s[3] == 0x2d
}

/// `s` starts with `-->`.
pub open spec fn closes_comment(s: Seq<u8>) -> bool {
    s.len() > 2 && s[0] == 0x2d && s[1] == 0x2d && s[2] == 0x3e
}

/// How many bytes are read at once at the head of `s`: a comment's mark as a whole, else one byte.
pub open spec fn xml_step_len(mode: XmlMode, s: Seq<u8>) -> nat {
    match mode {
        XmlMode::Comment if closes_comment(s) => 3,
        XmlMode::Content if opens_comment(s) => 4,
        _ => 1,
    }
}

/// The class of the bytes read at the head of `s`.
pub open spec fn xml_step_class(mode: XmlMode, s: Seq<u8>) -> XmlTokenClass {
    let b = s[0];
    match mode {
        XmlMode::Comment => XmlTokenClass::Comment,
        XmlMode::Quoted(_, _) => XmlTokenClass::AttributeValue,
        XmlMode::Tag(phase) => if b == 0x22 || b == 0x27 {
            XmlTokenClass::AttributeValue
        } else if b == 0x3e || b == 0x3d || ascii_space(b) {
            XmlTokenClass::TagDelimiter
        } else if phase == NamePhase::After {
            XmlTokenClass::AttributeName
        } else {
            XmlTokenClass::TagName
        },
        XmlMode::Content => if opens_comment(s) {
            XmlTokenClass::Comment
        } else if b == 0x3c {
            XmlTokenClass::TagDelimiter
        } else {
            XmlTokenClass::Text
        },
    }
}

/// The mode behind the bytes read at the head of `s`.
pub open spec fn xml_step_mode(mode: XmlMode, s: Seq<u8>) -> XmlMode {
    let b = s[0];
    match mode {
        XmlMode::Comment => if closes_comment(s) {
            XmlMode::Content
        } else {
            mode
        },
        XmlMode::Quoted(quote, phase) => if b == quote {
            XmlMode::Tag(phase)
        } else {
            mode
        },
        XmlMode::Tag(phase) => if b == 0x3e {
            XmlMode::Content
        } else if b == 0x22 || b == 0x27 {
            XmlMode::Quoted(b, name_over(phase))
        } else if b == 0x3d || ascii_space(b) {
            XmlMode::Tag(name_over(phase))
        } else if phase == NamePhase::After {
            mode
        } else {
            XmlMode::Tag(NamePhase::Inside)
        },
        XmlMode::Content => if opens_comment(s) {
            XmlMode::Comment
        } else if b == 0x3c {
            XmlMode::Tag(NamePhase::Before)
        } else {
            mode
        },
    }
}

/// The classes of the bytes of `s`, from `mode` on.
pub open spec fn xml_classes(mode: XmlMode, s: Seq<u8>) -> Seq<XmlTokenClass>
    decreases s.len(),
{
    if s.len() == 0 {
        Seq::empty()
    } else {
        let n = xml_step_len(mode, s);
        Seq::new(n, |i: int| xml_step_class(mode, s)) + xml_classes(
            xml_step_mode(mode, s),
            s.skip(n as int),
        )
    }
}

/// The classes give each byte exactly one class.
pub proof fn law_xml_classes_len(mode: XmlMode, s: Seq<u8>)
    ensures
        xml_classes(mode, s).len() == s.len(),
    decreases s.len(),
{
    if s.len() > 0 {
        law_xml_classes_len(xml_step_mode(mode, s), s.skip(xml_step_len(mode, s) as int));
    }
}

fn end_name(phase: NamePhase) -> (r: NamePhase)
    ensures
        r == name_over(phase),
{
    match phase {
        NamePhase::Inside => NamePhase::After,
        NamePhase::Before => NamePhase::Before,
        NamePhase::After => NamePhase::After,
    }
}

/// Reads at `idx`: how many bytes, their class, and the mode behind them.
fn xml_step(bytes: &[u8], idx: usize, mode: XmlMode) -> (r: (usize, XmlTokenClass, XmlMode))
    requires
        idx < bytes@.len(),
    ensures
        r.0 == xml_step_len(mode, bytes@.skip(idx as int)),
        r.1 == xml_step_class(mode, bytes@.skip(idx as int)),
        r.2 == xml_step_mode(mode, bytes@.skip(idx as int)),
{
    let b = bytes[idx];
    let left: usize = bytes.len() - idx;
    match mode {
        XmlMode::Comment => {
            if left > 2 && b == 0x2d && bytes[idx + 1] == 0x2d && bytes[idx + 2] == 0x3e {
                (3, XmlTokenClass::Comment, XmlMode::Content)
            } else {
                (1, XmlTokenClass::Comment, mode)
            }
        },
        XmlMode::Quoted(quote, phase) => {
            if b == quote {
                (1, XmlTokenClass::AttributeValue, XmlMode::Tag(phase))
            } else {
                (1, XmlTokenClass::AttributeValue, mode)
            }
        },
        XmlMode::Tag(phase) => {
            if b == 0x3e {
                (1, XmlTokenClass::TagDelimiter, XmlMode::Content)
            } else if b == 0x22 || b == 0x27 {
                (1, XmlTokenClass::AttributeValue, XmlMode::Quoted(b, end_name(phase)))
            } else if b == 0x3d || is_ascii_space(b) {
                (1, XmlTokenClass::TagDelimiter, XmlMode::Tag(end_name(phase)))
            } else if phase == NamePhase::After {
                (1, XmlTokenClass::AttributeName, mode)
            } else {
                (1, XmlTokenClass::TagName, XmlMode::Tag(NamePhase::Inside))
            }
        },
        XmlMode::Content => {
            if left > 3 && b == 0x3c && bytes[idx + 1] == 0x21 && bytes[idx + 2] == 0x2d
                && bytes[idx + 3] == 0x2d {
                (4, XmlTokenClass::Comment, XmlMode::Comment)
            } else if b == 0x3c {
                (1, XmlTokenClass::TagDelimiter, XmlMode::Tag(NamePhase::Before))
            } else {
                (1, XmlTokenClass::Text, mode)
            }
        },
    }
}

/// The class of each byte of a line, read from its start as text.
pub fn classify_xml_line(bytes: &[u8]) -> (r: Vec<XmlTokenClass>)
    ensures
        r@ == xml_classes(XmlMode::Content, bytes@),
        r@.len() == bytes@.len(),
{
    let mut classes: Vec<XmlTokenClass> = Vec::new();
    let mut mode = XmlMode::Content;
    let mut idx: usize = 0;
    proof {
        law_xml_classes_len(XmlMode::Content, bytes@);
        assert(bytes@.skip(0) =~= bytes@);
        assert(classes@ + xml_classes(mode, bytes@) =~= xml_classes(mode, bytes@));
    }
    while idx < bytes.len()
        invariant
            idx <= bytes@.len(),
            xml_classes(XmlMode::Content, bytes@) == classes@ + xml_classes(
                mode,
                bytes@.skip(idx as int),
            ),
        decreases bytes.len() - idx,
    {
        let ghost rest = bytes@.skip(idx as int);
        let ghost before = classes@;
        let ghost here = mode;
        let (n, class, next) = xml_step(bytes, idx, mode);
        let mut k: usize = 0;
        while k < n
            invariant
                k <= n,
                classes@ == before + Seq::new(k as nat, |i: int| class),
            decreases n - k,
        {
            classes.push(class);
            k = k + 1;
            proof {
                assert(classes@ =~= before + Seq::new(k as nat, |i: int| class));
            }
        }
        proof {
            assert(Seq::new(n as nat, |i: int| class) =~= Seq::new(
                xml_step_len(here, rest),
                |i: int| xml_step_class(here, rest),
            ));
            assert(rest.skip(n as int) =~= bytes@.skip(idx + n));
            assert(xml_classes(XmlMode::Content, bytes@) =~= classes@ + xml_classes(
                next,
                rest.skip(n as int),
            ));
        }
        mode = next;
        idx = idx + n;
    }
    proof {
        assert(classes@ + Seq::<XmlTokenClass>::empty() =~= classes@);
    }
    classes
}

} // verus!
