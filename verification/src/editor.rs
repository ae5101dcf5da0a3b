//! The state of the window that edits a document.
use vstd::prelude::*;

use crate::document::{is_update, Document};
use crate::text::{decimal, push_decimal, saturated};

verus! {

/// The window: the document, the line that is being edited, and what its fields hold.
pub struct GuiApp<'a> {
    pub doc: Document<'a>,
    /// The line that is being edited.
    pub edit_line: Option<usize>,
    /// The text of the line that is being edited.
    pub edit_buffer: String,
    /// Where the file is to be saved.
    pub save_path: String,
    /// What became of the last save.
    pub status: String,
}

/// The characters that Unicode counts as whitespace.
pub open spec fn is_white_space(c: char) -> bool {
    ||| '\u{9}' <= c <= '\u{d}'
    ||| c == ' '
    ||| c == '\u{85}'
    ||| c == '\u{a0}'
    ||| c == '\u{1680}'
    ||| '\u{2000}' <= c <= '\u{200a}'
    ||| c == '\u{2028}'
    ||| c == '\u{2029}'
    ||| c == '\u{202f}'
    ||| c == '\u{205f}'
    ||| c == '\u{3000}'
}

/// Tells whether Unicode counts `c` as whitespace.
pub fn is_whitespace_char(c: char) -> (r: bool)
    ensures
        r == is_white_space(c),
{
    ('\u{9}' <= c && c <= '\u{d}') || c == ' ' || c == '\u{85}' || c == '\u{a0}' || c == '\u{1680}'
        || ('\u{2000}' <= c && c <= '\u{200a}') || c == '\u{2028}' || c == '\u{2029}' || c
        == '\u{202f}' || c == '\u{205f}' || c == '\u{3000}'
}

/// `s` without the whitespace it starts with.
pub open spec fn without_leading_space(s: Seq<char>) -> Seq<char>
    decreases s.len(),
{
    if s.len() > 0 && is_white_space(s[0]) {
        without_leading_space(s.skip(1))
    } else {
        s
    }
}

/// `s` without the whitespace it ends with.
pub open spec fn without_trailing_space(s: Seq<char>) -> Seq<char>
    decreases s.len(),
{
    if s.len() > 0 && is_white_space(s.last()) {
        without_trailing_space(s.drop_last())
    } else {
        s
    }
}

/// `s` without the whitespace around it.
pub fn trimmed(s: &str) -> (r: String)
    ensures
        r@ == without_trailing_space(without_leading_space(s@)),
{
    let mut start: usize = 0;
    let mut end: usize = s.unicode_len();
    proof {
        assert(s@.subrange(0, end as int) =~= s@);
    }
    while start < end && is_whitespace_char(s.get_char(start))
        invariant
            start <= end == s@.len(),
            without_leading_space(s@) == without_leading_space(
                s@.subrange(start as int, end as int),
            ),
        decreases end - start,
    {
        proof {
            assert(s@.subrange(start as int, end as int).skip(1) =~= s@.subrange(
                start + 1,
                end as int,
            ));
        }
        start = start + 1;
    }
    while end > start && is_whitespace_char(s.get_char(end - 1))
        invariant
            start <= end <= s@.len(),
            without_trailing_space(without_leading_space(s@)) == without_trailing_space(
                s@.subrange(start as int, end as int),
            ),
        decreases end - start,
    {
        proof {
            assert(s@.subrange(start as int, end as int).drop_last() =~= s@.subrange(
                start as int,
                end - 1,
            ));
        }
        end = end - 1;
    }
    s.substring_char(start, end).to_owned()
}

/// The number of line `i`, counted from one, set right in a column of seven.
pub open spec fn line_label(i: usize) -> Seq<char> {
    let number = decimal(saturated((i + 1) as nat) as nat);
    if number.len() < 7 {
        Seq::new((7 - number.len()) as nat, |k: int| ' ') + number
    } else {
        number
    }
}

/// The number of a line as it stands beside it.
pub fn line_number_label(line_idx: usize) -> (r: String)
    ensures
        r@ == line_label(line_idx),
{
    let mut number = String::new();
    push_decimal(&mut number, line_idx.saturating_add(1));
    let ghost digits = decimal(saturated((line_idx + 1) as nat) as nat);
    proof {
        assert(number@ =~= digits);
    }
    let len = number.as_str().unicode_len();
    let mut label = String::new();
    let mut pad: usize = len;
    while pad < 7
        invariant
            len <= pad,
            len < 7 ==> pad <= 7,
            len >= 7 ==> pad == len,
            label@ == Seq::new((pad - len) as nat, |k: int| ' '),
        decreases 7 - pad,
    {
        label.push(' ');
        pad = pad + 1;
        proof {
            assert(label@ =~= Seq::new((pad - len) as nat, |k: int| ' '));
        }
    }
    label.append(number.as_str());
    proof {
        assert(label@ =~= line_label(line_idx));
    }
    label
}

impl<'a> GuiApp<'a> {
    /// The window on a document, nothing being edited; `save_path` is where it is saved unless the
    /// user says otherwise.
    pub fn new(doc: Document<'a>, save_path: String) -> (r: Self)
        ensures
            r.doc == doc,
            r.edit_line is None,
            r.edit_buffer@ == Seq::<char>::empty(),
            r.save_path == save_path,
            r.status@ == Seq::<char>::empty(),
    {
        GuiApp {
            doc,
            edit_line: None,
            edit_buffer: String::new(),
            save_path,
            status: String::new(),
        }
    }

    /// The label that says how many lines there are.
    pub fn lines_label(&self) -> (r: String)
        ensures
            r@ == "Lines: "@ + decimal(self.doc.count() as nat),
    {
        let mut text = String::new();
        text.append("Lines: ");
        push_decimal(&mut text, self.doc.line_count());
        proof {
            assert(text@ =~= "Lines: "@ + decimal(self.doc.count() as nat));
        }
        text
    }

    /// The label that says how many lines were edited.
    pub fn modified_label(&self) -> (r: String)
        ensures
            r@ == "Modified lines: "@ + decimal(self.doc.dirty_lines@.len()),
    {
        let mut text = String::new();
        text.append("Modified lines: ");
        push_decimal(&mut text, self.doc.modified_count());
        proof {
            assert(text@ =~= "Modified lines: "@ + decimal(self.doc.dirty_lines@.len()));
        }
        text
    }

    /// Where the file is to be saved: the path field without the whitespace around it.
    pub fn save_target(&self) -> (r: String)
        ensures
            r@ == without_trailing_space(without_leading_space(self.save_path@)),
    {
        trimmed(self.save_path.as_str())
    }

    /// Says what became of a save: `failure` tells what went wrong, if anything did.
    pub fn finish_save(&mut self, target: &str, failure: Option<&str>)
        ensures
            final(self).status@ == match failure {
                None => "Saved "@ + target@,
                Some(reason) => "Save failed: "@ + reason@,
            },
            final(self).doc == old(self).doc,
            final(self).edit_line == old(self).edit_line,
            final(self).edit_buffer == old(self).edit_buffer,
            final(self).save_path == old(self).save_path,
    {
        let mut text = String::new();
        match failure {
            None => {
                text.append("Saved ");
                text.append(target);
                proof {
                    assert(text@ =~= "Saved "@ + target@);
                }
            },
            Some(reason) => {
                text.append("Save failed: ");
                text.append(reason);
                proof {
                    assert(text@ =~= "Save failed: "@ + reason@);
                }
            },
        }
        self.status = text;
    }

    /// Tells whether a line is being edited.
    pub fn is_editing(&self, line_idx: usize) -> (r: bool)
        ensures
            r == (self.edit_line == Some(line_idx)),
    {
        match self.edit_line {
            Some(line) => line == line_idx,
            None => false,
        }
    }

    /// Starts to edit a line, from the text that it is shown with.
    pub fn begin_edit(&mut self, line_idx: usize)
        requires
            old(self).doc.wf(),
            line_idx < old(self).doc.count() || old(self).doc.edited(line_idx as int),
        ensures
            final(self).edit_line == Some(line_idx),
            final(self).edit_buffer@ == old(self).doc.text_of(line_idx as int),
            final(self).doc == old(self).doc,
            final(self).save_path == old(self).save_path,
            final(self).status == old(self).status,
    {
        self.edit_line = Some(line_idx);
        self.edit_buffer = self.doc.line_text(line_idx);
    }

    /// What the keys do to the line that is being edited: `entered` gives it the text that was typed,
    /// `escaped` leaves it as it was, and both end the edit.
    pub fn handle_edit_keys(&mut self, line_idx: usize, entered: bool, escaped: bool)
        requires
            old(self).doc.wf(),
        ensures
            final(self).doc.wf(),
            entered ==> is_update(
                old(self).doc,
                final(self).doc,
                line_idx,
                old(self).edit_buffer,
            ),
            !entered ==> final(self).doc == old(self).doc,
            final(self).edit_line == if entered || escaped {
                None
            } else {
                old(self).edit_line
            },
            final(self).edit_buffer == old(self).edit_buffer,
            final(self).save_path == old(self).save_path,
            final(self).status == old(self).status,
    {
        if entered {
            let value = self.edit_buffer.clone();
            self.doc.update_line(line_idx, value);
            self.edit_line = None;
        } else if escaped {
            self.edit_line = None;
        }
    }
}

} // verus!
