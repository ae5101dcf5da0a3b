//! A file that is edited line by line.
//!
//! The bytes of the file are never changed. An edited line is kept beside them until the file is
//! saved, and saving writes the lines one by one.
use std::collections::BTreeMap;

use vstd::prelude::*;
use vstd::utf8::encode_utf8;

use crate::csv::byte_width;
use crate::layout::{byte_char, char_of_byte, width_of_byte};
use crate::lines::{
    first_lines, is_line_index, law_lines_make_the_whole, lemma_line_bounds, line_bytes,
};

verus! {

/// A file and the lines of it that were edited.
pub struct Document<'a> {
    /// The bytes of the file.
    pub source: &'a [u8],
    /// Where its lines start.
    pub line_offsets: Vec<usize>,
    /// The new text of the lines that were edited.
    pub dirty_lines: BTreeMap<usize, String>,
    /// The columns that a tab takes.
    pub tab_width: usize,
}

/// A line without the bytes that end it: a carriage return, alone or before a line feed, is taken
/// off; a lone line feed stays.
pub open spec fn line_body(line: Seq<u8>) -> Seq<u8> {
    let n = line.len() as int;
    if n >= 2 && line[n - 1] == 0x0a && line[n - 2] == 0x0d {
        line.take(n - 2)
    } else if n >= 1 && line[n - 1] == 0x0d {
        line.take(n - 1)
    } else {
        line
    }
}

/// The characters that bytes are shown as: a tab as blanks, printable ASCII as itself, anything else
/// as a middle dot.
pub open spec fn readable(bytes: Seq<u8>, tab_width: nat) -> Seq<char>
    decreases bytes.len(),
{
    if bytes.len() == 0 {
        Seq::empty()
    } else {
        readable(bytes.drop_last(), tab_width) + Seq::new(
            byte_width(bytes.last(), tab_width),
            |k: int| byte_char(bytes.last()),
        )
    }
}

impl<'a> Document<'a> {
    /// The line index is that of the file.
    pub open spec fn wf(&self) -> bool {
        is_line_index(self.source@, self.line_offsets@)
    }

    /// How many lines there are.
    pub open spec fn count(&self) -> int {
        self.line_offsets@.len() as int
    }

    /// The bytes of line `i` in the file, its line feed included.
    pub open spec fn line(&self, i: int) -> Seq<u8> {
        line_bytes(self.source@, self.line_offsets@, i)
    }

    /// Line `i` was edited.
    pub open spec fn edited(&self, i: int) -> bool {
        0 <= i <= usize::MAX && self.dirty_lines@.contains_key(i as usize)
    }

    /// The text that line `i` is shown with.
    pub open spec fn text_of(&self, i: int) -> Seq<char> {
        if self.edited(i) {
            self.dirty_lines@[i as usize]@
        } else {
            readable(line_body(self.line(i)), self.tab_width as nat)
        }
    }

    /// What is written for line `i`: an edited line with a line feed behind it, any other line as it
    /// stands, and a line feed behind the last line where it has none.
    pub open spec fn saved_line(&self, i: int) -> Seq<u8> {
        if self.edited(i) {
            encode_utf8(self.dirty_lines@[i as usize]@).push(0x0a)
        } else if i + 1 == self.count() && !(self.line(i).len() > 0 && self.line(i).last()
            == 0x0a) {
            self.line(i).push(0x0a)
        } else {
            self.line(i)
        }
    }

    /// What is written for the lines `0..n`.
    pub open spec fn saved_lines(&self, n: int) -> Seq<u8>
        decreases n,
    {
        if n <= 0 {
            Seq::empty()
        } else {
            self.saved_lines(n - 1) + self.saved_line(n - 1)
        }
    }

    /// What the whole file is saved as.
    pub open spec fn saved(&self) -> Seq<u8> {
        self.saved_lines(self.count())
    }

    /// Opens a document on the bytes of a file.
    pub fn open(source: &'a [u8], tab_width: usize) -> (r: Self)
        ensures
            r.wf(),
            r.source == source,
            r.tab_width == tab_width,
            r.dirty_lines@ == Map::<usize, String>::empty(),
    {
        Document {
            source,
            line_offsets: Self::index_lines(source),
            dirty_lines: BTreeMap::new(),
            tab_width,
        }
    }

    /// Finds where the lines of `bytes` start.
    pub fn index_lines(bytes: &[u8]) -> (r: Vec<usize>)
        ensures
            is_line_index(bytes@, r@),
    {
        crate::lines::index_lines(bytes)
    }

    /// How many lines there are.
    pub fn line_count(&self) -> (r: usize)
        ensures
            r == self.count(),
    {
        self.line_offsets.len()
    }

    /// The bytes of a line in the file, its line feed included.
    pub fn line_slice(&self, line_idx: usize) -> (r: &[u8])
        requires
            self.wf(),
            line_idx < self.count(),
        ensures
            r@ == self.line(line_idx as int),
    {
        proof {
            lemma_line_bounds(self.source@, self.line_offsets@, line_idx as int);
        }
        let start = self.line_offsets[line_idx];
        let end: usize = if self.line_offsets.len() - line_idx > 1 {
            self.line_offsets[line_idx + 1]
        } else {
            self.source.len()
        };
        &self.source[start..end]
    }

    /// The text that a line is shown with.
    pub fn line_text(&self, line_idx: usize) -> (r: String)
        requires
            self.wf(),
            line_idx < self.count() || self.edited(line_idx as int),
        ensures
            r@ == self.text_of(line_idx as int),
    {
        if let Some(updated) = self.dirty_lines.get(&line_idx) {
            return updated.clone();
        }
        let raw = self.line_slice(line_idx);
        let len = raw.len();
        let end: usize = if len >= 2 && raw[len - 1] == 0x0a && raw[len - 2] == 0x0d {
            len - 2
        } else if len >= 1 && raw[len - 1] == 0x0d {
            len - 1
        } else {
            len
        };
        let ghost body = line_body(raw@);
        proof {
            assert(body =~= raw@.take(end as int));
            assert(body.take(0) =~= Seq::<u8>::empty());
        }
        let mut out = String::new();
        let mut i: usize = 0;
        while i < end
            invariant
                i <= end == body.len(),
                end <= raw@.len(),
                body == raw@.take(end as int),
                out@ == readable(body.take(i as int), self.tab_width as nat),
            decreases end - i,
        {
            let b = raw[i];
            let width = width_of_byte(b, self.tab_width);
            let ch = char_of_byte(b);
            let ghost before = out@;
            let mut k: usize = 0;
            while k < width
                invariant
                    k <= width,
                    out@ == before + Seq::new(k as nat, |j: int| ch),
                decreases width - k,
            {
                out.push(ch);
                k = k + 1;
                proof {
                    assert(out@ =~= before + Seq::new(k as nat, |j: int| ch));
                }
            }
            proof {
                let next = body.take(i + 1);
                assert(next.drop_last() =~= body.take(i as int));
                assert(next.last() == b);
                assert(out@ =~= readable(next, self.tab_width as nat));
            }
            i = i + 1;
        }
        proof {
            assert(body.take(i as int) =~= body);
        }
        out
    }

    /// Gives a line a new text.
    pub fn update_line(&mut self, line_idx: usize, value: String)
        requires
            old(self).wf(),
        ensures
            final(self).wf(),
            final(self).source == old(self).source,
            final(self).line_offsets == old(self).line_offsets,
            final(self).tab_width == old(self).tab_width,
            final(self).dirty_lines@ == old(self).dirty_lines@.insert(line_idx, value),
    {
        let previous = self.dirty_lines.insert(line_idx, value);
    }

    /// How many lines were edited.
    pub fn modified_count(&self) -> (r: usize)
        ensures
            r == self.dirty_lines@.len(),
    {
        self.dirty_lines.len()
    }

    /// What saving writes for a line, or `None` behind the last line.
    pub fn save_line(&self, line_idx: usize) -> (r: Option<Vec<u8>>)
        requires
            self.wf(),
        ensures
            match r {
                Some(bytes) => line_idx < self.count() && bytes@ == self.saved_line(
                    line_idx as int,
                ),
                None => line_idx >= self.count(),
            },
    {
        if line_idx >= self.line_count() {
            return None;
        }
        let mut out: Vec<u8> = Vec::new();
        if let Some(updated) = self.dirty_lines.get(&line_idx) {
            out.extend_from_slice(updated.as_str().as_bytes());
            out.push(0x0a);
            proof {
                assert(out@ =~= self.saved_line(line_idx as int));
            }
            return Some(out);
        }
        let slice = self.line_slice(line_idx);
        let len = slice.len();
        out.extend_from_slice(slice);
        if self.line_count() - line_idx == 1 && !(len > 0 && slice[len - 1] == 0x0a) {
            out.push(0x0a);
        }
        proof {
            assert(out@ =~= self.saved_line(line_idx as int));
        }
        Some(out)
    }
}

proof fn lemma_unedited(doc: Document, n: int)
    requires
        doc.wf(),
        0 <= n < doc.count(),
        doc.dirty_lines@ == Map::<usize, String>::empty(),
    ensures
        doc.saved_lines(n) == first_lines(doc.source@, doc.line_offsets@, n),
    decreases n,
{
    if n > 0 {
        lemma_unedited(doc, n - 1);
    }
}

/// Saving without an edit writes the file as it stands, with one more line feed behind it.
pub proof fn law_saving_unedited(doc: Document)
    requires
        doc.wf(),
        doc.dirty_lines@ == Map::<usize, String>::empty(),
    ensures
        doc.saved() == doc.source@.push(0x0a),
{
    let n = doc.count();
    let last = doc.line(n - 1);
    lemma_unedited(doc, n - 1);
    law_lines_make_the_whole(doc.source@, doc.line_offsets@);
    crate::lines::lemma_line_bounds(doc.source@, doc.line_offsets@, n - 1);
    if last.len() > 0 {
        let p = doc.source@.len() - 1;
        crate::lines::lemma_line_feeds(doc.source@, doc.line_offsets@, n - 1, p);
        assert(last.last() == doc.source@[p]);
    }
    assert(doc.saved() =~= doc.source@.push(0x0a));
}

/// `after` is the document `before` with one line given the text `value`.
pub open spec fn is_update(before: Document, after: Document, line: usize, value: String) -> bool {
    &&& after.source == before.source
    &&& after.line_offsets == before.line_offsets
    &&& after.tab_width == before.tab_width
    &&& after.dirty_lines@ == before.dirty_lines@.insert(line, value)
}

/// An edited line is shown with its new text, and every other line as before.
pub proof fn law_edit_changes_one_line(
    before: Document,
    after: Document,
    line: usize,
    value: String,
)
    requires
        is_update(before, after, line, value),
    ensures
        after.text_of(line as int) == value@,
        forall|i: int| 0 <= i && i != line ==> #[trigger] after.text_of(i) == before.text_of(i),
{
}

/// An edited line is saved as its new text with a line feed, and every other line as before; the file
/// itself stays as it is.
pub proof fn law_edit_saves_one_line(before: Document, after: Document, line: usize, value: String)
    requires
        is_update(before, after, line, value),
    ensures
        after.saved_line(line as int) == encode_utf8(value@).push(0x0a),
        forall|i: int| 0 <= i && i != line ==> #[trigger] after.saved_line(i) == before.saved_line(i),
        after.source == before.source,
{
}

} // verus!
