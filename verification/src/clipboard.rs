//! What is copied, and what the footer says about it.
use vstd::prelude::*;
use vstd::utf8::{decode_utf8, valid_utf8};

use crate::layout::{prefix_len, shown_chars};
use crate::text::{decimal, lesser, push_decimal};
use crate::viewer::{block_between, range_between, ViewState, Viewer};

verus! {

/// The text that `String::from_utf8_lossy` makes of bytes.
pub uninterp spec fn lossy_text(bytes: Seq<u8>) -> Seq<char>;

/// `String::from_utf8_lossy`: its text is a function of the bytes alone, and where they are valid
/// UTF-8 it is the text that they encode.
#[verifier::external_body]
pub(crate) fn text_of_bytes(bytes: &[u8]) -> (r: String)
    ensures
        r@ == lossy_text(bytes@),
        valid_utf8(bytes@) ==> r@ == decode_utf8(bytes@),
{
    String::from_utf8_lossy(bytes).to_string()
}

/// Something to copy: its text, and for selected text how many bytes were selected; a block
/// has no such count.
pub struct CopyRequest {
    pub text: String,
    pub bytes: Option<usize>,
}

/// What became of a copy.
#[derive(Clone, Copy, Debug, PartialEq, Eq, Structural)]
pub enum CopyOutcome {
    /// The clipboard took the text.
    Copied,
    /// The clipboard refused the text.
    Failed,
    /// There is no clipboard.
    Unavailable,
}

/// The characters `left` to `right` of `chars`, as far as there are any.
pub open spec fn columns(chars: Seq<char>, left: usize, right: usize) -> Seq<char> {
    let len = chars.len() as int;
    chars.subrange(lesser(left as int, len), lesser(right + 1, len))
}

/// What the footer says after a copy, `bytes` being the count of a request.
pub open spec fn copy_message(bytes: Option<usize>, outcome: CopyOutcome) -> Seq<char> {
    match outcome {
        CopyOutcome::Copied => match bytes {
            Some(n) => "Copied "@ + decimal(n as nat) + " bytes to clipboard"@,
            None => "Copied block selection to clipboard"@,
        },
        CopyOutcome::Failed => "Failed to copy selection to clipboard"@,
        CopyOutcome::Unavailable => "Clipboard unavailable in this environment"@,
    }
}

impl<'a> Viewer<'a> {
    /// The characters that line `i` shows, without padding.
    pub open spec fn chars_of_line(&self, i: int) -> Seq<char> {
        shown_chars(self.line(i), self.tab_width as nat, prefix_len(i, self.line(i)) as int)
    }

    /// The text of a block from the line `line` on: for each line that exists the columns of the
    /// block, and a line feed behind every line but the last of the block.
    pub open spec fn block_text(&self, line: int, bottom: usize, left: usize, right: usize) -> Seq<
        char,
    >
        decreases bottom - line + 1,
    {
        if line < 0 || line > bottom || line >= self.count() {
            Seq::empty()
        } else {
            let row = columns(self.chars_of_line(line), left, right);
            if line < bottom {
                row.push('\n') + self.block_text(line + 1, bottom, left, right)
            } else {
                row
            }
        }
    }

    /// The selected block, where there is one.
    pub open spec fn block(&self) -> Option<(usize, usize, usize, usize)> {
        block_between(self.block_selection_anchor, self.block_selection_focus)
    }

    /// The selected range, where there is one.
    pub open spec fn selection(&self) -> Option<(usize, usize)> {
        range_between(self.selection_anchor, self.selection_focus)
    }

    /// The text of the selected block.
    pub fn copied_block(&self, top: usize, bottom: usize, left: usize, right: usize) -> (r: String)
        requires
            self.wf(),
            left <= right,
        ensures
            r@ == self.block_text(top as int, bottom, left, right),
    {
        let mut text = String::new();
        let mut line: usize = top;
        let count = self.line_count();
        let ghost all = self.block_text(top as int, bottom, left, right);
        let mut more: bool = true;
        proof {
            assert(text@ + all =~= all);
        }
        while more && line <= bottom && line < count
            invariant
                self.wf(),
                left <= right,
                count == self.count(),
                top <= line,
                more ==> all == text@ + self.block_text(line as int, bottom, left, right),
                !more ==> all == text@,
            decreases count - line, if more { 1int } else { 0int },
        {
            let ghost before = text@;
            let chars = self.line_display_chars(line);
            let len = chars.len();
            let start: usize = if left < len {
                left
            } else {
                len
            };
            let past: usize = right.saturating_add(1);
            let end: usize = if past < len {
                past
            } else {
                len
            };
            let ghost row = columns(chars@, left, right);
            proof {
                assert(row =~= chars@.subrange(start as int, end as int));
                assert(text@ =~= before + row.take(0));
            }
            let mut k: usize = start;
            while k < end
                invariant
                    start <= k <= end <= chars@.len(),
                    row == chars@.subrange(start as int, end as int),
                    text@ == before + row.take(k - start),
                decreases end - k,
            {
                text.push(chars[k]);
                k = k + 1;
                proof {
                    assert(text@ =~= before + row.take(k - start));
                }
            }
            proof {
                assert(row.take(k - start) =~= row);
            }
            if line < bottom {
                text.push('\n');
                proof {
                    assert(all =~= text@ + self.block_text(line + 1, bottom, left, right));
                }
                line = line + 1;
            } else {
                proof {
                    assert(all =~= text@);
                }
                more = false;
            }
        }
        proof {
            assert(text@ + Seq::<char>::empty() =~= text@);
        }
        text
    }

    /// What there is to copy: the selected block, else the selected text.
    pub fn selection_to_copy(&self) -> (r: Option<CopyRequest>)
        requires
            self.wf(),
        ensures
            match (self.block(), self.selection()) {
                (Some((top, bottom, left, right)), _) => r matches Some(request) && request.text@
                    == self.block_text(top as int, bottom, left, right) && request.bytes is None,
                (None, Some((start, end))) => ({
                    let part = self.bytes().subrange(start as int, end as int);
                    &&& r matches Some(request)
                    &&& request.text@ == lossy_text(part)
                    &&& valid_utf8(part) ==> request.text@ == decode_utf8(part)
                    &&& request.bytes == Some((end - start) as usize)
                }),
                (None, None) => r is None,
            },
    {
        if let Some((top, bottom, left, right)) = self.block_selection_range() {
            return Some(
                CopyRequest { text: self.copied_block(top, bottom, left, right), bytes: None },
            );
        }
        match self.selection_range() {
            Some((start, end)) => {
                let part = &self.view_bytes()[start..end];
                Some(CopyRequest { text: text_of_bytes(part), bytes: Some(end - start) })
            },
            None => None,
        }
    }

    /// Says in the footer what became of a copy.
    pub fn finish_copy(&mut self, bytes: Option<usize>, outcome: CopyOutcome)
        requires
            old(self).wf(),
        ensures
            final(self).wf(),
            final(self).same_file(old(self)),
            final(self).state() == (ViewState {
                status_message: Some(copy_message(bytes, outcome)),
                ..old(self).state()
            }),
    {
        let message: String = match outcome {
            CopyOutcome::Copied => match bytes {
                Some(n) => {
                    let mut text = String::new();
                    text.append("Copied ");
                    push_decimal(&mut text, n);
                    text.append(" bytes to clipboard");
                    proof {
                        assert(text@ =~= copy_message(bytes, outcome));
                    }
                    text
                },
                None => "Copied block selection to clipboard".to_owned(),
            },
            CopyOutcome::Failed => "Failed to copy selection to clipboard".to_owned(),
            CopyOutcome::Unavailable => "Clipboard unavailable in this environment".to_owned(),
        };
        self.status_message = Some(message);
    }
}

} // verus!
