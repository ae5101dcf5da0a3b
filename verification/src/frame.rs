//! One screen: the status bar, the visible lines, the scrollbar and the footer.
use vstd::prelude::*;

use crate::json::{classify_json_line, json_classes, JsonTokenClass};
use crate::layout::{csv_cells, layout_csv, layout_plain, plain_cells, prefix_len, LineContext};
use crate::render::{
    group_runs, segment_runs, visible_cells, Cell, RenderClass, RowBuilder, Run, Segment,
};
use crate::scrollbar::{scrollbar_chars, scrollbar_column};
use crate::text::{clip_to_width, decimal, lesser, push_decimal, saturated};
use crate::viewer::{block_between, range_between, Viewer};
use crate::xml::{classify_xml_line, xml_classes, XmlMode, XmlTokenClass};

verus! {

/// The style class of a class of JSON.
pub open spec fn json_style(class: JsonTokenClass) -> RenderClass {
    match class {
        JsonTokenClass::Text => RenderClass::Text,
        JsonTokenClass::Delimiter => RenderClass::TagDelimiter,
        JsonTokenClass::Key => RenderClass::AttributeName,
        JsonTokenClass::String => RenderClass::AttributeValue,
        JsonTokenClass::Number => RenderClass::TagName,
        JsonTokenClass::Keyword => RenderClass::Comment,
    }
}

/// The style class of a class of XML.
pub open spec fn xml_style(class: XmlTokenClass) -> RenderClass {
    match class {
        XmlTokenClass::Text => RenderClass::Text,
        XmlTokenClass::TagDelimiter => RenderClass::TagDelimiter,
        XmlTokenClass::TagName => RenderClass::TagName,
        XmlTokenClass::AttributeName => RenderClass::AttributeName,
        XmlTokenClass::AttributeValue => RenderClass::AttributeValue,
        XmlTokenClass::Comment => RenderClass::Comment,
    }
}

fn style_of_json(class: JsonTokenClass) -> (r: RenderClass)
    ensures
        r == json_style(class),
{
    match class {
        JsonTokenClass::Text => RenderClass::Text,
        JsonTokenClass::Delimiter => RenderClass::TagDelimiter,
        JsonTokenClass::Key => RenderClass::AttributeName,
        JsonTokenClass::String => RenderClass::AttributeValue,
        JsonTokenClass::Number => RenderClass::TagName,
        JsonTokenClass::Keyword => RenderClass::Comment,
    }
}

fn style_of_xml(class: XmlTokenClass) -> (r: RenderClass)
    ensures
        r == xml_style(class),
{
    match class {
        XmlTokenClass::Text => RenderClass::Text,
        XmlTokenClass::TagDelimiter => RenderClass::TagDelimiter,
        XmlTokenClass::TagName => RenderClass::TagName,
        XmlTokenClass::AttributeName => RenderClass::AttributeName,
        XmlTokenClass::AttributeValue => RenderClass::AttributeValue,
        XmlTokenClass::Comment => RenderClass::Comment,
    }
}

/// One screen, ready to be drawn: the status bar in the first row, the lines below it, the
/// scrollbar beside them in the last column, and the footer in the last row.
pub struct Frame {
    pub status: String,
    pub rows: Vec<Vec<Segment>>,
    pub scrollbar: Vec<char>,
    pub footer: String,
}

/// The rows between the status bar and the footer.
pub open spec fn body_rows(height: u16) -> usize {
    if height >= 2 {
        (height - 2) as usize
    } else {
        0
    }
}

/// The rows between the status bar and the footer of a screen.
pub fn rows_of_body(height: u16) -> (r: usize)
    ensures
        r == body_rows(height),
{
    height.saturating_sub(2) as usize
}

/// The columns that a line can take: all but that of the scrollbar.
pub open spec fn content_width(width: u16) -> usize {
    if width >= 1 {
        (width - 1) as usize
    } else {
        0
    }
}

/// The numbers from `from` up to `to`, without `to`.
pub open spec fn numbers(from: int, to: int) -> Seq<int> {
    Seq::new(
        if from < to {
            (to - from) as nat
        } else {
            0
        },
        |k: int| from + k,
    )
}

/// The lines that `rows` rows show. Where values are aligned the first line stays in the first row,
/// and the others follow behind it.
pub open spec fn visible_lines(top: int, rows: int, count: int, aligned: bool) -> Seq<int> {
    if aligned {
        let start = if top > 1 {
            top
        } else {
            1
        };
        seq![0int] + numbers(start, lesser(start + rows - 1, count))
    } else {
        numbers(top, lesser(top + rows, count))
    }
}

/// The text of the status bar.
pub open spec fn status_text(count: int, top: usize, left: usize) -> Seq<char> {
    "Lines: "@ + decimal(count as nat) + " | Top: "@ + decimal(saturated((top + 1) as nat) as nat)
        + " | Left: "@ + decimal(saturated((left + 1) as nat) as nat)
        + " | q: quit | g: goto | f: find | n/p: next/prev | ←/→ ↑/↓ PgUp/PgDn Home/End"@
}

/// The text of the footer where there is nothing else to say.
pub open spec fn default_footer() -> Seq<char> {
    "Memory-mapped view (renders visible window only)"@
}

/// `text` cut off behind `width` characters.
pub open spec fn clipped(text: Seq<char>, width: int) -> Seq<char> {
    text.take(lesser(width, text.len() as int))
}

impl<'a> Viewer<'a> {
    /// What the layout of line `i` depends on besides its bytes.
    pub open spec fn context(&self, i: int) -> LineContext {
        LineContext {
            line_idx: i as usize,
            line_start: self.line_offsets@[i],
            tab_width: self.tab_width,
            found: self.match_range,
            selected: range_between(self.selection_anchor, self.selection_focus),
            block: block_between(self.block_selection_anchor, self.block_selection_focus),
        }
    }

    /// The style classes of the bytes of a line: none but for the one syntax that is highlighted.
    pub open spec fn styles(&self, line: Seq<u8>) -> Seq<RenderClass> {
        if self.aligned() || self.json_syntax_highlighting == self.xml_syntax_highlighting {
            Seq::empty()
        } else if self.json_syntax_highlighting {
            json_classes(true, line).map_values(|c: JsonTokenClass| json_style(c))
        } else {
            xml_classes(XmlMode::Content, line).map_values(|c: XmlTokenClass| xml_style(c))
        }
    }

    /// The cells that line `i` is laid out as.
    pub open spec fn line_cells(&self, i: int) -> Seq<Cell> {
        let line = self.line(i);
        let skipped = prefix_len(i, line) as int;
        match self.csv_column_widths {
            Some(widths) => csv_cells(
                self.context(i),
                line,
                widths@,
                self.csv_separator->0,
                skipped,
                0,
                0,
                0,
            ),
            None => plain_cells(self.context(i), line, self.styles(line), skipped, 0),
        }
    }

    /// What a row shows of line `i`, given `max_width` columns.
    pub open spec fn row_runs(&self, i: int, max_width: usize) -> Seq<Run> {
        group_runs(visible_cells(self.line_cells(i), self.left_col, max_width))
    }

    fn line_styles(&self, bytes: &[u8]) -> (r: Vec<RenderClass>)
        ensures
            r@ == self.styles(bytes@),
    {
        let mut styles: Vec<RenderClass> = Vec::new();
        if self.csv_column_widths.is_some() || self.json_syntax_highlighting
            == self.xml_syntax_highlighting {
            return styles;
        }
        if self.json_syntax_highlighting {
            let classes = classify_json_line(bytes);
            let mut i: usize = 0;
            while i < classes.len()
                invariant
                    i <= classes@.len(),
                    styles@.len() == i,
                    forall|k: int| 0 <= k < i ==> styles@[k] == json_style(classes@[k]),
                decreases classes.len() - i,
            {
                styles.push(style_of_json(classes[i]));
                i = i + 1;
            }
        } else {
            let classes = classify_xml_line(bytes);
            let mut i: usize = 0;
            while i < classes.len()
                invariant
                    i <= classes@.len(),
                    styles@.len() == i,
                    forall|k: int| 0 <= k < i ==> styles@[k] == xml_style(classes@[k]),
                decreases classes.len() - i,
            {
                styles.push(style_of_xml(classes[i]));
                i = i + 1;
            }
        }
        proof {
            assert(styles@ =~= self.styles(bytes@));
        }
        styles
    }

    /// The segments of the row that shows a line.
    pub fn render_line(&self, line_idx: usize, max_width: usize) -> (r: Vec<Segment>)
        requires
            self.wf(),
            line_idx < self.count(),
        ensures
            segment_runs(r@) == self.row_runs(line_idx as int, max_width),
    {
        let (line_start, line_end) = self.line_range(line_idx);
        let view = self.view_bytes();
        proof {
            assert(view@.len() == view.len());
        }
        let bytes = &view[line_start..line_end];
        let ctx = LineContext {
            line_idx,
            line_start,
            tab_width: self.tab_width,
            found: self.match_range,
            selected: self.selection_range(),
            block: self.block_selection_range(),
        };
        let mut row = RowBuilder::new(self.left_col, max_width);
        match (&self.csv_column_widths, self.csv_separator) {
            (Some(widths), Some(separator)) => {
                layout_csv(&ctx, bytes, widths, separator, &mut row);
            },
            _ => {
                let styles = self.line_styles(bytes);
                layout_plain(&ctx, bytes, &styles, &mut row);
            },
        }
        row.segments
    }

    /// The lines that are visible.
    pub open spec fn lines_in_view(&self, rows: usize) -> Seq<int> {
        visible_lines(self.top_line as int, rows as int, self.count(), self.aligned())
    }

    /// The numbers of the lines that are visible in `rows` rows.
    pub fn visible_line_numbers(&self, rows: usize) -> (r: Vec<usize>)
        requires
            self.wf(),
        ensures
            r@.len() == self.lines_in_view(rows).len(),
            forall|k: int|
                0 <= k < r@.len() ==> #[trigger] r@[k] == self.lines_in_view(rows)[k] && r@[k]
                    < self.count(),
    {
        let count = self.line_count();
        let aligned = self.csv_column_widths.is_some();
        let mut lines: Vec<usize> = Vec::new();
        let mut next: usize = self.top_line;
        let mut left: usize = rows;
        if aligned {
            lines.push(0);
            if next < 1 {
                next = 1;
            }
            left = rows.saturating_sub(1);
        }
        let ghost head = lines@.len();
        let ghost first = next;
        let ghost room = left;
        let ghost want = self.lines_in_view(rows);
        proof {
            assert(want.len() == head + numbers(
                first as int,
                lesser(first + room, count as int),
            ).len());
        }
        while left > 0 && next < count
            invariant
                count == self.count(),
                first <= next,
                first <= count ==> next <= count,
                first > count ==> next == first,
                next - first == room - left,
                left <= room,
                lines@.len() == head + (next - first),
                want == self.lines_in_view(rows),
                want.len() == head + numbers(first as int, lesser(first + room, count as int)).len(),
                head <= 1,
                head == 1 ==> want[0] == 0 && self.count() > 0,
                forall|k: int|
                    head <= k < want.len() ==> want[k] == first + (k - head),
                forall|k: int|
                    0 <= k < lines@.len() ==> #[trigger] lines@[k] == want[k] && lines@[k]
                        < self.count(),
            decreases left,
        {
            lines.push(next);
            next = next + 1;
            left = left - 1;
        }
        lines
    }

    /// The status bar before it is cut to the width of the screen.
    fn status_line(&self) -> (r: String)
        ensures
            r@ == status_text(self.count(), self.top_line, self.left_col),
    {
        let mut out = String::new();
        out.append("Lines: ");
        push_decimal(&mut out, self.line_count());
        out.append(" | Top: ");
        push_decimal(&mut out, self.top_line.saturating_add(1));
        out.append(" | Left: ");
        push_decimal(&mut out, self.left_col.saturating_add(1));
        out.append(" | q: quit | g: goto | f: find | n/p: next/prev | ←/→ ↑/↓ PgUp/PgDn Home/End");
        proof {
            assert(out@ =~= status_text(self.count(), self.top_line, self.left_col));
        }
        out
    }

    /// Lays out the whole screen.
    pub fn render(&self, width: u16, height: u16) -> (r: Frame)
        requires
            self.wf(),
        ensures
            r.status@ == clipped(
                status_text(self.count(), self.top_line, self.left_col),
                width as int,
            ),
            r.rows@.len() == self.lines_in_view(body_rows(height)).len(),
            forall|k: int|
                0 <= k < r.rows@.len() ==> segment_runs((#[trigger] r.rows@[k])@) == self.row_runs(
                    self.lines_in_view(body_rows(height))[k],
                    content_width(width),
                ),
            r.scrollbar@ == if width == 0 {
                Seq::empty()
            } else {
                scrollbar_chars(self.top_line, body_rows(height), self.count() as usize)
            },
            r.footer@ == clipped(
                match self.status_message {
                    Some(text) => text@,
                    None => default_footer(),
                },
                width as int,
            ),
    {
        let rows = rows_of_body(height);
        let max_width: usize = width.saturating_sub(1) as usize;
        let status = clip_to_width(self.status_line().as_str(), width as usize);
        let lines = self.visible_line_numbers(rows);
        let mut shown: Vec<Vec<Segment>> = Vec::new();
        let mut k: usize = 0;
        while k < lines.len()
            invariant
                self.wf(),
                max_width == content_width(width),
                rows == body_rows(height),
                k <= lines@.len(),
                shown@.len() == k,
                forall|j: int|
                    0 <= j < lines@.len() ==> #[trigger] lines@[j] == self.lines_in_view(rows)[j]
                        && lines@[j] < self.count(),
                forall|j: int|
                    0 <= j < k ==> segment_runs((#[trigger] shown@[j])@) == self.row_runs(
                        lines@[j] as int,
                        max_width,
                    ),
            decreases lines.len() - k,
        {
            shown.push(self.render_line(lines[k], max_width));
            k = k + 1;
        }
        let scrollbar: Vec<char> = if width == 0 {
            Vec::new()
        } else {
            scrollbar_column(self.top_line, rows, self.line_count())
        };
        let footer = match &self.status_message {
            Some(text) => clip_to_width(text.as_str(), width as usize),
            None => clip_to_width(
                "Memory-mapped view (renders visible window only)",
                width as usize,
            ),
        };
        Frame { status, rows: shown, scrollbar, footer }
    }
}

/// What a row shows fits into it.
pub proof fn law_row_fits(cells: Seq<Cell>, left: usize, width: usize)
    ensures
        visible_cells(cells, left, width).len() <= width,
{
}

/// Only visible lines are laid out: never more than there are rows, but for the first line,
/// which is always shown where values are aligned.
pub proof fn law_only_visible_lines(top: int, rows: int, count: int, aligned: bool)
    requires
        0 <= top,
        0 <= rows,
    ensures
        visible_lines(top, rows, count, aligned).len() <= if aligned && rows == 0 {
            1
        } else {
            rows
        },
{
}

} // verus!
