//! The state of a viewer on one file, and how it moves.
//!
//! Columns and counts of columns stop at `usize::MAX`.
use vstd::prelude::*;

use crate::csv::{
    are_column_widths, file_fields, is_likeliest_separator, named_separator, resolve_csv_separator,
    CsvSeparatorError,
};
use crate::json_format::{format_json_for_display, formatted_json};
use crate::layout::{
    byte_at_column, char_of_byte, prefix_len, shown_chars, skipped_prefix_len, width_of_byte,
};
use crate::lines::{
    is_line_index, is_line_of, law_line_of_unique, lemma_line_bounds, line_at, line_bytes, line_end,
    line_of,
};
use crate::scrollbar::{row_target, scrollbar_target};
use crate::text::{lesser, saturated};
use crate::xml_format::{format_xml_for_display, formatted_xml};

verus! {

/// A viewer on one file: the file as it is shown, and what of it is visible, found and selected.
pub struct Viewer<'a> {
    /// The bytes of the file.
    pub source: &'a [u8],
    /// The pretty-printed file, where it is shown so.
    pub formatted_view: Option<Vec<u8>>,
    /// Where the lines of the shown bytes start.
    pub line_offsets: Vec<usize>,
    /// The first visible line.
    pub top_line: usize,
    /// The first visible column.
    pub left_col: usize,
    /// The columns that a tab takes.
    pub tab_width: usize,
    /// The widths of the columns, where delimited values are aligned.
    pub csv_column_widths: Option<Vec<usize>>,
    /// The byte that separates delimited values, where they are aligned.
    pub csv_separator: Option<u8>,
    pub xml_syntax_highlighting: bool,
    pub json_syntax_highlighting: bool,
    /// What was searched for last.
    pub search_query: Option<Vec<u8>>,
    /// The offsets of the match that was found last.
    pub match_range: Option<(usize, usize)>,
    /// The offset of the cursor.
    pub cursor_offset: usize,
    /// The offsets between which text is selected.
    pub selection_anchor: Option<usize>,
    pub selection_focus: Option<usize>,
    /// The corners, as line and column, between which a block is selected.
    pub block_selection_anchor: Option<(usize, usize)>,
    pub block_selection_focus: Option<(usize, usize)>,
    /// What the footer says.
    pub status_message: Option<String>,
}

/// The part of a viewer that changes while it is used.
#[verifier::ext_equal]
pub struct ViewState {
    pub top_line: usize,
    pub left_col: usize,
    pub search_query: Option<Seq<u8>>,
    pub match_range: Option<(usize, usize)>,
    pub cursor_offset: usize,
    pub selection_anchor: Option<usize>,
    pub selection_focus: Option<usize>,
    pub block_selection_anchor: Option<(usize, usize)>,
    pub block_selection_focus: Option<(usize, usize)>,
    pub status_message: Option<Seq<char>>,
}

/// The bytes in an optional vector.
pub open spec fn bytes_in(v: Option<Vec<u8>>) -> Option<Seq<u8>> {
    match v {
        Some(b) => Some(b@),
        None => None,
    }
}

/// The text in an optional string.
pub open spec fn text_in(s: Option<String>) -> Option<Seq<char>> {
    match s {
        Some(t) => Some(t@),
        None => None,
    }
}

/// The first visible line that puts `target` into the middle of `rows` rows, as far as there are
/// lines.
pub open spec fn centered(target: int, rows: int, count: int) -> int {
    if count == 0 {
        0
    } else {
        lesser(
            if target >= rows / 2 {
                target - rows / 2
            } else {
                0
            },
            count - 1,
        )
    }
}

/// The first visible line that puts a line into the middle of the viewport.
pub fn centered_top_line(target_line: usize, viewport_rows: usize, line_count: usize) -> (r: usize)
    ensures
        r == centered(target_line as int, viewport_rows as int, line_count as int),
{
    if line_count == 0 {
        return 0;
    }
    let middle: usize = target_line.saturating_sub(viewport_rows / 2);
    if middle < line_count - 1 {
        middle
    } else {
        line_count - 1
    }
}

/// A line that was centred is visible, and in the upper half of the viewport.
pub proof fn law_centered_line_visible(target: int, rows: int, count: int)
    requires
        0 <= target < count,
        rows > 0,
    ensures
        0 <= centered(target, rows, count) <= target,
        target - centered(target, rows, count) <= rows / 2,
        target < centered(target, rows, count) + rows,
{
}

/// `query` stands at `p` in `bytes`.
pub open spec fn matches_at(bytes: Seq<u8>, query: Seq<u8>, p: int) -> bool {
    0 <= p && p + query.len() <= bytes.len() && bytes.subrange(p, p + query.len()) == query
}

/// The first match that starts at `start` or behind it starts at `from`.
pub open spec fn is_next_match(bytes: Seq<u8>, query: Seq<u8>, start: int, from: int) -> bool {
    &&& start <= from
    &&& matches_at(bytes, query, from)
    &&& forall|p: int| start <= p < from ==> !matches_at(bytes, query, p)
}

/// The last match that ends with the byte `last` or before it starts at `from`.
pub open spec fn is_previous_match(bytes: Seq<u8>, query: Seq<u8>, last: int, from: int) -> bool {
    &&& from + query.len() <= last + 1
    &&& matches_at(bytes, query, from)
    &&& forall|p: int| from < p && p + query.len() <= last + 1 ==> !matches_at(bytes, query, p)
}

/// Where the first match stands that starts at `start` or behind it; nothing matches an empty query.
pub open spec fn next_match(bytes: Seq<u8>, query: Seq<u8>, start: usize) -> Option<(usize, usize)> {
    if query.len() > 0 && exists|from: int| is_next_match(bytes, query, start as int, from) {
        let from = choose|from: int| is_next_match(bytes, query, start as int, from);
        Some((from as usize, (from + query.len()) as usize))
    } else {
        None
    }
}

/// Where the last match stands that ends with the byte `start` or before it; nothing matches an
/// empty query.
pub open spec fn previous_match(bytes: Seq<u8>, query: Seq<u8>, start: usize) -> Option<
    (usize, usize),
> {
    if query.len() > 0 && exists|from: int| is_previous_match(bytes, query, start as int, from) {
        let from = choose|from: int| is_previous_match(bytes, query, start as int, from);
        Some((from as usize, (from + query.len()) as usize))
    } else {
        None
    }
}

proof fn lemma_next_match(bytes: Seq<u8>, query: Seq<u8>, start: usize, from: int)
    requires
        query.len() > 0,
        is_next_match(bytes, query, start as int, from),
    ensures
        next_match(bytes, query, start) == Some((from as usize, (from + query.len()) as usize)),
{
    let other = choose|f: int| is_next_match(bytes, query, start as int, f);
    assert(other == from);
}

proof fn lemma_previous_match(bytes: Seq<u8>, query: Seq<u8>, start: usize, from: int)
    requires
        query.len() > 0,
        is_previous_match(bytes, query, start as int, from),
    ensures
        previous_match(bytes, query, start) == Some((from as usize, (from + query.len()) as usize)),
{
    let other = choose|f: int| is_previous_match(bytes, query, start as int, f);
    assert(other == from);
}

/// The next match is the first one, where there is one.
pub proof fn law_next_match(bytes: Seq<u8>, query: Seq<u8>, start: usize) -> (from: int)
    requires
        bytes.len() <= usize::MAX,
        next_match(bytes, query, start) is Some,
    ensures
        is_next_match(bytes, query, start as int, from),
        next_match(bytes, query, start) == Some((from as usize, (from + query.len()) as usize)),
        start <= from <= usize::MAX,
{
    choose|from: int| is_next_match(bytes, query, start as int, from)
}

/// Where `query` stands at `p`, the search for the match before finds it or one behind it.
pub proof fn law_previous_match_exists(bytes: Seq<u8>, query: Seq<u8>, start: usize, p: int)
    requires
        bytes.len() <= usize::MAX,
        query.len() > 0,
        matches_at(bytes, query, p),
        p + query.len() <= start + 1,
    ensures
        previous_match(bytes, query, start) matches Some((from, to)) && p <= from && to == from
            + query.len() && is_previous_match(bytes, query, start as int, from as int),
    decreases start - p,
{
    if exists|q: int|
        p < q && q + query.len() <= start + 1 && #[trigger] matches_at(bytes, query, q) {
        let q = choose|q: int|
            p < q && q + query.len() <= start + 1 && #[trigger] matches_at(bytes, query, q);
        law_previous_match_exists(bytes, query, start, q);
    } else {
        assert(is_previous_match(bytes, query, start as int, p));
        lemma_previous_match(bytes, query, start, p);
    }
}

/// How a file is pretty-printed, if it is: only where it is asked for, not together with aligned
/// values, and for one of the two formats.
pub open spec fn pretty_printed(source: Seq<u8>, csv: bool, xml: bool, format: bool, json: bool) -> Option<
    Seq<u8>,
> {
    if format && !csv && xml && !json {
        Some(formatted_xml(source))
    } else if format && !csv && json && !xml {
        formatted_json(source)
    } else {
        None
    }
}

/// The separator `b` is the one that the user names, else the one that the file suggests.
pub open spec fn is_chosen_separator(user: Option<&str>, bytes: Seq<u8>, b: u8) -> bool {
    match user {
        Some(raw) => named_separator(raw@) == Some(b),
        None => is_likeliest_separator(bytes, b),
    }
}

/// The smaller of two offsets.
pub open spec fn smaller(a: usize, b: usize) -> usize {
    if a <= b {
        a
    } else {
        b
    }
}

/// The larger of two offsets.
pub open spec fn larger(a: usize, b: usize) -> usize {
    if a <= b {
        b
    } else {
        a
    }
}

fn smaller_of(a: usize, b: usize) -> (r: usize)
    ensures
        r == smaller(a, b),
{
    if a <= b {
        a
    } else {
        b
    }
}

fn larger_of(a: usize, b: usize) -> (r: usize)
    ensures
        r == larger(a, b),
{
    if a <= b {
        b
    } else {
        a
    }
}

/// The offsets between `anchor` and `focus`, none where they are the same or one is missing.
pub open spec fn range_between(anchor: Option<usize>, focus: Option<usize>) -> Option<
    (usize, usize),
> {
    match (anchor, focus) {
        (Some(a), Some(b)) => if a == b {
            None
        } else {
            Some((smaller(a, b), larger(a, b)))
        },
        _ => None,
    }
}

/// The block between two corners: first line, last line, left column, right column; none where the
/// corners are the same or one is missing.
pub open spec fn block_between(
    anchor: Option<(usize, usize)>,
    focus: Option<(usize, usize)>,
) -> Option<(usize, usize, usize, usize)> {
    match (anchor, focus) {
        (Some((al, ac)), Some((bl, bc))) => if al == bl && ac == bc {
            None
        } else {
            Some((smaller(al, bl), larger(al, bl), smaller(ac, bc), larger(ac, bc)))
        },
        _ => None,
    }
}

impl<'a> Viewer<'a> {
    /// The bytes that are shown.
    pub open spec fn bytes(&self) -> Seq<u8> {
        match self.formatted_view {
            Some(v) => v@,
            None => self.source@,
        }
    }

    /// How many lines there are.
    pub open spec fn count(&self) -> int {
        self.line_offsets@.len() as int
    }

    /// Delimited values are aligned.
    pub open spec fn aligned(&self) -> bool {
        self.csv_column_widths is Some
    }

    /// What holds of every viewer: the line index is that of the shown bytes, the column
    /// widths are those of their fields, the separator is ASCII, and offsets stay inside.
    pub open spec fn wf(&self) -> bool {
        &&& is_line_index(self.bytes(), self.line_offsets@)
        &&& self.top_line <= self.line_offsets@.len()
        &&& self.cursor_offset <= self.bytes().len()
        &&& (self.selection_anchor matches Some(o) ==> o <= self.bytes().len())
        &&& (self.selection_focus matches Some(o) ==> o <= self.bytes().len())
        &&& (self.csv_column_widths is Some <==> self.csv_separator is Some)
        &&& (self.csv_separator matches Some(b) ==> b < 0x80)
        &&& (self.csv_column_widths matches Some(w) ==> are_column_widths(
            file_fields(self.bytes(), self.csv_separator->0, self.tab_width),
            w@,
        ))
    }

    /// The part of the viewer that changes while it is used.
    pub open spec fn state(&self) -> ViewState {
        ViewState {
            top_line: self.top_line,
            left_col: self.left_col,
            search_query: bytes_in(self.search_query),
            match_range: self.match_range,
            cursor_offset: self.cursor_offset,
            selection_anchor: self.selection_anchor,
            selection_focus: self.selection_focus,
            block_selection_anchor: self.block_selection_anchor,
            block_selection_focus: self.block_selection_focus,
            status_message: text_in(self.status_message),
        }
    }

    /// Both show the same file in the same way.
    pub open spec fn same_file(&self, other: &Self) -> bool {
        &&& self.source == other.source
        &&& self.formatted_view == other.formatted_view
        &&& self.line_offsets == other.line_offsets
        &&& self.tab_width == other.tab_width
        &&& self.csv_column_widths == other.csv_column_widths
        &&& self.csv_separator == other.csv_separator
        &&& self.xml_syntax_highlighting == other.xml_syntax_highlighting
        &&& self.json_syntax_highlighting == other.json_syntax_highlighting
    }

    /// Opens a viewer on the bytes of a file.
    pub fn open(
        source: &'a [u8],
        tab_width: usize,
        csv: bool,
        csv_separator: Option<&str>,
        xml_syntax_highlighting: bool,
        xml_formatting: bool,
        json_syntax_highlighting: bool,
    ) -> (r: Result<Self, CsvSeparatorError>)
        ensures
            match r {
                Ok(v) => {
                    &&& v.wf()
                    &&& v.source == source
                    &&& bytes_in(v.formatted_view) == pretty_printed(
                        source@,
                        csv,
                        xml_syntax_highlighting,
                        xml_formatting,
                        json_syntax_highlighting,
                    )
                    &&& v.tab_width == tab_width
                    &&& v.csv_separator is Some == csv
                    &&& (v.csv_separator matches Some(b) ==> is_chosen_separator(
                        csv_separator,
                        source@,
                        b,
                    ))
                    &&& v.xml_syntax_highlighting == xml_syntax_highlighting
                    &&& v.json_syntax_highlighting == json_syntax_highlighting
                    &&& v.state() == (ViewState {
                        top_line: if csv && v.count() > 1 {
                            1
                        } else {
                            0
                        },
                        left_col: 0,
                        search_query: None,
                        match_range: None,
                        cursor_offset: 0,
                        selection_anchor: None,
                        selection_focus: None,
                        block_selection_anchor: None,
                        block_selection_focus: None,
                        status_message: None,
                    })
                },
                Err(_) => csv && (csv_separator matches Some(raw) && named_separator(raw@) is None),
            },
            r is Err <==> csv && (csv_separator matches Some(raw) && named_separator(raw@) is None),
    {
        let formatted_view: Option<Vec<u8>> = if xml_formatting && !csv {
            if xml_syntax_highlighting && !json_syntax_highlighting {
                Some(format_xml_for_display(source))
            } else if json_syntax_highlighting && !xml_syntax_highlighting {
                format_json_for_display(source)
            } else {
                None
            }
        } else {
            None
        };
        let source_bytes: &[u8] = match &formatted_view {
            Some(v) => v.as_slice(),
            None => source,
        };
        let line_offsets = Self::index_lines(source_bytes);
        let mut separator: Option<u8> = None;
        let mut csv_column_widths: Option<Vec<usize>> = None;
        if csv {
            match resolve_csv_separator(csv_separator, source_bytes) {
                Ok(b) => {
                    separator = Some(b);
                    csv_column_widths =
                    Some(Self::index_csv_column_widths(source_bytes, tab_width, b));
                },
                Err(e) => {
                    return Err(e);
                },
            }
        }
        let top_line: usize = if csv && line_offsets.len() > 1 {
            1
        } else {
            0
        };
        Ok(
            Viewer {
                source,
                formatted_view,
                line_offsets,
                top_line,
                left_col: 0,
                tab_width,
                csv_column_widths,
                csv_separator: separator,
                xml_syntax_highlighting,
                json_syntax_highlighting,
                search_query: None,
                match_range: None,
                cursor_offset: 0,
                selection_anchor: None,
                selection_focus: None,
                block_selection_anchor: None,
                block_selection_focus: None,
                status_message: None,
            },
        )
    }

    /// The bytes that are shown.
    pub fn view_bytes(&self) -> (r: &[u8])
        ensures
            r@ == self.bytes(),
    {
        match &self.formatted_view {
            Some(v) => v.as_slice(),
            None => self.source,
        }
    }

    /// Finds where the lines of `bytes` start.
    pub fn index_lines(bytes: &[u8]) -> (r: Vec<usize>)
        ensures
            is_line_index(bytes@, r@),
    {
        crate::lines::index_lines(bytes)
    }

    /// How many lines there are.
    pub fn line_count(&self) -> (r: usize)
        ensures
            r == self.count(),
    {
        self.line_offsets.len()
    }

    /// How wide each column of `bytes` is.
    pub fn index_csv_column_widths(bytes: &[u8], tab_width: usize, separator: u8) -> (r: Vec<usize>)
        ensures
            are_column_widths(file_fields(bytes@, separator, tab_width), r@),
            r@.len() > 0,
    {
        crate::csv::index_csv_column_widths(bytes, tab_width, separator)
    }

    /// The first line that can be scrolled to: behind the header, which stays in place, where values
    /// are aligned and there is a line behind it.
    pub open spec fn min_top(&self) -> int {
        if self.aligned() && self.count() > 1 {
            1
        } else {
            0
        }
    }

    /// The last line that can be scrolled down to with `viewport_rows` rows; the header takes one of
    /// them where values are aligned.
    pub open spec fn max_top(&self, viewport_rows: usize) -> int {
        let rows = if self.aligned() && viewport_rows > 1 {
            viewport_rows - 1
        } else {
            viewport_rows as int
        };
        if rows < self.count() {
            self.count() - rows
        } else {
            0
        }
    }

    /// The first visible line after scrolling up by `by` lines.
    pub open spec fn up_top(&self, by: usize) -> int {
        if self.top_line - by > self.min_top() {
            self.top_line - by
        } else {
            self.min_top()
        }
    }

    /// The first visible line after scrolling down by `by` lines.
    pub open spec fn down_top(&self, by: usize, viewport_rows: usize) -> int {
        let down = lesser(self.top_line + by, self.max_top(viewport_rows));
        if down > self.min_top() {
            down
        } else {
            self.min_top()
        }
    }

    fn first_top(&self) -> (r: usize)
        ensures
            r == self.min_top(),
    {
        if self.csv_column_widths.is_some() && self.line_count() > 1 {
            1
        } else {
            0
        }
    }

    /// Scrolls up by `by` lines, as far as there are lines.
    pub fn scroll_up(&mut self, by: usize)
        requires
            old(self).wf(),
        ensures
            final(self).wf(),
            final(self).same_file(old(self)),
            final(self).state() == (ViewState {
                top_line: old(self).up_top(by) as usize,
                ..old(self).state()
            }),
            0 <= old(self).up_top(by) <= old(self).count(),
    {
        let min_top = self.first_top();
        let up: usize = self.top_line.saturating_sub(by);
        self.top_line = larger_of(up, min_top);
    }

    /// Scrolls down by `by` lines, as far as there are lines.
    pub fn scroll_down(&mut self, by: usize, viewport_rows: usize)
        requires
            old(self).wf(),
        ensures
            final(self).wf(),
            final(self).same_file(old(self)),
            final(self).state() == (ViewState {
                top_line: old(self).down_top(by, viewport_rows) as usize,
                ..old(self).state()
            }),
            0 <= old(self).down_top(by, viewport_rows) <= old(self).count(),
    {
        let visible_rows: usize = if self.csv_column_widths.is_some() && viewport_rows > 1 {
            viewport_rows - 1
        } else {
            viewport_rows
        };
        let max_top: usize = self.line_count().saturating_sub(visible_rows);
        let min_top = self.first_top();
        let down: usize = smaller_of(self.top_line.saturating_add(by), max_top);
        self.top_line = larger_of(down, min_top);
    }

    /// Scrolls left by `by` columns, to the first column at most.
    pub fn scroll_left(&mut self, by: usize)
        requires
            old(self).wf(),
        ensures
            final(self).wf(),
            final(self).same_file(old(self)),
            final(self).state() == (ViewState {
                left_col: if by <= old(self).left_col {
                    (old(self).left_col - by) as usize
                } else {
                    0
                },
                ..old(self).state()
            }),
    {
        self.left_col = self.left_col.saturating_sub(by);
    }

    /// Scrolls right by `by` columns.
    pub fn scroll_right(&mut self, by: usize)
        requires
            old(self).wf(),
        ensures
            final(self).wf(),
            final(self).same_file(old(self)),
            final(self).state() == (ViewState {
                left_col: saturated((old(self).left_col + by) as nat),
                ..old(self).state()
            }),
    {
        self.left_col = self.left_col.saturating_add(by);
    }

    /// The first visible line after the row `screen_row` of the scrollbar was pressed. The row
    /// zero of the screen is the status bar. Where every line is visible nothing scrolls.
    pub open spec fn scrollbar_top(&self, screen_row: usize, body_rows: usize) -> int {
        if body_rows == 0 || self.count() <= body_rows {
            self.top_line as int
        } else {
            let row = lesser(
                if screen_row > 0 {
                    screen_row - 1
                } else {
                    0
                },
                body_rows - 1,
            );
            let target = row_target(row as usize, body_rows, self.count() as usize);
            if target > self.min_top() {
                target
            } else {
                self.min_top()
            }
        }
    }

    /// Scrolls to where the row `screen_row` of the scrollbar points.
    pub fn scroll_to_scrollbar_row(&mut self, screen_row: usize, body_rows: usize)
        requires
            old(self).wf(),
        ensures
            final(self).wf(),
            final(self).same_file(old(self)),
            final(self).state() == (ViewState {
                top_line: old(self).scrollbar_top(screen_row, body_rows) as usize,
                ..old(self).state()
            }),
            0 <= old(self).scrollbar_top(screen_row, body_rows) <= old(self).count(),
    {
        let line_count = self.line_count();
        if body_rows == 0 || line_count <= body_rows {
            return ;
        }
        let row: usize = smaller_of(screen_row.saturating_sub(1), body_rows - 1);
        let target = scrollbar_target(row, body_rows, line_count);
        let min_top = self.first_top();
        self.top_line = larger_of(target, min_top);
    }

    /// The line that holds `offset`.
    pub fn line_of_offset(&self, offset: usize) -> (r: usize)
        requires
            self.wf(),
        ensures
            is_line_of(self.line_offsets@, offset, r as int),
            r == line_of(self.line_offsets@, offset),
            r < self.count(),
    {
        let line = line_at(&self.line_offsets, offset);
        proof {
            law_line_of_unique(
                self.bytes(),
                self.line_offsets@,
                offset,
                line as int,
                line_of(self.line_offsets@, offset),
            );
        }
        line
    }

    /// The state in which the match at `start..end` is marked and its line stands in the middle of
    /// the viewport.
    pub open spec fn with_match(&self, start: usize, end: usize, viewport_rows: usize) -> ViewState {
        ViewState {
            match_range: Some((start, end)),
            top_line: centered(
                line_of(self.line_offsets@, start),
                larger(viewport_rows, 1) as int,
                self.count(),
            ) as usize,
            ..self.state()
        }
    }

    /// Marks the match at `start..end` and puts its line into the middle of the viewport.
    pub fn set_match(&mut self, start: usize, end: usize, viewport_rows: usize)
        requires
            old(self).wf(),
        ensures
            final(self).wf(),
            final(self).same_file(old(self)),
            final(self).state() == old(self).with_match(start, end, viewport_rows),
    {
        let line = self.line_of_offset(start);
        let rows = larger_of(viewport_rows, 1);
        self.match_range = Some((start, end));
        self.top_line = centered_top_line(line, rows, self.line_count());
    }

    /// The first match of `query` that starts at `start` or behind it.
    pub fn find_forward(&self, query: &[u8], start: usize) -> (r: Option<(usize, usize)>)
        ensures
            r == next_match(self.bytes(), query@, start),
            match r {
                Some((from, to)) => query@.len() > 0 && to == from + query@.len() && is_next_match(
                    self.bytes(),
                    query@,
                    start as int,
                    from as int,
                ),
                None => query@.len() == 0 || forall|p: int|
                    start <= p ==> !matches_at(self.bytes(), query@, p),
            },
    {
        let bytes = self.view_bytes();
        if query.len() == 0 || start >= bytes.len() {
            return None;
        }
        let mut at: usize = start;
        while at < bytes.len()
            invariant
                bytes@ == self.bytes(),
                start <= at <= bytes@.len(),
                query@.len() > 0,
                forall|p: int| start <= p < at ==> !matches_at(self.bytes(), query@, p),
            decreases bytes.len() - at,
        {
            if query_at(bytes, query, at) {
                proof {
                    lemma_next_match(bytes@, query@, start, at as int);
                }
                return Some((at, at + query.len()));
            }
            at = at + 1;
        }
        None
    }

    /// The last match of `query` that ends at the byte `start` or before it.
    pub fn find_backward(&self, query: &[u8], start: usize) -> (r: Option<(usize, usize)>)
        ensures
            r == previous_match(self.bytes(), query@, start),
            match r {
                Some((from, to)) => query@.len() > 0 && to == from + query@.len()
                    && is_previous_match(self.bytes(), query@, start as int, from as int),
                None => query@.len() == 0 || forall|p: int|
                    p + query@.len() <= start + 1 ==> !matches_at(self.bytes(), query@, p),
            },
    {
        let bytes = self.view_bytes();
        if query.len() == 0 || bytes.len() == 0 {
            return None;
        }
        let end: usize = smaller_of(start.saturating_add(1), bytes.len());
        if end < query.len() {
            return None;
        }
        let mut left: usize = end - query.len() + 1;
        while left > 0
            invariant
                bytes@ == self.bytes(),
                query@.len() > 0,
                query@.len() <= end <= bytes@.len(),
                end <= start + 1,
                end == bytes@.len() || end == start + 1,
                left <= end - query@.len() + 1,
                forall|p: int|
                    left <= p && p + query@.len() <= start + 1 ==> !matches_at(
                        self.bytes(),
                        query@,
                        p,
                    ),
            decreases left,
        {
            if query_at(bytes, query, left - 1) {
                proof {
                    lemma_previous_match(bytes@, query@, start, left - 1);
                }
                return Some((left - 1, left - 1 + query.len()));
            }
            left = left - 1;
        }
        None
    }

    /// The offsets that are selected.
    pub fn selection_range(&self) -> (r: Option<(usize, usize)>)
        ensures
            r == range_between(self.selection_anchor, self.selection_focus),
    {
        match (self.selection_anchor, self.selection_focus) {
            (Some(a), Some(b)) => if a == b {
                None
            } else {
                Some((smaller_of(a, b), larger_of(a, b)))
            },
            _ => None,
        }
    }

    /// Selects nothing.
    pub fn clear_selection(&mut self)
        requires
            old(self).wf(),
        ensures
            final(self).wf(),
            final(self).same_file(old(self)),
            final(self).state() == (ViewState {
                selection_anchor: None,
                selection_focus: None,
                block_selection_anchor: None,
                block_selection_focus: None,
                ..old(self).state()
            }),
    {
        self.selection_anchor = None;
        self.selection_focus = None;
        self.block_selection_anchor = None;
        self.block_selection_focus = None;
    }

    /// The block that is selected.
    pub fn block_selection_range(&self) -> (r: Option<(usize, usize, usize, usize)>)
        ensures
            r == block_between(self.block_selection_anchor, self.block_selection_focus),
    {
        match (self.block_selection_anchor, self.block_selection_focus) {
            (Some((a_line, a_col)), Some((b_line, b_col))) => if a_line == b_line && a_col
                == b_col {
                None
            } else {
                Some(
                    (
                        smaller_of(a_line, b_line),
                        larger_of(a_line, b_line),
                        smaller_of(a_col, b_col),
                        larger_of(a_col, b_col),
                    ),
                )
            },
            _ => None,
        }
    }

    /// The bytes of line `i`, its line feed included.
    pub open spec fn line(&self, i: int) -> Seq<u8> {
        line_bytes(self.bytes(), self.line_offsets@, i)
    }

    /// Where line `i` ends.
    pub open spec fn end_of_line(&self, i: int) -> int {
        line_end(self.bytes(), self.line_offsets@, i)
    }

    /// Where line `line_idx` starts and ends.
    pub fn line_range(&self, line_idx: usize) -> (r: (usize, usize))
        requires
            self.wf(),
            line_idx < self.count(),
        ensures
            r.0 == self.line_offsets@[line_idx as int],
            r.1 == self.end_of_line(line_idx as int),
            r.0 <= r.1 <= self.bytes().len(),
    {
        proof {
            lemma_line_bounds(self.bytes(), self.line_offsets@, line_idx as int);
        }
        let line_start = self.line_offsets[line_idx];
        let line_end: usize = if self.line_offsets.len() - line_idx > 1 {
            self.line_offsets[line_idx + 1]
        } else {
            self.view_bytes().len()
        };
        (line_start, line_end)
    }

    /// The characters that a line shows, without padding.
    pub fn line_display_chars(&self, line_idx: usize) -> (r: Vec<char>)
        requires
            self.wf(),
            line_idx < self.count(),
        ensures
            r@ == shown_chars(
                self.line(line_idx as int),
                self.tab_width as nat,
                prefix_len(line_idx as int, self.line(line_idx as int)) as int,
            ),
    {
        let (line_start, line_end) = self.line_range(line_idx);
        let bytes = &self.view_bytes()[line_start..line_end];
        let mut i: usize = skipped_prefix_len(line_idx, bytes);
        let mut out: Vec<char> = Vec::new();
        let ghost all = shown_chars(bytes@, self.tab_width as nat, i as int);
        proof {
            assert(out@ + all =~= all);
        }
        while i < bytes.len()
            invariant
                i <= bytes@.len(),
                all == out@ + shown_chars(bytes@, self.tab_width as nat, i as int),
            decreases bytes.len() - i,
        {
            let b = bytes[i];
            let ghost before = out@;
            if b != 0x0a && b != 0x0d {
                let width = width_of_byte(b, self.tab_width);
                let ch = char_of_byte(b);
                let mut k: usize = 0;
                while k < width
                    invariant
                        k <= width,
                        out@ == before + Seq::new(k as nat, |j: int| ch),
                    decreases width - k,
                {
                    out.push(ch);
                    k = k + 1;
                    proof {
                        assert(out@ =~= before + Seq::new(k as nat, |j: int| ch));
                    }
                }
                proof {
                    let rest = shown_chars(bytes@, self.tab_width as nat, i + 1);
                    assert(all =~= out@ + rest);
                }
            }
            i = i + 1;
        }
        proof {
            assert(out@ + Seq::<char>::empty() =~= out@);
        }
        out
    }

    /// Where line `i` starts and ends; a line that does not exist stands for the whole file.
    pub open spec fn span(&self, i: int) -> (int, int) {
        if 0 <= i < self.count() {
            (self.line_offsets@[i] as int, self.end_of_line(i))
        } else {
            (0, self.bytes().len() as int)
        }
    }

    /// The offset of the byte that line `i` shows at the column `target` or first behind it, or of
    /// the last byte of the line where it ends before.
    pub open spec fn offset_at(&self, i: int, target: usize) -> int {
        let (start, end) = self.span(i);
        let line = self.bytes().subrange(start, end);
        match byte_at_column(
            line,
            self.tab_width as nat,
            prefix_len(i, line) as int,
            0,
            target as nat,
        ) {
            Some(k) => start + k,
            None => if end > 0 {
                end - 1
            } else {
                0
            },
        }
    }

    /// The offset that stands at the column `target_col` of a line.
    pub fn offset_for_line_col(&self, line_idx: usize, target_col: usize) -> (r: usize)
        requires
            self.wf(),
        ensures
            r == self.offset_at(line_idx as int, target_col),
            r <= self.bytes().len(),
    {
        let (line_start, line_end) = if line_idx < self.line_count() {
            self.line_range(line_idx)
        } else {
            (0, self.view_bytes().len())
        };
        let bytes = &self.view_bytes()[line_start..line_end];
        let mut i: usize = skipped_prefix_len(line_idx, bytes);
        let mut visual_col: usize = 0;
        let ghost mut col: nat = 0;
        let ghost found = byte_at_column(
            bytes@,
            self.tab_width as nat,
            i as int,
            0,
            target_col as nat,
        );
        while i < bytes.len()
            invariant
                i <= bytes@.len(),
                visual_col == saturated(col),
                line_start + bytes@.len() == line_end <= self.bytes().len(),
                self.offset_at(line_idx as int, target_col) == match found {
                    Some(k) => line_start + k,
                    None => if line_end > 0 {
                        line_end - 1
                    } else {
                        0
                    },
                },
                found == byte_at_column(
                    bytes@,
                    self.tab_width as nat,
                    i as int,
                    col,
                    target_col as nat,
                ),
            decreases bytes.len() - i,
        {
            let b = bytes[i];
            if b != 0x0a && b != 0x0d {
                if visual_col >= target_col {
                    return line_start + i;
                }
                let width = width_of_byte(b, self.tab_width);
                visual_col = visual_col.saturating_add(width);
                proof {
                    col = col + width as nat;
                }
            }
            i = i + 1;
        }
        line_end.saturating_sub(1)
    }
}

/// Tells whether `query` stands at `at`.
fn query_at(bytes: &[u8], query: &[u8], at: usize) -> (r: bool)
    requires
        at <= bytes@.len(),
    ensures
        r == matches_at(bytes@, query@, at as int),
{
    if query.len() > bytes.len() - at {
        return false;
    }
    let len = bytes.len();
    let mut i: usize = 0;
    while i < query.len()
        invariant
            i <= query@.len(),
            len == bytes@.len(),
            at + query@.len() <= bytes@.len(),
            forall|j: int| 0 <= j < i ==> bytes@[at + j] == query@[j],
        decreases query.len() - i,
    {
        if bytes[at + i] != query[i] {
            proof {
                assert(bytes@.subrange(at as int, at + query@.len())[i as int] != query@[i as int]);
            }
            return false;
        }
        i = i + 1;
    }
    proof {
        assert(bytes@.subrange(at as int, at + query@.len()) =~= query@);
    }
    true
}

} // verus!
