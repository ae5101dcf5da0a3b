//! What holds of every viewer: what scrolling, jumping, searching and pointing lead to.
use vstd::prelude::*;

use crate::csv::byte_width;
use crate::events::goto_top;
use crate::frame::visible_lines;
use crate::layout::{
    byte_at_column, byte_char, class_at, law_plain_cells_show_chars, lemma_byte_at_column,
    plain_cells, prefix_len, shown_chars, takes_no_room, LineContext,
};
use crate::lines::{is_line_of, law_line_of_unique, lemma_line_bounds, line_of};
use crate::render::{Cell, RenderClass};
use crate::json_format::formatted_json;
use crate::scrollbar::row_target;
use crate::viewer::{
    block_between, centered, is_next_match, is_previous_match, larger, law_next_match,
    law_previous_match_exists, matches_at, next_match, pretty_printed, previous_match,
    range_between, Viewer,
};
use crate::xml_format::formatted_xml;

verus! {

/// A line that exists is in view where its number lies between the first visible line and the end
/// of the viewport.
proof fn lemma_in_view(top: int, rows: int, count: int, aligned: bool, i: int)
    requires
        0 <= i < count,
        0 <= top,
    ensures
        !aligned && top <= i < top + rows ==> visible_lines(top, rows, count, aligned).contains(i),
        aligned && i == 0 ==> visible_lines(top, rows, count, aligned).contains(i),
        aligned && (if top > 1 {
            top
        } else {
            1
        }) <= i < (if top > 1 {
            top
        } else {
            1
        }) + rows - 1 ==> visible_lines(top, rows, count, aligned).contains(i),
{
    let lines = visible_lines(top, rows, count, aligned);
    if aligned {
        let start = if top > 1 {
            top
        } else {
            1
        };
        if i == 0 {
            assert(lines[0] == 0);
        } else if start <= i < start + rows - 1 {
            assert(lines[1 + (i - start)] == i);
        }
    } else if top <= i < top + rows {
        assert(lines[i - top] == i);
    }
}

/// A `usize` can count the bytes and the lines.
pub proof fn lemma_countable(v: Viewer)
    ensures
        v.bytes().len() <= usize::MAX,
        v.count() <= usize::MAX,
{
    match v.formatted_view {
        Some(view) => {
            assert(view@.len() == view.len());
        },
        None => {
            assert(v.source@.len() == v.source.len());
        },
    }
    assert(v.line_offsets@.len() == v.line_offsets.len());
}

/// Pointing leads to an offset of the file.
pub proof fn lemma_offset_inside(v: Viewer, i: int, col: usize)
    requires
        v.wf(),
        0 <= i < v.count(),
    ensures
        0 <= v.offset_at(i, col) <= v.bytes().len(),
{
    let line = v.line(i);
    lemma_line_bounds(v.bytes(), v.line_offsets@, i);
    lemma_byte_at_column(line, v.tab_width as nat, prefix_len(i, line) as int, 0, col as nat);
}

/// Where values are aligned, the first line stays in the first row, and scrolling never shows it
/// a second time.
pub proof fn law_header_stays(v: Viewer, by: usize, rows: usize, screen_row: usize)
    requires
        v.wf(),
        v.aligned(),
    ensures
        v.lines_in_view(rows)[0] == 0,
        forall|k: int|
            1 <= k < v.lines_in_view(rows).len() ==> #[trigger] v.lines_in_view(rows)[k] >= 1,
        v.count() > 1 ==> v.up_top(by) >= 1 && v.down_top(by, rows) >= 1,
        v.count() > rows && rows > 0 ==> v.scrollbar_top(screen_row, rows) >= 1,
{
}

/// Home shows the first line.
pub proof fn law_home_shows_first_line(v: Viewer, rows: usize)
    requires
        v.wf(),
        rows >= 1,
    ensures
        visible_lines(0, rows as int, v.count(), v.aligned()).contains(0),
{
    lemma_in_view(0, rows as int, v.count(), v.aligned(), 0);
}

/// End shows the last line, wherever it starts from. One row has no room for it beside the
/// header of aligned values.
pub proof fn law_end_shows_last_line(v: Viewer, rows: usize)
    requires
        v.wf(),
        rows >= 1,
        v.aligned() && v.count() > 1 ==> rows >= 2,
    ensures
        v.down_top(usize::MAX, rows) == if v.max_top(rows) > v.min_top() {
            v.max_top(rows)
        } else {
            v.min_top()
        },
        visible_lines(
            v.down_top(usize::MAX, rows),
            rows as int,
            v.count(),
            v.aligned(),
        ).contains(v.count() - 1),
{
    lemma_countable(v);
    lemma_in_view(
        v.down_top(usize::MAX, rows),
        rows as int,
        v.count(),
        v.aligned(),
        v.count() - 1,
    );
}

/// Wherever it is scrolled to, the first visible line exists.
pub proof fn law_scrolling_stays_inside(v: Viewer, by: usize, rows: usize, screen_row: usize)
    requires
        v.wf(),
        v.top_line < v.count(),
        rows >= 1,
    ensures
        0 <= v.up_top(by) < v.count(),
        0 <= v.down_top(by, rows) < v.count(),
        0 <= v.scrollbar_top(screen_row, rows) < v.count(),
{
}

/// Scrolling up by as many lines as it was scrolled down by leads back.
pub proof fn law_down_then_up(v: Viewer, w: Viewer, by: usize, rows: usize)
    requires
        w.same_file(&v),
        w.top_line == v.down_top(by, rows),
        v.min_top() <= v.top_line,
        v.top_line + by <= v.max_top(rows),
    ensures
        w.up_top(by) == v.top_line,
{
}

/// Scrolling down by as many lines as it was scrolled up by leads back.
pub proof fn law_up_then_down(v: Viewer, w: Viewer, by: usize, rows: usize)
    requires
        w.same_file(&v),
        w.top_line == v.up_top(by),
        v.min_top() <= v.top_line - by,
        v.top_line <= v.max_top(rows),
    ensures
        w.down_top(by, rows) == v.top_line,
{
}

/// A page down skips no line: what lies between is visible before it or after it. Where values are
/// aligned the header takes a row of the page, and one line is skipped.
pub proof fn law_page_down_skips_nothing(v: Viewer, w: Viewer, rows: usize, i: int)
    requires
        v.wf(),
        !v.aligned(),
        rows >= 1,
        w.same_file(&v),
        w.top_line == v.down_top(larger(rows, 1), rows),
        v.top_line <= i < w.top_line + rows,
        i < v.count(),
    ensures
        v.lines_in_view(rows).contains(i) || w.lines_in_view(rows).contains(i),
{
    lemma_in_view(v.top_line as int, rows as int, v.count(), false, i);
    lemma_in_view(w.top_line as int, rows as int, v.count(), false, i);
}

/// A viewport of `rows` rows has room for the line `i` behind a line that was centred on it.
/// Beside a header two rows show one line only, and one row none.
pub open spec fn has_room(rows: usize, aligned: bool, i: int) -> bool {
    if aligned {
        rows >= 3 || i == 0 || (rows == 2 && i == 1)
    } else {
        rows >= 1
    }
}

proof fn lemma_centered_in_view(rows: usize, count: int, aligned: bool, i: int)
    requires
        0 <= i < count,
        has_room(rows, aligned, i),
    ensures
        visible_lines(
            centered(i, larger(rows, 1) as int, count),
            rows as int,
            count,
            aligned,
        ).contains(i),
{
    let top = centered(i, larger(rows, 1) as int, count);
    lemma_in_view(top, rows as int, count, aligned, i);
}

/// Going to a line shows it; a number behind the last line leads to the last line.
pub proof fn law_goto_shows_line(v: Viewer, number: usize, rows: usize)
    requires
        v.wf(),
        number >= 1,
        has_room(
            rows,
            v.aligned(),
            if number <= v.count() {
                number - 1
            } else {
                v.count() - 1
            },
        ),
    ensures
        visible_lines(
            goto_top(number, rows, v.count()),
            rows as int,
            v.count(),
            v.aligned(),
        ).contains(
            if number <= v.count() {
                number - 1
            } else {
                v.count() - 1
            },
        ),
{
    lemma_centered_in_view(
        rows,
        v.count(),
        v.aligned(),
        if number <= v.count() {
            number - 1
        } else {
            v.count() - 1
        },
    );
}

/// A match that was found is shown.
pub proof fn law_match_is_shown(v: Viewer, i: int, start: usize, end: usize, rows: usize)
    requires
        v.wf(),
        is_line_of(v.line_offsets@, start, i),
        has_room(rows, v.aligned(), i),
    ensures
        visible_lines(
            v.with_match(start, end, rows).top_line as int,
            rows as int,
            v.count(),
            v.aligned(),
        ).contains(i),
{
    law_line_of_unique(
        v.bytes(),
        v.line_offsets@,
        start,
        i,
        line_of(v.line_offsets@, start),
    );
    lemma_countable(v);
    lemma_centered_in_view(rows, v.count(), v.aligned(), i);
}

/// The match before the next match is the match that the search started from, or one that overlaps
/// it.
pub proof fn law_previous_undoes_next(bytes: Seq<u8>, query: Seq<u8>, from: usize, to: usize)
    requires
        bytes.len() <= usize::MAX,
        query.len() > 0,
        matches_at(bytes, query, from as int),
        to == from + query.len(),
        next_match(bytes, query, to) is Some,
    ensures
        ({
            let next = next_match(bytes, query, to)->0;
            let back = previous_match(bytes, query, (next.0 - 1) as usize);
            &&& to <= next.0
            &&& back matches Some((p, _)) && from <= p < to && matches_at(bytes, query, p as int)
            &&& (forall|p: int| from < p < to ==> !matches_at(bytes, query, p)) ==> back == Some(
                (from, to),
            )
        }),
{
    let next = law_next_match(bytes, query, to);
    law_previous_match_exists(bytes, query, (next - 1) as usize, from as int);
    let back = previous_match(bytes, query, (next - 1) as usize)->0;
    assert(from <= back.0);
    if back.0 >= to {
        assert(!matches_at(bytes, query, back.0 as int));
    }
}

/// What is selected does not depend on the direction in which it was selected.
pub proof fn law_selection_has_no_direction(
    a: Option<usize>,
    b: Option<usize>,
    c: Option<(usize, usize)>,
    d: Option<(usize, usize)>,
)
    ensures
        range_between(a, b) == range_between(b, a),
        block_between(c, d) == block_between(d, c),
        range_between(a, b) matches Some((start, end)) ==> start < end,
        block_between(c, d) matches Some((top, bottom, left, right)) ==> top <= bottom && left
            <= right,
{
}

/// Pointing at a line leads to a byte of that line. An empty last line has none.
pub proof fn law_pointing_stays_in_line(v: Viewer, i: int, col: usize)
    requires
        v.wf(),
        0 <= i < v.count(),
        v.line(i).len() > 0,
    ensures
        v.line_offsets@[i] <= v.offset_at(i, col) < v.end_of_line(i),
        is_line_of(v.line_offsets@, v.offset_at(i, col) as usize, i),
{
    let line = v.line(i);
    lemma_countable(v);
    lemma_line_bounds(v.bytes(), v.line_offsets@, i);
    lemma_byte_at_column(line, v.tab_width as nat, prefix_len(i, line) as int, 0, col as nat);
}

/// How many columns the bytes of a line from `i` up to `k` take.
pub open spec fn columns_between(line: Seq<u8>, tab_width: nat, i: int, k: int) -> nat
    decreases k - i,
{
    if i >= k {
        0
    } else if takes_no_room(line[i]) {
        columns_between(line, tab_width, i + 1, k)
    } else {
        byte_width(line[i], tab_width) + columns_between(line, tab_width, i + 1, k)
    }
}

proof fn lemma_cell_of_byte(
    ctx: LineContext,
    line: Seq<u8>,
    classes: Seq<RenderClass>,
    i: int,
    col: nat,
    k: int,
)
    requires
        0 <= i <= k < line.len(),
        !takes_no_room(line[k]),
        byte_width(line[k], ctx.tab_width as nat) > 0,
    ensures
        ({
            let at = columns_between(line, ctx.tab_width as nat, i, k);
            let cells = plain_cells(ctx, line, classes, i, col);
            &&& at < cells.len()
            &&& cells[at as int] == Cell {
                ch: byte_char(line[k]),
                highlighted: ctx.stands_out(k, col + at),
                class: class_at(classes, k),
            }
        }),
    decreases k - i,
{
    let tab = ctx.tab_width as nat;
    if i < k {
        let width = if takes_no_room(line[i]) {
            0
        } else {
            byte_width(line[i], tab)
        };
        lemma_cell_of_byte(ctx, line, classes, i + 1, col + width, k);
        let at = columns_between(line, tab, i + 1, k);
        let rest = plain_cells(ctx, line, classes, i + 1, col + width);
        let cells = plain_cells(ctx, line, classes, i, col);
        assert(cells[(width + at) as int] == rest[at as int]);
    }
}

/// Where values are not aligned, every byte that takes room is shown in the column behind the
/// columns of the bytes before it, and stands out there if it is found or selected.
pub proof fn law_byte_is_shown(v: Viewer, i: int, k: int)
    requires
        v.wf(),
        !v.aligned(),
        0 <= i < v.count(),
        prefix_len(i, v.line(i)) <= k < v.line(i).len(),
        !takes_no_room(v.line(i)[k]),
        byte_width(v.line(i)[k], v.tab_width as nat) > 0,
    ensures
        ({
            let line = v.line(i);
            let col = columns_between(
                line,
                v.tab_width as nat,
                prefix_len(i, line) as int,
                k,
            );
            &&& col < v.line_cells(i).len()
            &&& v.line_cells(i)[col as int] == Cell {
                ch: byte_char(line[k]),
                highlighted: v.context(i).stands_out(k, col),
                class: class_at(v.styles(line), k),
            }
        }),
{
    let line = v.line(i);
    lemma_cell_of_byte(v.context(i), line, v.styles(line), prefix_len(i, line) as int, 0, k);
}

proof fn lemma_byte_found(line: Seq<u8>, tab: nat, i: int, col: nat, k: int)
    requires
        0 <= i <= k < line.len(),
        !takes_no_room(line[k]),
        forall|j: int|
            i <= j < k && !takes_no_room(line[j]) ==> #[trigger] columns_between(line, tab, j, k)
                > 0,
    ensures
        byte_at_column(line, tab, i, col, col + columns_between(line, tab, i, k)) == Some(k),
    decreases k - i,
{
    if i < k {
        if takes_no_room(line[i]) {
            lemma_byte_found(line, tab, i + 1, col, k);
        } else {
            assert(columns_between(line, tab, i, k) > 0);
            lemma_byte_found(line, tab, i + 1, col + byte_width(line[i], tab), k);
        }
    }
}

/// Pointing at the column in which a byte is shown leads to that byte; tabs without a width before
/// it could be meant as well.
pub proof fn law_pointing_finds_byte(v: Viewer, i: int, k: int)
    requires
        v.wf(),
        0 <= i < v.count(),
        prefix_len(i, v.line(i)) <= k < v.line(i).len(),
        !takes_no_room(v.line(i)[k]),
        forall|j: int|
            prefix_len(i, v.line(i)) <= j < k && !takes_no_room(v.line(i)[j])
                ==> #[trigger] columns_between(v.line(i), v.tab_width as nat, j, k) > 0,
        columns_between(v.line(i), v.tab_width as nat, prefix_len(i, v.line(i)) as int, k)
            <= usize::MAX,
    ensures
        v.offset_at(
            i,
            columns_between(
                v.line(i),
                v.tab_width as nat,
                prefix_len(i, v.line(i)) as int,
                k,
            ) as usize,
        ) == v.line_offsets@[i] + k,
{
    let line = v.line(i);
    lemma_byte_found(line, v.tab_width as nat, prefix_len(i, line) as int, 0, k);
}

/// Where values are not aligned, a line is shown as the characters that a block copies of it.
pub proof fn law_block_copies_what_is_shown(v: Viewer, i: int)
    requires
        !v.aligned(),
    ensures
        v.line_cells(i).len() == shown_chars(
            v.line(i),
            v.tab_width as nat,
            prefix_len(i, v.line(i)) as int,
        ).len(),
        forall|k: int|
            0 <= k < v.line_cells(i).len() ==> (#[trigger] v.line_cells(i)[k]).ch == shown_chars(
                v.line(i),
                v.tab_width as nat,
                prefix_len(i, v.line(i)) as int,
            )[k],
{
    let line = v.line(i);
    law_plain_cells_show_chars(
        v.context(i),
        line,
        v.styles(line),
        prefix_len(i, line) as int,
        0,
    );
}

/// The bytes of `query` stand at `p`, one after the other.
pub open spec fn stands_at(bytes: Seq<u8>, query: Seq<u8>, p: int) -> bool {
    &&& 0 <= p && p + query.len() <= bytes.len()
    &&& forall|j: int| 0 <= j < query.len() ==> bytes[p + j] == #[trigger] query[j]
}

proof fn lemma_stands_at(bytes: Seq<u8>, query: Seq<u8>, p: int)
    ensures
        matches_at(bytes, query, p) == stands_at(bytes, query, p),
{
    if 0 <= p && p + query.len() <= bytes.len() {
        let part = bytes.subrange(p, p + query.len());
        if stands_at(bytes, query, p) {
            assert(part =~= query);
        }
        if part == query {
            assert forall|j: int| 0 <= j < query.len() implies bytes[p + j]
                == #[trigger] query[j] by {
                assert(part[j] == bytes[p + j]);
            }
        }
    }
}

/// The next match is the first place at `start` or behind it where the bytes of the query stand; none
/// is found if and only if there is no such place, or the query is empty.
pub proof fn law_next_is_first(bytes: Seq<u8>, query: Seq<u8>, start: usize)
    requires
        bytes.len() <= usize::MAX,
    ensures
        match next_match(bytes, query, start) {
            Some((from, to)) => {
                &&& query.len() > 0 && start <= from && to == from + query.len()
                &&& stands_at(bytes, query, from as int)
                &&& forall|p: int| start <= p < from ==> !#[trigger] stands_at(bytes, query, p)
            },
            None => query.len() == 0 || forall|p: int|
                start <= p ==> !#[trigger] stands_at(bytes, query, p),
        },
{
    if next_match(bytes, query, start) is Some {
        let from = law_next_match(bytes, query, start);
        lemma_stands_at(bytes, query, from);
        assert forall|p: int| start <= p < from implies !#[trigger] stands_at(bytes, query, p) by {
            lemma_stands_at(bytes, query, p);
        }
    } else if query.len() > 0 {
        assert forall|p: int| start <= p implies !#[trigger] stands_at(bytes, query, p) by {
            lemma_stands_at(bytes, query, p);
            if matches_at(bytes, query, p) {
                lemma_some_next(bytes, query, start, p);
            }
        }
    }
}

proof fn lemma_some_next(bytes: Seq<u8>, query: Seq<u8>, start: usize, p: int)
    requires
        query.len() > 0,
        start <= p,
        matches_at(bytes, query, p),
    ensures
        next_match(bytes, query, start) is Some,
    decreases p - start,
{
    if exists|q: int| start <= q < p && #[trigger] matches_at(bytes, query, q) {
        let q = choose|q: int| start <= q < p && #[trigger] matches_at(bytes, query, q);
        lemma_some_next(bytes, query, start, q);
    } else {
        assert(is_next_match(bytes, query, start as int, p));
    }
}

/// The previous match is the last place where the bytes of the query stand and end with the byte
/// `start` or before it; none is found if and only if there is no such place, or the query is
/// empty.
pub proof fn law_previous_is_last(bytes: Seq<u8>, query: Seq<u8>, start: usize)
    requires
        bytes.len() <= usize::MAX,
    ensures
        match previous_match(bytes, query, start) {
            Some((from, to)) => {
                &&& query.len() > 0 && to == from + query.len() && to <= start + 1
                &&& stands_at(bytes, query, from as int)
                &&& forall|p: int|
                    from < p && p + query.len() <= start + 1 ==> !#[trigger] stands_at(
                        bytes,
                        query,
                        p,
                    )
            },
            None => query.len() == 0 || forall|p: int|
                p + query.len() <= start + 1 ==> !#[trigger] stands_at(bytes, query, p),
        },
{
    if previous_match(bytes, query, start) is Some {
        let from = choose|from: int| is_previous_match(bytes, query, start as int, from);
        lemma_stands_at(bytes, query, from);
        assert forall|p: int| from < p && p + query.len() <= start + 1 implies !#[trigger] stands_at(
            bytes,
            query,
            p,
        ) by {
            lemma_stands_at(bytes, query, p);
        }
    } else if query.len() > 0 {
        assert forall|p: int| p + query.len() <= start + 1 implies !#[trigger] stands_at(
            bytes,
            query,
            p,
        ) by {
            lemma_stands_at(bytes, query, p);
            if matches_at(bytes, query, p) {
                law_previous_match_exists(bytes, query, start, p);
            }
        }
    }
}

/// A file is pretty-printed only where it is asked for, for the one syntax that is highlighted, and
/// not where values are aligned.
pub proof fn law_what_is_pretty_printed(source: Seq<u8>, csv: bool, xml: bool, format: bool, json: bool)
    ensures
        format && !csv && xml && !json ==> pretty_printed(source, csv, xml, format, json) == Some(
            formatted_xml(source),
        ),
        format && !csv && json && !xml ==> pretty_printed(source, csv, xml, format, json)
            == formatted_json(source),
        !format || csv || xml == json ==> pretty_printed(source, csv, xml, format, json) is None,
{
}

/// A row of the scrollbar, below the status bar, scrolls to the line that its place points at, and
/// not above the line behind the header; a row outside counts as the nearest one. Where every line
/// is visible, nothing scrolls.
pub proof fn law_scrollbar_row_scrolls(v: Viewer, screen_row: usize, rows: usize)
    requires
        v.wf(),
    ensures
        rows == 0 || v.count() <= rows ==> v.scrollbar_top(screen_row, rows) == v.top_line,
        0 < rows < v.count() ==> {
            let row: int = if screen_row == 0 {
                0
            } else if screen_row <= rows {
                screen_row - 1
            } else {
                rows - 1
            };
            let target = row_target(row as usize, rows, v.count() as usize);
            let header = v.csv_column_widths is Some && v.line_offsets@.len() > 1;
            &&& header && target == 0 ==> v.scrollbar_top(screen_row, rows) == 1
            &&& !header || target >= 1 ==> v.scrollbar_top(screen_row, rows) == target
        },
{
    lemma_countable(v);
    if 0 < rows < v.count() {
        let row: int = if screen_row == 0 {
            0
        } else if screen_row <= rows {
            screen_row - 1
        } else {
            rows - 1
        };
        crate::scrollbar::lemma_target_bounds(row as usize, rows, v.count() as usize);
    }
}

} // verus!
