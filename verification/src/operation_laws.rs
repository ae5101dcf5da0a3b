//! What the operations give back, told from what they are given.
//!
//! Each law speaks of a call: of its arguments and of any result that it can have.
use vstd::prelude::*;
use vstd::utf8::{decode_utf8, encode_utf8, valid_utf8};

use crate::clipboard::{lossy_text, CopyRequest};
use crate::csv::{
    detect_csv_separator, index_csv_column_widths, is_likeliest_separator, named_separator,
    parse_csv_separator, resolve_csv_separator, CsvSeparatorError,
};
use crate::csv_laws::{
    column_at, counted, field_ends, law_columns_as_wide_as_needed, law_likeliest_separator,
    law_named_separator, seen_early, some_field_takes, width_at,
};
use crate::display_laws::{
    columns_taken, hidden_start, law_aligned_byte, law_aligned_length, law_line_chars,
    law_plain_byte, law_plain_length, law_row_shows_window, reached, room, shows, shows_byte,
    unseen, well_aligned,
};
use crate::document::Document;
use crate::editor::{line_number_label, trimmed, GuiApp};
use crate::event_laws::{
    block_row, block_rows, law_block_text, law_pointing_leads_to_byte, law_rows_show_lines,
};
use crate::events::Session;
use crate::frame::{body_rows, content_width, Frame};
use crate::json::{classify_json_line, law_json_classes_len, JsonTokenClass};
use crate::json_format::format_json_for_display;
use crate::json_format_laws::{
    brackets_open, laid_out, law_json_bytes_kept, law_json_is_closed, law_json_lines, meant_bytes,
    outside_strings,
};
use crate::json_laws::{class_by_place, law_json_class_by_place};
use crate::lines::{lemma_line_bounds, lemma_line_feeds};
use crate::prompt::{parse_number, FindPrompt, GotoPrompt};
use crate::render::{
    group_runs, law_runs_alternate, run_cells, segment_color, segment_runs, ungroup_runs,
    visible_cells, Cell, RenderClass, Run, Segment, TextColor,
};
use crate::scrollbar::{scrollbar_column, scrollbar_target, scrollbar_thumb};
use crate::text::clip_to_width;
use crate::text_laws::{
    law_decimal, law_line_label, law_number_is_read, law_path_is_trimmed, law_saved_line,
    law_unedited_line_shown, spread, ten_digit, writes, written_number,
};
use crate::viewer::{centered_top_line, Viewer};
use crate::viewer_laws::{law_next_is_first, law_previous_is_last, lemma_countable, stands_at};
use crate::xml::{classify_xml_line, law_xml_classes_len, XmlTokenClass};
use crate::xml_format::{extract_tag_name, format_xml_for_display, xml_pieces, xml_tag_bounds};
use crate::xml_laws::{law_xml_class_by_place, xml_class_by_place};
use crate::xml_layout_laws::{
    declares, ending_slash, law_xml_line, line_heads, line_of_piece, line_place, name_span,
    xml_blank,
};

verus! {

/// Pretty-printed JSON leaves no string and no bracket open, lays every byte out as its structure
/// asks, and keeps all bytes but whitespace; anything else is not pretty-printed.
pub proof fn law_format_json(bytes: &[u8], r: Option<Vec<u8>>, i: int)
    requires
        call_ensures(format_json_for_display, (bytes,), r),
    ensures
        r is Some <==> outside_strings(bytes@, bytes@.len() as int) && brackets_open(
            bytes@,
            bytes@.len() as int,
        ) == 0,
        r matches Some(out) ==> 0 <= i < out@.len() ==> laid_out(out@, i),
        r matches Some(out) ==> meant_bytes(out@, out@.len() as int) == meant_bytes(
            bytes@,
            bytes@.len() as int,
        ),
{
    law_json_is_closed(bytes@);
    if let Some(out) = r {
        law_json_bytes_kept(bytes@, out@);
        if 0 <= i < out@.len() {
            law_json_lines(bytes@, out@, i);
        }
    }
}

/// Each line of pretty-printed XML stands behind the lines before it, indented by two columns for each
/// element that is open around what it shows.
pub proof fn law_format_xml(bytes: &[u8], r: Vec<u8>, l: int)
    requires
        call_ensures(format_xml_for_display, (bytes,), r),
    ensures
        ({
            let p = xml_pieces(bytes@);
            let heads = line_heads(p, 0);
            &&& heads.len() == 0 ==> r@ == seq![0x0au8]
            &&& 0 <= l < heads.len() ==> {
                let line = line_of_piece(p, heads[l]);
                let from = line_place(p, l);
                &&& 0 <= from && from + line.len() <= r@.len()
                &&& r@.subrange(from, from + line.len()) == line
                &&& l + 1 < heads.len() ==> from + line.len() < r@.len() && r@[from + line.len()]
                    == 0x0a
                &&& l + 1 == heads.len() ==> from + line.len() == r@.len()
            }
        }),
{
    let p = xml_pieces(bytes@);
    let heads = line_heads(p, 0);
    if heads.len() == 0 {
        assert(p.len() == 0);
        assert(crate::xml_format::xml_lines(p, 0).len() == 0);
    } else if 0 <= l < heads.len() {
        law_xml_line(bytes@, l);
    }
}

/// Every byte of a JSON line is given the class of its place.
pub proof fn law_classify_json(bytes: &[u8], r: Vec<JsonTokenClass>, m: int)
    requires
        call_ensures(classify_json_line, (bytes,), r),
    ensures
        r@.len() == bytes@.len(),
        0 <= m < r@.len() ==> r@[m] == class_by_place(bytes@, m),
{
    law_json_classes_len(true, bytes@);
    if 0 <= m < r@.len() {
        law_json_class_by_place(bytes@, m);
    }
}

/// Every byte of an XML line is given the class of its place.
pub proof fn law_classify_xml(bytes: &[u8], r: Vec<XmlTokenClass>, m: int)
    requires
        call_ensures(classify_xml_line, (bytes,), r),
    ensures
        r@.len() == bytes@.len(),
        0 <= m < r@.len() ==> r@[m] == xml_class_by_place(bytes@, m),
{
    law_xml_classes_len(crate::xml::XmlMode::Content, bytes@);
    if 0 <= m < r@.len() {
        law_xml_class_by_place(bytes@, m);
    }
}

/// A tag is bounded by its first `>` outside quotes, closes an element where a slash stands at its
/// start, opens one where neither a slash nor a mark of a declaration does, and closes itself
/// where a slash stands at its end.
pub proof fn law_tag_bounds(bytes: &[u8], start: usize, r: (usize, bool, bool, bool))
    requires
        start < bytes@.len(),
        call_ensures(xml_tag_bounds, (bytes, start), r),
    ensures
        ({
            let c = bytes@.subrange(start as int, r.0 as int);
            &&& crate::xml_layout_laws::tag_ends(bytes@, start as int, r.0 as int)
            &&& r.1 <==> c.len() >= 2 && c[1] == 0x2f
            &&& r.2 <==> !declares(c) && !(c.len() >= 2 && c[1] == 0x2f)
            &&& r.3 <==> !declares(c) && exists|j: int| ending_slash(c, j)
        }),
{
    crate::xml_layout_laws::lemma_tag_at(bytes@, start as int);
    let c = bytes@.subrange(start as int, r.0 as int);
    assert(crate::xml_format::tag_at(bytes@, start as int) =~= c);
    if !declares(c) {
        crate::xml_layout_laws::lemma_self_closing(c);
    }
}

/// The separator that the user names is the one character, or the tab that a backslash and a `t` stand
/// for; anything else is an error.
pub proof fn law_parse_separator(raw: &str, r: Result<u8, CsvSeparatorError>)
    requires
        call_ensures(parse_csv_separator, (raw,), r),
    ensures
        match r {
            Ok(b) => (raw@.len() == 2 && raw@[0] == '\\' && raw@[1] == 't' && b == 0x09) || (
            raw@.len() == 1 && raw@[0] <= '\u{7f}' && raw@[0] as u8 == b),
            Err(_) => !(raw@.len() == 2 && raw@[0] == '\\' && raw@[1] == 't') && !(raw@.len() == 1
                && raw@[0] <= '\u{7f}'),
        },
{
    match r {
        Ok(b) => {
            law_named_separator(raw@, b);
        },
        Err(_) => {
            if raw@.len() == 2 && raw@[0] == '\\' && raw@[1] == 't' {
                law_named_separator(raw@, 0x09);
            }
        },
    }
}

/// The separator that a file suggests beats all that are looked for before it in the first fifty
/// lines, and none that is looked for behind it beats it.
pub proof fn law_detect_separator(bytes: &[u8], b: u8)
    requires
        call_ensures(detect_csv_separator, (bytes,), b),
    ensures
        b == 0x2c || b == 0x3b || b == 0x09 || b == 0x7c || b == 0x3a,
        ({
            let s = bytes@;
            let n = s.len() as int;
            let most = seen_early(s, b, n);
            &&& b == 0x2c || seen_early(s, 0x2c, n) < most
            &&& b == 0x3b || seen_early(s, 0x3b, n) < most || (b == 0x2c && seen_early(s, 0x3b, n)
                <= most)
            &&& b == 0x09 || seen_early(s, 0x09, n) < most || ((b == 0x2c || b == 0x3b)
                && seen_early(s, 0x09, n) <= most)
            &&& b == 0x7c || seen_early(s, 0x7c, n) < most || (b != 0x3a && seen_early(s, 0x7c, n)
                <= most)
            &&& seen_early(s, 0x3a, n) <= most
        }),
{
    law_likeliest_separator(bytes@, b);
}

/// Every column is as wide as its widest field in the whole file, no wider and no narrower.
pub proof fn law_index_widths(bytes: &[u8], tab_width: usize, separator: u8, r: Vec<usize>)
    requires
        call_ensures(Viewer::index_csv_column_widths, (bytes, tab_width, separator), r),
    ensures
        forall|n: int|
            0 <= n <= bytes@.len() && #[trigger] field_ends(bytes@, separator, n) ==> column_at(
                bytes@,
                separator,
                n,
            ) < r@.len() && counted(width_at(bytes@, separator, tab_width as nat, n))
                <= r@[column_at(bytes@, separator, n) as int],
        forall|c: int|
            0 <= c < r@.len() ==> some_field_takes(
                bytes@,
                separator,
                tab_width as nat,
                c,
                #[trigger] r@[c] as int,
            ),
{
    law_columns_as_wide_as_needed(bytes@, separator, tab_width, r@);
}

/// The index of lines starts with zero, goes on behind each line feed, in order, and holds nothing
/// else.
pub proof fn law_index_lines(bytes: &[u8], r: Vec<usize>)
    requires
        call_ensures(Viewer::index_lines, (bytes,), r),
    ensures
        r@.len() > 0 && r@[0] == 0,
        forall|i: int| 1 <= i < r@.len() ==> {
            let at = #[trigger] r@[i];
            1 <= at <= bytes@.len() && bytes@[at - 1] == 0x0a
        },
        forall|i: int, j: int| 0 <= i < j < r@.len() ==> r@[i] < r@[j],
        forall|p: int|
            0 <= p < bytes@.len() && #[trigger] bytes@[p] == 0x0a ==> r@.contains((p + 1) as usize),
{
    assert forall|p: int| 0 <= p < bytes@.len() && #[trigger] bytes@[p] == 0x0a implies r@.contains(
        (p + 1) as usize,
    ) by {
        let i = choose|i: int| 1 <= i < r@.len() && #[trigger] r@[i] == p + 1;
        assert(r@[i] == (p + 1) as usize);
    }
}

/// A viewer opens on the file as it stands, or pretty-printed where that is asked for, at the first
/// line, or below the header of aligned values, with nothing found and nothing selected; only a
/// separator that is none keeps it from opening.
pub proof fn law_open(
    source: &[u8],
    tab_width: usize,
    csv: bool,
    separator: Option<&str>,
    xml: bool,
    format: bool,
    json: bool,
    r: Result<Viewer, CsvSeparatorError>,
)
    requires
        call_ensures(Viewer::open, (source, tab_width, csv, separator, xml, format, json), r),
    ensures
        r is Err <==> csv && (separator matches Some(raw) && named_separator(raw@) is None),
        r matches Ok(v) ==> {
            &&& v.wf()
            &&& v.tab_width == tab_width
            &&& v.xml_syntax_highlighting == xml && v.json_syntax_highlighting == json
            &&& !format || csv || xml == json ==> v.bytes() == source@
            &&& format && !csv && xml && !json ==> v.bytes() == crate::xml_format::formatted_xml(
                source@,
            )
            &&& format && !csv && json && !xml ==> v.bytes() == match crate::json_format::formatted_json(
                source@,
            ) {
                Some(t) => t,
                None => source@,
            }
            &&& v.aligned() <==> csv
            &&& v.csv_separator is Some <==> csv
            &&& csv && separator is Some ==> v.csv_separator == named_separator(separator->0@)
            &&& csv && separator is None ==> is_likeliest_separator(source@, v.csv_separator->0)
            &&& csv && v.line_offsets@.len() > 1 ==> v.top_line == 1
            &&& !csv || v.line_offsets@.len() == 1 ==> v.top_line == 0
            &&& v.left_col == 0 && v.cursor_offset == 0
            &&& v.search_query is None && v.match_range is None
            &&& v.selection_anchor is None && v.selection_focus is None
            &&& v.block_selection_anchor is None && v.block_selection_focus is None
            &&& v.status_message is None
        },
{
    if let Ok(v) = r {
        assert(v.state().search_query is None);
        assert(v.state().status_message is None);
    }
}

/// The cells of the first `n` characters of a segment.
pub open spec fn segment_cells(segment: Segment, n: int) -> Seq<Cell>
    decreases n,
{
    if n <= 0 {
        Seq::empty()
    } else {
        segment_cells(segment, n - 1).push(
            Cell { ch: segment.2@[n - 1], highlighted: segment.0, class: segment.1 },
        )
    }
}

/// The cells of a row, one for each character of its segments.
pub open spec fn row_cells(row: Seq<Segment>) -> Seq<Cell>
    decreases row.len(),
{
    if row.len() == 0 {
        Seq::empty()
    } else {
        row_cells(row.drop_last()) + segment_cells(row.last(), row.last().2@.len() as int)
    }
}

proof fn lemma_segment_cells(segment: Segment, n: int)
    requires
        0 <= n <= segment.2@.len(),
    ensures
        segment_cells(segment, n) == run_cells(
            Run { highlighted: segment.0, class: segment.1, text: segment.2@.take(n) },
        ),
    decreases n,
{
    let text = segment.2@.take(n);
    if n > 0 {
        lemma_segment_cells(segment, n - 1);
        assert(text.drop_last() =~= segment.2@.take(n - 1));
        assert(text.last() == segment.2@[n - 1]);
    } else {
        assert(text.len() == 0);
    }
}

/// The cells of a row are those of its runs.
pub(crate) proof fn lemma_row_cells(row: Seq<Segment>)
    ensures
        row_cells(row) == ungroup_runs(segment_runs(row)),
    decreases row.len(),
{
    let runs = segment_runs(row);
    if row.len() > 0 {
        lemma_row_cells(row.drop_last());
        assert(runs.drop_last() =~= segment_runs(row.drop_last()));
        let last = row.last();
        lemma_segment_cells(last, last.2@.len() as int);
        assert(last.2@.take(last.2@.len() as int) =~= last.2@);
        assert(runs.last() == (Run { highlighted: last.0, class: last.1, text: last.2@ }));
    }
}

/// A row holds the cells of a line from the first visible column on, as many as it has room for.
pub open spec fn row_shows(v: Viewer, i: int, width: int, row: Seq<Segment>) -> bool {
    let cells = v.line_cells(i);
    let shown = row_cells(row);
    let left = v.left_col as int;
    &&& shown.len() == if cells.len() <= left {
        0
    } else if cells.len() - left <= width {
        cells.len() - left
    } else {
        width
    }
    &&& forall|x: int| 0 <= x < shown.len() ==> #[trigger] shown[x] == cells[left + x]
}

/// No segment of a row is empty, and no two neighbours look alike.
pub open spec fn is_grouped(row: Seq<Segment>) -> bool {
    &&& forall|j: int| 0 <= j < row.len() ==> (#[trigger] row[j]).2@.len() > 0
    &&& forall|j: int|
        1 <= j < row.len() ==> (#[trigger] row[j]).0 != row[j - 1].0 || row[j].1 != row[j - 1].1
}

proof fn lemma_row(v: Viewer, i: int, width: usize, row: Seq<Segment>)
    requires
        segment_runs(row) == v.row_runs(i, width),
    ensures
        row_shows(v, i, width as int, row),
        is_grouped(row),
{
    lemma_row_cells(row);
    law_row_shows_window(v, i, width);
    let runs = segment_runs(row);
    let cells = visible_cells(v.line_cells(i), v.left_col, width);
    assert(runs == group_runs(cells));
    assert forall|j: int| 0 <= j < row.len() implies (#[trigger] row[j]).2@.len() > 0 by {
        law_runs_alternate(cells, j);
        assert(runs[j] == (Run { highlighted: row[j].0, class: row[j].1, text: row[j].2@ }));
    }
    assert forall|j: int| 1 <= j < row.len() implies (#[trigger] row[j]).0 != row[j - 1].0
        || row[j].1 != row[j - 1].1 by {
        law_runs_alternate(cells, j);
        assert(runs[j] == (Run { highlighted: row[j].0, class: row[j].1, text: row[j].2@ }));
        assert(runs[j - 1] == (Run {
            highlighted: row[j - 1].0,
            class: row[j - 1].1,
            text: row[j - 1].2@,
        }));
    }
}

/// A row shows its line from the first visible column on.
pub proof fn law_render_line(v: &Viewer, line: usize, width: usize, r: Vec<Segment>)
    requires
        call_ensures(Viewer::render_line, (v, line, width), r),
    ensures
        row_shows(*v, line as int, width as int, r@),
        is_grouped(r@),
{
    lemma_row(*v, line as int, width, r@);
}

/// Where values are not aligned, every byte of a line is shown where its columns are visible: behind
/// the bytes before it, as itself, in its look, standing out if it is found or selected. Nothing else
/// is shown.
pub proof fn law_render_plain_line(
    v: &Viewer,
    line: usize,
    width: usize,
    r: Vec<Segment>,
    k: int,
    t: int,
)
    requires
        v.wf(),
        !v.aligned(),
        line < v.count(),
        call_ensures(Viewer::render_line, (v, line, width), r),
    ensures
        ({
            let bytes = v.line(line as int);
            let tab = v.tab_width as nat;
            let a = hidden_start(line as int, bytes);
            let all = columns_taken(bytes, tab, a, bytes.len() as int);
            let left = v.left_col as int;
            let shown = row_cells(r@);
            &&& shown.len() == if all <= left {
                0
            } else if all - left <= width {
                all - left
            } else {
                width as int
            }
            &&& a <= k < bytes.len() && !unseen(bytes[k]) && 0 <= t < room(bytes[k], tab) ==> {
                let col = columns_taken(bytes, tab, a, k);
                left <= col + t < left + width ==> col + t - left < shown.len() && shows_byte(
                    *v,
                    line as int,
                    k,
                    col,
                    shown[col + t - left],
                )
            }
        }),
{
    let bytes = v.line(line as int);
    let tab = v.tab_width as nat;
    let a = hidden_start(line as int, bytes);
    law_render_line(v, line, width, r);
    law_plain_length(*v, line as int);
    if a <= k < bytes.len() && !unseen(bytes[k]) && 0 <= t < room(bytes[k], tab) {
        law_plain_byte(*v, line as int, k, t);
        let x = columns_taken(bytes, tab, a, k) + t - v.left_col;
        if 0 <= x < row_cells(r@).len() {
            assert(row_cells(r@)[x] == v.line_cells(line as int)[v.left_col + x]);
        }
    }
}

/// Where values are aligned, every byte of a field is shown where its columns are visible: in the
/// columns of the screen that belong to its column, behind the bytes of its field before it, as
/// itself, standing out if it is found or selected.
pub proof fn law_render_aligned_line(
    v: &Viewer,
    line: usize,
    width: usize,
    r: Vec<Segment>,
    k: int,
    t: int,
)
    requires
        well_aligned(*v),
        line < v.count(),
        call_ensures(Viewer::render_line, (v, line, width), r),
    ensures
        ({
            let bytes = v.line(line as int);
            let tab = v.tab_width as nat;
            let separator = v.csv_separator->0;
            let widths = v.csv_column_widths->0@;
            let a = hidden_start(line as int, bytes);
            let all = reached(bytes, widths, separator, tab, a, bytes.len() as int);
            let left = v.left_col as int;
            let shown = row_cells(r@);
            &&& shown.len() == if all <= left {
                0
            } else if all - left <= width {
                all - left
            } else {
                width as int
            }
            &&& a <= k < bytes.len() && !unseen(bytes[k]) && bytes[k] != separator && 0 <= t < room(
                bytes[k],
                tab,
            ) ==> {
                let col = reached(bytes, widths, separator, tab, a, k);
                left <= col + t < left + width ==> col + t - left < shown.len() && shows_byte(
                    *v,
                    line as int,
                    k,
                    col,
                    shown[col + t - left],
                )
            }
        }),
{
    let bytes = v.line(line as int);
    let tab = v.tab_width as nat;
    let separator = v.csv_separator->0;
    let widths = v.csv_column_widths->0@;
    let a = hidden_start(line as int, bytes);
    law_render_line(v, line, width, r);
    law_aligned_length(*v, line as int);
    if a <= k < bytes.len() && !unseen(bytes[k]) && bytes[k] != separator && 0 <= t < room(
        bytes[k],
        tab,
    ) {
        law_aligned_byte(*v, line as int, k, t);
        let x = reached(bytes, widths, separator, tab, a, k) + t - v.left_col;
        if 0 <= x < row_cells(r@).len() {
            assert(row_cells(r@)[x] == v.line_cells(line as int)[v.left_col + x]);
        }
    }
}

/// A screen shows in its rows the lines from the first visible one on, each from the first visible
/// column on, and leaves the last column to the scrollbar. Where values are aligned the first line
/// stands in the first row.
pub proof fn law_render(v: &Viewer, width: u16, height: u16, f: Frame, r: int)
    requires
        v.wf(),
        call_ensures(Viewer::render, (v, width, height), f),
    ensures
        ({
            let rows = if height >= 2 {
                height - 2
            } else {
                0
            };
            let room = if width >= 1 {
                width - 1
            } else {
                0
            };
            let top = v.top_line as int;
            let from = if top == 0 {
                1
            } else {
                top
            };
            &&& !v.aligned() ==> f.rows@.len() == if v.count() - top <= rows {
                v.count() - top
            } else {
                rows
            }
            &&& !v.aligned() && 0 <= r < f.rows@.len() ==> row_shows(*v, top + r, room, f.rows@[r]@)
            &&& v.aligned() && rows >= 1 && from <= v.count() ==> f.rows@.len() == if v.count()
                - from <= rows - 1 {
                1 + v.count() - from
            } else {
                rows
            }
            &&& v.aligned() ==> f.rows@.len() >= 1 && row_shows(*v, 0, room, f.rows@[0]@)
            &&& v.aligned() && 1 <= r < f.rows@.len() ==> row_shows(
                *v,
                from + r - 1,
                room,
                f.rows@[r]@,
            )
            &&& width > 0 ==> f.scrollbar@.len() == rows
            &&& f.status@.len() <= width && f.footer@.len() <= width
            &&& f.footer@ == match v.status_message {
                Some(text) => if text@.len() <= width {
                    text@
                } else {
                    text@.take(width as int)
                },
                None => if "Memory-mapped view (renders visible window only)"@.len() <= width {
                    "Memory-mapped view (renders visible window only)"@
                } else {
                    "Memory-mapped view (renders visible window only)"@.take(width as int)
                },
            }
        }),
{
    let rows = body_rows(height);
    law_rows_show_lines(*v, rows);
    let shown = v.lines_in_view(rows);
    if 0 <= r < f.rows@.len() {
        lemma_row(*v, shown[r], content_width(width), f.rows@[r]@);
    }
    if v.aligned() {
        lemma_row(*v, shown[0], content_width(width), f.rows@[0]@);
    }
    match v.status_message {
        Some(text) => {
            assert(text@.take(text@.len() as int) =~= text@);
        },
        None => {
            let text = "Memory-mapped view (renders visible window only)"@;
            assert(text.take(text.len() as int) =~= text);
        },
    }
}

/// The lines that are visible are listed as they are shown.
pub proof fn law_visible_lines(v: &Viewer, rows: usize, r: Vec<usize>, k: int)
    requires
        v.wf(),
        call_ensures(Viewer::visible_line_numbers, (v, rows), r),
    ensures
        !v.aligned() ==> r@.len() == if v.count() - v.top_line <= rows {
            v.count() - v.top_line
        } else {
            rows as int
        },
        !v.aligned() && 0 <= k < r@.len() ==> r@[k] == v.top_line + k,
        v.aligned() ==> r@.len() >= 1 && r@[0] == 0,
        v.aligned() && 1 <= k < r@.len() ==> r@[k] == if v.top_line == 0 {
            k
        } else {
            v.top_line + k - 1
        },
{
    law_rows_show_lines(*v, rows);
    if v.aligned() {
        assert(r@[0] == v.lines_in_view(rows)[0]);
    }
    if 0 <= k < r@.len() {
        assert(r@[k] == v.lines_in_view(rows)[k]);
    }
}

/// A search finds the first place at `start` or behind it where the bytes of the query stand.
pub proof fn law_find_forward(v: &Viewer, query: &[u8], start: usize, r: Option<(usize, usize)>)
    requires
        call_ensures(Viewer::find_forward, (v, query, start), r),
    ensures
        match r {
            Some((from, to)) => {
                &&& query@.len() > 0 && start <= from && to == from + query@.len()
                &&& stands_at(v.bytes(), query@, from as int)
                &&& forall|p: int|
                    start <= p < from ==> !#[trigger] stands_at(v.bytes(), query@, p)
            },
            None => query@.len() == 0 || forall|p: int|
                start <= p ==> !#[trigger] stands_at(v.bytes(), query@, p),
        },
{
    lemma_countable(*v);
    law_next_is_first(v.bytes(), query@, start);
}

/// A search backward finds the last place where the bytes of the query stand and end with the byte
/// `start` or before it.
pub proof fn law_find_backward(v: &Viewer, query: &[u8], start: usize, r: Option<(usize, usize)>)
    requires
        call_ensures(Viewer::find_backward, (v, query, start), r),
    ensures
        match r {
            Some((from, to)) => {
                &&& query@.len() > 0 && to == from + query@.len() && to <= start + 1
                &&& stands_at(v.bytes(), query@, from as int)
                &&& forall|p: int|
                    from < p && p + query@.len() <= start + 1 ==> !#[trigger] stands_at(
                        v.bytes(),
                        query@,
                        p,
                    )
            },
            None => query@.len() == 0 || forall|p: int|
                p + query@.len() <= start + 1 ==> !#[trigger] stands_at(v.bytes(), query@, p),
        },
{
    lemma_countable(*v);
    law_previous_is_last(v.bytes(), query@, start);
}

/// The line of an offset is the last one that starts at it or before it.
pub proof fn law_line_of_offset(v: &Viewer, offset: usize, r: usize)
    requires
        v.wf(),
        call_ensures(Viewer::line_of_offset, (v, offset), r),
    ensures
        r < v.line_offsets@.len(),
        v.line_offsets@[r as int] <= offset,
        forall|j: int| r < j < v.line_offsets@.len() ==> offset < #[trigger] v.line_offsets@[j],
{
    assert forall|j: int| r < j < v.line_offsets@.len() implies offset
        < #[trigger] v.line_offsets@[j] by {
        assert(v.line_offsets@[r + 1] <= v.line_offsets@[j]);
    }
}

/// A line is shown as the characters of its bytes, each in its columns.
pub proof fn law_line_display(v: &Viewer, line: usize, r: Vec<char>, k: int, t: int)
    requires
        line < v.count(),
        call_ensures(Viewer::line_display_chars, (v, line), r),
    ensures
        ({
            let bytes = v.line(line as int);
            let tab = v.tab_width as nat;
            let a = hidden_start(line as int, bytes);
            &&& r@.len() == columns_taken(bytes, tab, a, bytes.len() as int)
            &&& a <= k < bytes.len() && !unseen(bytes[k]) && 0 <= t < room(bytes[k], tab) ==> {
                let at = columns_taken(bytes, tab, a, k) + t;
                at < r@.len() && shows(bytes[k], r@[at])
            }
        }),
{
    law_line_chars(*v, line as int, k, t);
}

/// What is selected is copied: of a block the columns between its corners of every line that it
/// spans, of text the bytes between its ends.
pub proof fn law_copy(v: &Viewer, r: Option<CopyRequest>)
    requires
        v.wf(),
        call_ensures(Viewer::selection_to_copy, (v,), r),
    ensures
        match (v.block_selection_anchor, v.block_selection_focus) {
            (Some((l, c)), Some((m, d))) => l != m || c != d ==> (r matches Some(request)
                && request.bytes is None && {
                let top = if l <= m {
                    l
                } else {
                    m
                };
                let bottom = if l <= m {
                    m
                } else {
                    l
                };
                let left = if c <= d {
                    c
                } else {
                    d
                };
                let right = if c <= d {
                    d
                } else {
                    c
                };
                &&& bottom < v.count() ==> request.text@ == block_rows(
                    *v,
                    top as int,
                    bottom as int,
                    left,
                    right,
                ) + block_row(*v, bottom as int, left, right)
                &&& top < v.count() <= bottom ==> request.text@ == block_rows(
                    *v,
                    top as int,
                    v.count(),
                    left,
                    right,
                )
                &&& v.count() <= top ==> request.text@.len() == 0
            }),
            _ => match (v.selection_anchor, v.selection_focus) {
                (Some(a), Some(b)) => {
                    let from = if a <= b {
                        a
                    } else {
                        b
                    };
                    let to = if a <= b {
                        b
                    } else {
                        a
                    };
                    let part = v.bytes().subrange(from as int, to as int);
                    &&& a == b ==> r is None
                    &&& a != b ==> (r matches Some(request) && request.bytes == Some(
                        (to - from) as usize,
                    ) && request.text@ == lossy_text(part) && (valid_utf8(part) ==> request.text@
                        == decode_utf8(part)))
                },
                _ => r is None,
            },
        },
{
    if let (Some((l, c)), Some((m, d))) = (v.block_selection_anchor, v.block_selection_focus) {
        if l != m || c != d {
            let top = if l <= m {
                l
            } else {
                m
            };
            let bottom = if l <= m {
                m
            } else {
                l
            };
            let left = if c <= d {
                c
            } else {
                d
            };
            let right = if c <= d {
                d
            } else {
                c
            };
            if top < v.count() {
                law_block_text(*v, top, bottom, left, right);
            }
        }
    }
}

/// A line that is centred has half a page of lines above it, or all that there are.
pub proof fn law_centre(line: usize, rows: usize, count: usize, r: usize)
    requires
        call_ensures(centered_top_line, (line, rows, count), r),
    ensures
        count == 0 ==> r == 0,
        line < count && line >= rows / 2 ==> r == line - rows / 2,
        line < count && line < rows / 2 ==> r == 0,
        count > 0 ==> r < count,
{
}

/// A text is read as a number if and only if it consists of digits, a plus sign before them being
/// allowed, and the number fits.
pub proof fn law_parse_number(s: &str, r: Option<usize>)
    requires
        call_ensures(parse_number, (s,), r),
    ensures
        ({
            let a: int = if s@.len() > 0 && s@[0] == '+' {
                1
            } else {
                0
            };
            let n = s@.len() as int;
            let digits = a < n && forall|i: int| a <= i < n ==> ten_digit(#[trigger] s@[i]);
            &&& digits && written_number(s@, a, n) <= usize::MAX ==> (r matches Some(v) && v
                == written_number(s@, a, n))
            &&& !digits || written_number(s@, a, n) > usize::MAX ==> r is None
        }),
{
    law_number_is_read(s@);
}

/// A text is cut off behind the last column, and left alone where it fits.
pub proof fn law_clip(s: &str, width: usize, r: String)
    requires
        call_ensures(clip_to_width, (s, width), r),
    ensures
        s@.len() <= width ==> r@ == s@,
        s@.len() > width ==> r@.len() == width,
        forall|x: int| 0 <= x < r@.len() ==> r@[x] == s@[x],
{
}

/// Every class has a colour of its own.
pub proof fn law_colours(a: RenderClass, b: RenderClass, r: TextColor, s: TextColor)
    requires
        call_ensures(segment_color, (a,), r),
        call_ensures(segment_color, (b,), s),
    ensures
        r == s <==> a == b,
        r == TextColor::White <==> a == RenderClass::Text,
        r == TextColor::Cyan <==> a == RenderClass::TagDelimiter,
        r == TextColor::DarkYellow <==> a == RenderClass::TagName,
        r == TextColor::Green <==> a == RenderClass::AttributeName,
        r == TextColor::Yellow <==> a == RenderClass::AttributeValue,
        r == TextColor::DarkGrey <==> a == RenderClass::Comment,
{
}

/// The editor shows an edited line with its new text, and any other as its bytes, without the carriage
/// return, and the line feed behind it, that end it.
pub proof fn law_line_text(doc: &Document, i: usize, r: String, k: int, t: int)
    requires
        call_ensures(Document::line_text, (doc, i), r),
    ensures
        doc.edited(i as int) ==> r@ == doc.dirty_lines@[i]@,
        !doc.edited(i as int) ==> {
            let line = doc.line(i as int);
            let n = line.len() as int;
            let tab = doc.tab_width as nat;
            let end = if n >= 2 && line[n - 2] == 0x0d && line[n - 1] == 0x0a {
                n - 2
            } else if n >= 1 && line[n - 1] == 0x0d {
                n - 1
            } else {
                n
            };
            &&& r@.len() == spread(line, tab, end)
            &&& 0 <= k < end && 0 <= t < room(line[k], tab) ==> {
                let at = spread(line, tab, k) + t;
                at < r@.len() && shows(line[k], r@[at])
            }
        },
{
    if !doc.edited(i as int) {
        law_unedited_line_shown(*doc, i as int, k, t);
    }
}

/// A line is saved as its new text and a line feed where it was edited, and as it stands in the file
/// where it was not; the last line gets a line feed where it has none.
pub proof fn law_save_line(doc: &Document, i: usize, r: Option<Vec<u8>>)
    requires
        call_ensures(Document::save_line, (doc, i), r),
    ensures
        r is Some <==> i < doc.count(),
        r matches Some(bytes) ==> {
            &&& doc.edited(i as int) ==> bytes@ == encode_utf8(doc.dirty_lines@[i]@).push(0x0a)
            &&& !doc.edited(i as int) && i + 1 < doc.count() ==> bytes@ == doc.line(i as int)
            &&& !doc.edited(i as int) && i + 1 == doc.count() ==> bytes@.len() > 0 && bytes@.last()
                == 0x0a && (bytes@ == doc.line(i as int) || bytes@ == doc.line(i as int).push(0x0a))
        },
{
    if i < doc.count() {
        law_saved_line(*doc, i as int);
    }
}

/// The editor tells how many lines there are and how many were edited.
pub proof fn law_editor_labels(app: &GuiApp, lines: String, modified: String) -> (r: (
    Seq<char>,
    Seq<char>,
))
    requires
        call_ensures(GuiApp::lines_label, (app,), lines),
        call_ensures(GuiApp::modified_label, (app,), modified),
    ensures
        writes(r.0, app.doc.line_offsets@.len()),
        lines@ == "Lines: "@ + r.0,
        writes(r.1, app.doc.dirty_lines@.len()),
        modified@ == "Modified lines: "@ + r.1,
{
    let a = app.doc.line_offsets@.len();
    let b = app.doc.dirty_lines@.len();
    law_decimal(a);
    law_decimal(b);
    (crate::text::decimal(a), crate::text::decimal(b))
}

/// A file is saved at the path that was typed, without the whitespace around it.
pub proof fn law_save_target(app: &GuiApp, target: String) -> (r: (int, int))
    requires
        call_ensures(GuiApp::save_target, (app,), target),
    ensures
        0 <= r.0 <= r.1 <= app.save_path@.len(),
        target@ == app.save_path@.subrange(r.0, r.1),
        forall|x: int|
            0 <= x < r.0 || r.1 <= x < app.save_path@.len() ==> crate::editor::is_white_space(
                #[trigger] app.save_path@[x],
            ),
        r.0 < r.1 ==> !crate::editor::is_white_space(app.save_path@[r.0])
            && !crate::editor::is_white_space(app.save_path@[r.1 - 1]),
{
    law_path_is_trimmed(app.save_path@)
}

/// What is selected as text reaches from the smaller of the two offsets to the larger; a selected
/// block spans the lines and columns of its two corners.
pub proof fn law_selected(
    v: &Viewer,
    range: Option<(usize, usize)>,
    block: Option<(usize, usize, usize, usize)>,
)
    requires
        call_ensures(Viewer::selection_range, (v,), range),
        call_ensures(Viewer::block_selection_range, (v,), block),
    ensures
        match (v.selection_anchor, v.selection_focus) {
            (Some(a), Some(b)) => {
                &&& a < b ==> range == Some((a, b))
                &&& b < a ==> range == Some((b, a))
                &&& a == b ==> range is None
            },
            _ => range is None,
        },
        match (v.block_selection_anchor, v.block_selection_focus) {
            (Some((l, c)), Some((m, d))) => {
                &&& l == m && c == d ==> block is None
                &&& l != m || c != d ==> (block matches Some((top, bottom, left, right)) && (if l
                    <= m {
                    top == l && bottom == m
                } else {
                    top == m && bottom == l
                }) && (if c <= d {
                    left == c && right == d
                } else {
                    left == d && right == c
                }))
            },
            _ => block is None,
        },
{
}

/// Pointing at the column `col` of a line leads to the first byte of the line that is shown in that
/// column or behind it, and to its last byte where it ends before.
pub proof fn law_offset_for_line_col(v: &Viewer, i: usize, col: usize, r: usize)
    requires
        v.wf(),
        i < v.count(),
        call_ensures(Viewer::offset_for_line_col, (v, i, col), r),
    ensures
        ({
            let line = v.line(i as int);
            let tab = v.tab_width as nat;
            let a = hidden_start(i as int, line);
            let k = r - v.line_offsets@[i as int];
            ||| {
                &&& a <= k < line.len() && !unseen(line[k])
                &&& columns_taken(line, tab, a, k) >= col
                &&& forall|x: int|
                    a <= x < k && !unseen(line[x]) ==> #[trigger] columns_taken(line, tab, a, x)
                        < col
            }
            ||| {
                &&& r == if v.end_of_line(i as int) > 0 {
                    v.end_of_line(i as int) - 1
                } else {
                    0
                }
                &&& forall|x: int|
                    a <= x < line.len() && !unseen(line[x]) ==> #[trigger] columns_taken(
                        line,
                        tab,
                        a,
                        x,
                    ) < col
            }
        }),
{
    law_pointing_leads_to_byte(*v, i as int, col);
}

/// A line reaches from where it starts to where the next one starts, or to the end, and holds those
/// bytes of the file.
pub proof fn law_line_range(v: &Viewer, i: usize, r: (usize, usize))
    requires
        v.wf(),
        i < v.count(),
        call_ensures(Viewer::line_range, (v, i), r),
    ensures
        r.0 == v.line_offsets@[i as int],
        i + 1 < v.line_offsets@.len() ==> r.1 == v.line_offsets@[i + 1],
        i + 1 == v.line_offsets@.len() ==> r.1 == v.bytes().len(),
        v.line(i as int) == v.bytes().subrange(r.0 as int, r.1 as int),
        forall|p: int|
            r.0 <= p < r.1 ==> (#[trigger] v.bytes()[p] == 0x0a <==> i + 1 < v.count() && p + 1
                == r.1),
{
    lemma_line_bounds(v.bytes(), v.line_offsets@, i as int);
    assert forall|p: int| r.0 <= p < r.1 implies (#[trigger] v.bytes()[p] == 0x0a <==> i + 1
        < v.count() && p + 1 == r.1) by {
        lemma_line_feeds(v.bytes(), v.line_offsets@, i as int, p);
    }
}

/// A line of a document holds the bytes of the file from where it starts to where the next one starts,
/// or to the end.
pub proof fn law_line_slice(doc: &Document, i: usize, r: &[u8])
    requires
        doc.wf(),
        i < doc.count(),
        call_ensures(Document::line_slice, (doc, i), r),
    ensures
        ({
            let from = doc.line_offsets@[i as int] as int;
            let to = if i + 1 < doc.line_offsets@.len() {
                doc.line_offsets@[i + 1] as int
            } else {
                doc.source@.len() as int
            };
            0 <= from <= to <= doc.source@.len() && r@ == doc.source@.subrange(from, to)
        }),
{
    lemma_line_bounds(doc.source@, doc.line_offsets@, i as int);
}

/// The thumb takes its share of the scrollbar, stands as far down as the first visible line does, and
/// is what the scrollbar shows as full blocks.
pub proof fn law_scrollbar(
    top: usize,
    rows: usize,
    count: usize,
    thumb: (usize, usize),
    column: Vec<char>,
    x: int,
)
    requires
        0 < rows < count,
        rows * rows <= usize::MAX,
        top * rows <= usize::MAX,
        call_ensures(scrollbar_thumb, (top, rows, count), thumb),
        call_ensures(scrollbar_column, (top, rows, count), column),
    ensures
        ({
            let size = thumb.1 - thumb.0;
            let track = rows - size;
            &&& size >= 1 && thumb.1 <= rows
            &&& size > 1 ==> size * count <= rows * rows
            &&& rows * rows < (size + 1) * count
            &&& thumb.0 * (count - rows) <= top * track
            &&& thumb.0 < track ==> top * track < (thumb.0 + 1) * (count - rows)
            &&& column@.len() == rows
            &&& 0 <= x < rows ==> column@[x] == if thumb.0 <= x < thumb.1 {
                '█'
            } else {
                '░'
            }
        }),
{
    crate::scrollbar::law_thumb_share(rows, count);
    crate::scrollbar::law_thumb_in_proportion(top, rows, count);
}

/// A row of the scrollbar scrolls as far down the lines as it stands down the track.
pub proof fn law_scrollbar_row(row: usize, rows: usize, count: usize, r: usize)
    requires
        0 < rows < count,
        row < rows,
        rows * count <= usize::MAX,
        call_ensures(scrollbar_target, (row, rows, count), r),
    ensures
        ({
            let track = crate::scrollbar::track_rows(rows, count);
            let tops = count - rows;
            &&& r <= tops
            &&& track == 0 ==> r == 0
            &&& track > 0 ==> r * track <= row * tops
            &&& track > 0 && r < tops ==> row * tops < (r + 1) * track
        }),
{
    crate::scrollbar::law_row_in_proportion(row, rows, count);
}

/// The scrollbar of a screen shows the thumb, and its status bar the number of lines and what is
/// visible first, cut off behind the last column.
pub proof fn law_render_frame(v: &Viewer, width: u16, height: u16, f: Frame, x: int) -> (r: (
    Seq<char>,
    Seq<char>,
    Seq<char>,
))
    requires
        v.wf(),
        call_ensures(Viewer::render, (v, width, height), f),
    ensures
        writes(r.0, v.line_offsets@.len()),
        v.top_line < usize::MAX ==> writes(r.1, (v.top_line + 1) as nat),
        v.left_col < usize::MAX ==> writes(r.2, (v.left_col + 1) as nat),
        ({
            let full = "Lines: "@ + r.0 + " | Top: "@ + r.1 + " | Left: "@ + r.2
                + " | q: quit | g: goto | f: find | n/p: next/prev | ←/→ ↑/↓ PgUp/PgDn Home/End"@;
            &&& full.len() <= width ==> f.status@ == full
            &&& full.len() > width ==> f.status@ == full.take(width as int)
        }),
        width > 0 && 0 <= x < f.scrollbar@.len() ==> {
            let rows = if height >= 2 {
                (height - 2) as usize
            } else {
                0
            };
            let thumb = crate::scrollbar::thumb_rows(v.top_line, rows, v.count() as usize);
            f.scrollbar@[x] == if thumb.0 <= x < thumb.1 {
                '█'
            } else {
                '░'
            }
        },
{
    let full = crate::frame::status_text(v.count(), v.top_line, v.left_col);
    assert(full.take(full.len() as int) =~= full);
    crate::text_laws::law_status_tells(v.line_offsets@.len(), v.top_line, v.left_col)
}

/// The first name behind its `<`, or its `</`, is the name of a tag; a tag of two bytes has none.
pub proof fn law_tag_name(
    bytes: &[u8],
    start: usize,
    end: usize,
    closing: bool,
    r: &[u8],
    i: int,
    j: int,
)
    requires
        end <= bytes@.len(),
        call_ensures(extract_tag_name, (bytes, start, end, closing), r),
    ensures
        end <= start + 2 ==> r@.len() == 0,
        end > start + 2 ==> {
            let c = bytes@.subrange(start as int, end as int);
            let from: int = if closing && c[1] == 0x2f {
                2
            } else {
                1
            };
            name_span(c, from, i, j) ==> r@ == c.subrange(i, j)
        },
{
    if end > start + 2 {
        let c = bytes@.subrange(start as int, end as int);
        let from: int = if closing && c[1] == 0x2f {
            2
        } else {
            1
        };
        if name_span(c, from, i, j) {
            crate::xml_layout_laws::lemma_name(c, closing, i, j);
        }
    }
}

/// A byte is shown as itself, as a blank or as a dot, and takes its columns; a byte order mark at the
/// start of the file is not shown.
pub proof fn law_bytes_on_screen(
    b: u8,
    tab: usize,
    i: usize,
    line: &[u8],
    ch: char,
    width: usize,
    skipped: usize,
)
    requires
        call_ensures(crate::layout::char_of_byte, (b,), ch),
        call_ensures(crate::layout::width_of_byte, (b, tab), width),
        call_ensures(crate::layout::skipped_prefix_len, (i, line), skipped),
    ensures
        shows(b, ch),
        width == room(b, tab as nat),
        skipped == hidden_start(i as int, line@),
{
}

/// The separator is the one that the user names, else the one that the file suggests.
pub proof fn law_resolve(named: Option<&str>, bytes: &[u8], r: Result<u8, CsvSeparatorError>)
    requires
        call_ensures(resolve_csv_separator, (named, bytes), r),
    ensures
        named matches Some(raw) ==> match r {
            Ok(b) => named_separator(raw@) == Some(b),
            Err(_) => named_separator(raw@) is None,
        },
        named is None ==> (r matches Ok(b) && is_likeliest_separator(bytes@, b)),
{
}

/// The number of a line is counted from one and stands right in a column of seven.
pub proof fn law_number_label(i: usize, label: String) -> (r: int)
    requires
        i < usize::MAX,
        call_ensures(line_number_label, (i,), label),
    ensures
        0 <= r <= label@.len(),
        forall|x: int| 0 <= x < r ==> label@[x] == ' ',
        writes(label@.skip(r), (i + 1) as nat),
        label@.len() >= 7,
        label@.len() > 7 ==> r == 0,
{
    law_line_label(i)
}

/// An editor starts with nothing edited and nothing to say, and edits one line at a time.
pub proof fn law_editor_starts(doc: Document, path: String, app: GuiApp, i: usize, editing: bool)
    requires
        call_ensures(GuiApp::new, (doc, path), app),
        call_ensures(GuiApp::is_editing, (&app, i), editing),
    ensures
        app.doc == doc,
        app.save_path@ == path@,
        app.edit_line is None,
        app.edit_buffer@.len() == 0 && app.status@.len() == 0,
        !editing,
{
}

/// A line is being edited if and only if it is the one that is.
pub proof fn law_is_editing(app: &GuiApp, i: usize, r: bool)
    requires
        call_ensures(GuiApp::is_editing, (app, i), r),
    ensures
        r <==> app.edit_line == Some(i),
{
}

/// A session starts with a screen to draw and nothing held, a question for a line with nothing
/// typed, and one for a text with what it is given.
pub proof fn law_fresh(session: Session, goto: GotoPrompt, input: String, find: FindPrompt)
    requires
        call_ensures(Session::new, (), session),
        call_ensures(GotoPrompt::new, (), goto),
        call_ensures(FindPrompt::with_input, (input,), find),
    ensures
        session.needs_redraw && !session.scrollbar_drag && !session.selection_drag,
        goto.input@.len() == 0,
        find.input@ == input@,
{
}

/// The lines and the bytes that are shown are those that were indexed, and the edited lines are
/// counted once each.
pub proof fn law_counts(
    v: &Viewer,
    doc: &Document,
    lines: usize,
    bytes: &[u8],
    rows: usize,
    modified: usize,
)
    requires
        call_ensures(Viewer::line_count, (v,), lines),
        call_ensures(Viewer::view_bytes, (v,), bytes),
        call_ensures(Document::line_count, (doc,), rows),
        call_ensures(Document::modified_count, (doc,), modified),
    ensures
        lines == v.line_offsets@.len(),
        v.formatted_view is None ==> bytes@ == v.source@,
        v.formatted_view matches Some(view) ==> bytes@ == view@,
        rows == doc.line_offsets@.len(),
        modified == doc.dirty_lines@.len(),
{
}

/// Both indexes of lines are the same.
pub proof fn law_indexes_agree(bytes: &[u8], a: Vec<usize>, b: Vec<usize>)
    requires
        call_ensures(Viewer::index_lines, (bytes,), a),
        call_ensures(Document::index_lines, (bytes,), b),
    ensures
        a@ == b@,
{
    crate::lines::law_line_index_unique(bytes@, a@, b@);
}

/// Trimming takes the whitespace off both ends and nothing else, of bytes and of texts.
pub proof fn law_trimming(bytes: &[u8], text: &str, a: &[u8], b: String) -> (r: (
    (int, int),
    (int, int),
))
    requires
        call_ensures(crate::xml_format::trim_ascii_whitespace, (bytes,), a),
        call_ensures(trimmed, (text,), b),
    ensures
        ({
            let (from, to) = r.0;
            &&& 0 <= from <= to <= bytes@.len()
            &&& a@ == bytes@.subrange(from, to)
            &&& forall|x: int|
                0 <= x < from || to <= x < bytes@.len() ==> xml_blank(#[trigger] bytes@[x])
            &&& from < to ==> !xml_blank(bytes@[from]) && !xml_blank(bytes@[to - 1])
        }),
        ({
            let (from, to) = r.1;
            &&& 0 <= from <= to <= text@.len()
            &&& b@ == text@.subrange(from, to)
            &&& forall|x: int|
                0 <= x < from || to <= x < text@.len() ==> crate::editor::is_white_space(
                    #[trigger] text@[x],
                )
            &&& from < to ==> !crate::editor::is_white_space(text@[from])
                && !crate::editor::is_white_space(text@[to - 1])
        }),
{
    let x = crate::text_laws::law_bytes_are_trimmed(bytes@);
    let y = law_path_is_trimmed(text@);
    (x, y)
}

} // verus!
