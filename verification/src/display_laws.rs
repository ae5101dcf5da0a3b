//! What stands where on the screen, told from the bytes of the file and the state of the viewer.
use vstd::prelude::*;

use crate::alignment::{
    column_start, fields_fit, lemma_first_field, lemma_line_fields_fit, lemma_narrower_fits,
};
use crate::csv::{byte_width, csv_fields, file_fields};
use crate::frame::{json_style, xml_style};
use crate::json::{json_classes, law_json_classes_len, JsonTokenClass};
use crate::json_laws::{class_by_place, law_json_class_by_place};
use crate::layout::{
    alike, byte_char, class_at, csv_cells, padding, plain_cells, prefix_len, separator_cells,
    shown_chars, takes_no_room, LineContext,
};
use crate::lines::{lemma_line_bounds, lemma_line_feeds, line_end};
use crate::render::{law_grouping_keeps_cells, ungroup_runs, visible_cells, Cell, RenderClass};
use crate::text::saturated;
use crate::viewer::Viewer;
use crate::xml::{law_xml_classes_len, xml_classes, XmlMode, XmlTokenClass};
use crate::xml_laws::{law_xml_class_by_place, xml_class_by_place};

verus! {

/// A line feed and a carriage return are not shown.
pub open spec fn unseen(b: u8) -> bool {
    b == 0x0a || b == 0x0d
}

/// How many columns a byte takes that is shown: a tab as many as it is wide, any other byte one.
pub open spec fn room(b: u8, tab: nat) -> nat {
    if b == 0x09 {
        tab
    } else {
        1
    }
}

/// `ch` shows the byte `b`: printable ASCII itself, a tab a blank, anything else a middle dot.
pub open spec fn shows(b: u8, ch: char) -> bool {
    &&& 0x20 <= b <= 0x7e ==> ch as u32 == b as u32
    &&& b == 0x09 ==> ch == ' '
    &&& b < 0x20 && b != 0x09 || b > 0x7e ==> ch == '·'
}

/// How many bytes at the start of line `i` are not shown: those of a byte order mark at the start of
/// the file.
pub open spec fn hidden_start(i: int, line: Seq<u8>) -> int {
    if i == 0 && line.len() >= 3 && line[0] == 0xef && line[1] == 0xbb && line[2] == 0xbf {
        3
    } else {
        0
    }
}

/// `n` lies between `a` and `b`, both of them included, whichever is smaller.
pub open spec fn between(a: usize, b: usize, n: int) -> bool {
    a <= n <= b || b <= n <= a
}

/// `n`, or the largest `usize` where it is larger.
pub open spec fn capped(n: nat) -> int {
    if n <= usize::MAX {
        n as int
    } else {
        usize::MAX as int
    }
}

/// The byte `k` of line `i`, shown from the column `col` on, is to stand out: it lies in the match that
/// was found, between the ends of the selected text, or in the selected block.
pub open spec fn marked(v: Viewer, i: int, k: int, col: nat) -> bool {
    let offset = v.line_offsets@[i] + k;
    ||| v.match_range matches Some((from, to)) && from <= offset < to
    ||| v.selection_anchor matches Some(a) && v.selection_focus matches Some(b) && (a <= offset < b
        || b <= offset < a)
    ||| v.block_selection_anchor matches Some((l, c)) && v.block_selection_focus matches Some(
        (m, d),
    ) && (l != m || c != d) && between(l, m, i) && between(c, d, capped(col))
}

/// How many columns the bytes of a line from `a` up to `k` take.
pub open spec fn columns_taken(line: Seq<u8>, tab: nat, a: int, k: int) -> nat
    decreases k - a,
{
    if k <= a {
        0
    } else if unseen(line[k - 1]) {
        columns_taken(line, tab, a, k - 1)
    } else {
        columns_taken(line, tab, a, k - 1) + room(line[k - 1], tab)
    }
}

/// The look of a class of JSON.
pub open spec fn json_look(class: JsonTokenClass) -> RenderClass {
    match class {
        JsonTokenClass::Text => RenderClass::Text,
        JsonTokenClass::Delimiter => RenderClass::TagDelimiter,
        JsonTokenClass::Key => RenderClass::AttributeName,
        JsonTokenClass::String => RenderClass::AttributeValue,
        JsonTokenClass::Number => RenderClass::TagName,
        JsonTokenClass::Keyword => RenderClass::Comment,
    }
}

/// The look of a class of XML.
pub open spec fn xml_look(class: XmlTokenClass) -> RenderClass {
    match class {
        XmlTokenClass::Text => RenderClass::Text,
        XmlTokenClass::TagDelimiter => RenderClass::TagDelimiter,
        XmlTokenClass::TagName => RenderClass::TagName,
        XmlTokenClass::AttributeName => RenderClass::AttributeName,
        XmlTokenClass::AttributeValue => RenderClass::AttributeValue,
        XmlTokenClass::Comment => RenderClass::Comment,
    }
}

/// The look of the byte `k` of a line: that of its class in the one syntax that is highlighted.
pub open spec fn look(v: Viewer, line: Seq<u8>, k: int) -> RenderClass {
    if v.aligned() || v.json_syntax_highlighting == v.xml_syntax_highlighting {
        RenderClass::Text
    } else if v.json_syntax_highlighting {
        json_look(class_by_place(line, k))
    } else {
        xml_look(xml_class_by_place(line, k))
    }
}

/// The cell `cell` shows the byte `k` of line `i`, which is shown from the column `col` on.
pub open spec fn shows_byte(v: Viewer, i: int, k: int, col: nat, cell: Cell) -> bool {
    &&& shows(v.line(i)[k], cell.ch)
    &&& cell.highlighted == marked(v, i, k, col)
    &&& cell.class == look(v, v.line(i), k)
}

/// A blank that does not stand out.
pub open spec fn is_filler(cell: Cell) -> bool {
    cell.ch == ' ' && !cell.highlighted && cell.class == RenderClass::Text
}

proof fn lemma_taken_rises(line: Seq<u8>, tab: nat, a: int, k: int, m: int)
    requires
        a <= k <= m,
    ensures
        columns_taken(line, tab, a, k) <= columns_taken(line, tab, a, m),
    decreases m - k,
{
    if k < m {
        lemma_taken_rises(line, tab, a, k, m - 1);
    }
}

proof fn lemma_stands_out(v: Viewer, i: int, k: int, col: nat)
    requires
        0 <= i < v.count(),
    ensures
        v.context(i).stands_out(k, col) == marked(v, i, k, col),
{
    assert(v.line_offsets@.len() == v.line_offsets.len());
}

proof fn lemma_byte_shown(b: u8)
    ensures
        shows(b, byte_char(b)),
        forall|tab: nat| byte_width(b, tab) == #[trigger] room(b, tab),
        takes_no_room(b) == unseen(b),
{
}

proof fn lemma_look(v: Viewer, line: Seq<u8>, k: int)
    requires
        0 <= k < line.len(),
    ensures
        class_at(v.styles(line), k) == look(v, line, k),
{
    if v.aligned() || v.json_syntax_highlighting == v.xml_syntax_highlighting {
    } else if v.json_syntax_highlighting {
        law_json_classes_len(true, line);
        law_json_class_by_place(line, k);
        assert(v.styles(line)[k] == json_style(json_classes(true, line)[k]));
    } else {
        law_xml_classes_len(XmlMode::Content, line);
        law_xml_class_by_place(line, k);
        assert(v.styles(line)[k] == xml_style(xml_classes(XmlMode::Content, line)[k]));
    }
}

proof fn lemma_plain(
    ctx: LineContext,
    line: Seq<u8>,
    classes: Seq<RenderClass>,
    a: int,
    n: int,
    k: int,
    t: int,
)
    requires
        0 <= a <= n <= k < line.len(),
        !unseen(line[k]),
        0 <= t < room(line[k], ctx.tab_width as nat),
    ensures
        ({
            let tab = ctx.tab_width as nat;
            let from = columns_taken(line, tab, a, n);
            let at = columns_taken(line, tab, a, k);
            let cells = plain_cells(ctx, line, classes, n, from);
            &&& from <= at
            &&& at + t - from < cells.len()
            &&& cells[at + t - from] == Cell {
                ch: byte_char(line[k]),
                highlighted: ctx.stands_out(k, at),
                class: class_at(classes, k),
            }
        }),
    decreases k - n,
{
    let tab = ctx.tab_width as nat;
    lemma_taken_rises(line, tab, a, n, k);
    lemma_byte_shown(line[n]);
    let from = columns_taken(line, tab, a, n);
    let cells = plain_cells(ctx, line, classes, n, from);
    if n < k {
        lemma_plain(ctx, line, classes, a, n + 1, k, t);
        lemma_taken_rises(line, tab, a, n + 1, k);
        let next = columns_taken(line, tab, a, n + 1);
        let rest = plain_cells(ctx, line, classes, n + 1, next);
        let at = columns_taken(line, tab, a, k);
        if !unseen(line[n]) {
            assert(next == from + room(line[n], tab));
            assert(cells[at + t - from] == rest[at + t - next]);
        }
    }
}

proof fn lemma_plain_len(
    ctx: LineContext,
    line: Seq<u8>,
    classes: Seq<RenderClass>,
    a: int,
    n: int,
)
    requires
        0 <= a <= n <= line.len(),
    ensures
        ({
            let tab = ctx.tab_width as nat;
            let from = columns_taken(line, tab, a, n);
            plain_cells(ctx, line, classes, n, from).len() + from == columns_taken(
                line,
                tab,
                a,
                line.len() as int,
            )
        }),
    decreases line.len() - n,
{
    if n < line.len() {
        lemma_byte_shown(line[n]);
        lemma_plain_len(ctx, line, classes, a, n + 1);
    }
}

/// Where values are not aligned, every byte of a line that is shown takes its columns behind those
/// of the bytes before it; it is shown as itself, in the look of its class, and stands out if it is
/// found or selected.
pub proof fn law_plain_byte(v: Viewer, i: int, k: int, t: int)
    requires
        v.wf(),
        !v.aligned(),
        0 <= i < v.count(),
        hidden_start(i, v.line(i)) <= k < v.line(i).len(),
        !unseen(v.line(i)[k]),
        0 <= t < room(v.line(i)[k], v.tab_width as nat),
    ensures
        ({
            let col = columns_taken(
                v.line(i),
                v.tab_width as nat,
                hidden_start(i, v.line(i)),
                k,
            );
            &&& col + t < v.line_cells(i).len()
            &&& shows_byte(v, i, k, col, v.line_cells(i)[col + t])
        }),
{
    let line = v.line(i);
    let a = hidden_start(i, line);
    assert(prefix_len(i, line) == a);
    lemma_plain(v.context(i), line, v.styles(line), a, a, k, t);
    lemma_stands_out(v, i, k, columns_taken(line, v.tab_width as nat, a, k));
    lemma_byte_shown(line[k]);
    lemma_look(v, line, k);
}

/// Where values are not aligned, a line takes the columns of its bytes and no others.
pub proof fn law_plain_length(v: Viewer, i: int)
    requires
        v.wf(),
        !v.aligned(),
        0 <= i < v.count(),
    ensures
        v.line_cells(i).len() == columns_taken(
            v.line(i),
            v.tab_width as nat,
            hidden_start(i, v.line(i)),
            v.line(i).len() as int,
        ),
{
    let line = v.line(i);
    let a = hidden_start(i, line);
    assert(prefix_len(i, line) == a);
    lemma_plain_len(v.context(i), line, v.styles(line), a, a);
}

/// How many separators stand in a line from `a` up to `k`.
pub open spec fn separators_in(line: Seq<u8>, separator: u8, a: int, k: int) -> nat
    decreases k - a,
{
    if k <= a {
        0
    } else if !unseen(line[k - 1]) && line[k - 1] == separator {
        separators_in(line, separator, a, k - 1) + 1
    } else {
        separators_in(line, separator, a, k - 1)
    }
}

/// How many columns the bytes of a field take before the byte `k` of a line.
pub open spec fn field_taken(line: Seq<u8>, separator: u8, tab: nat, a: int, k: int) -> nat
    decreases k - a,
{
    if k <= a {
        0
    } else if unseen(line[k - 1]) {
        field_taken(line, separator, tab, a, k - 1)
    } else if line[k - 1] == separator {
        0
    } else {
        field_taken(line, separator, tab, a, k - 1) + room(line[k - 1], tab)
    }
}

/// The column that the byte `k` of an aligned line is reached at: the start of the column of its
/// field, and behind it the bytes of the field before `k`.
pub open spec fn reached(
    line: Seq<u8>,
    widths: Seq<usize>,
    separator: u8,
    tab: nat,
    a: int,
    k: int,
) -> nat {
    column_start(widths, separators_in(line, separator, a, k)) + field_taken(
        line,
        separator,
        tab,
        a,
        k,
    )
}

/// The fields from the byte `n` of a line on fit.
spec fn rest_fits(
    line: Seq<u8>,
    widths: Seq<usize>,
    separator: u8,
    tab: nat,
    a: int,
    n: int,
) -> bool {
    fields_fit(
        csv_fields(
            line.skip(n),
            separator,
            tab,
            separators_in(line, separator, a, n),
            field_taken(line, separator, tab, a, n),
        ),
        widths,
    )
}

proof fn lemma_fit_step(
    line: Seq<u8>,
    widths: Seq<usize>,
    separator: u8,
    tab: nat,
    a: int,
    n: int,
)
    requires
        0 <= a <= n < line.len(),
        line[n] == 0x0a ==> n + 1 == line.len(),
        rest_fits(line, widths, separator, tab, a, n),
    ensures
        n + 1 < line.len() || line[n] != 0x0a ==> rest_fits(line, widths, separator, tab, a, n + 1),
        separators_in(line, separator, a, n) < widths.len(),
        field_taken(line, separator, tab, a, n) <= widths[separators_in(
            line,
            separator,
            a,
            n,
        ) as int],
        !unseen(line[n]) && line[n] != separator ==> field_taken(line, separator, tab, a, n) + room(
            line[n],
            tab,
        ) <= widths[separators_in(line, separator, a, n) as int],
{
    let s = line.skip(n);
    let c = separators_in(line, separator, a, n);
    let w = field_taken(line, separator, tab, a, n);
    let fields = csv_fields(s, separator, tab, c, w);
    lemma_first_field(s, separator, tab, c, w);
    assert(fields[0].column < widths.len() && fields[0].width <= widths[fields[0].column as int]);
    assert(s[0] == line[n]);
    assert(s.skip(1) =~= line.skip(n + 1));
    lemma_byte_shown(line[n]);
    if !unseen(line[n]) {
        if line[n] == separator {
            let rest = csv_fields(s.skip(1), separator, tab, c + 1, 0);
            assert forall|k: int| 0 <= k < rest.len() implies (#[trigger] rest[k]).column
                < widths.len() && rest[k].width <= widths[rest[k].column as int] by {
                assert(rest[k] == fields[k + 1]);
            }
        } else {
            lemma_first_field(s.skip(1), separator, tab, c, w + room(line[n], tab));
            assert(fields == csv_fields(s.skip(1), separator, tab, c, w + room(line[n], tab)));
        }
    }
}

/// What the byte `k` puts where in an aligned line.
spec fn puts(
    ctx: LineContext,
    line: Seq<u8>,
    widths: Seq<usize>,
    separator: u8,
    a: int,
    k: int,
    from: nat,
    cells: Seq<Cell>,
) -> bool {
    let tab = ctx.tab_width as nat;
    let c = separators_in(line, separator, a, k);
    let at = reached(line, widths, separator, tab, a, k);
    let mark = column_start(widths, c) + widths[c as int] as nat;
    &&& c < widths.len()
    &&& from <= at
    &&& line[k] != separator ==> {
        &&& at + room(line[k], tab) <= mark
        &&& at + room(line[k], tab) - from <= cells.len()
        &&& forall|t: int|
            0 <= t < room(line[k], tab) ==> #[trigger] cells[at - from + t] == (Cell {
                ch: byte_char(line[k]),
                highlighted: ctx.stands_out(k, at),
                class: RenderClass::Text,
            })
    }
    &&& line[k] == separator ==> {
        &&& at <= mark
        &&& mark + 2 - from <= cells.len()
        &&& forall|x: int| at <= x < mark ==> is_filler(#[trigger] cells[x - from])
        &&& cells[mark - from] == Cell {
            ch: separator as char,
            highlighted: ctx.stands_out(k, at),
            class: RenderClass::Text,
        }
        &&& is_filler(cells[mark + 1 - from])
    }
}

proof fn lemma_aligned(
    ctx: LineContext,
    line: Seq<u8>,
    widths: Seq<usize>,
    separator: u8,
    a: int,
    n: int,
    k: int,
)
    requires
        0 <= a <= n <= k < line.len(),
        !unseen(line[k]),
        forall|x: int| 0 <= x < line.len() && #[trigger] line[x] == 0x0a ==> x + 1 == line.len(),
        rest_fits(line, widths, separator, ctx.tab_width as nat, a, n),
    ensures
        ({
            let tab = ctx.tab_width as nat;
            let from = reached(line, widths, separator, tab, a, n);
            let cells = csv_cells(
                ctx,
                line,
                widths,
                separator,
                n,
                from,
                separators_in(line, separator, a, n),
                field_taken(line, separator, tab, a, n),
            );
            puts(ctx, line, widths, separator, a, k, from, cells)
        }),
    decreases k - n,
{
    let tab = ctx.tab_width as nat;
    let c = separators_in(line, separator, a, n);
    let used = field_taken(line, separator, tab, a, n);
    let from = reached(line, widths, separator, tab, a, n);
    let cells = csv_cells(ctx, line, widths, separator, n, from, c, used);
    lemma_fit_step(line, widths, separator, tab, a, n);
    lemma_byte_shown(line[n]);
    if n < k {
        assert(line[n] != 0x0a);
        lemma_aligned(ctx, line, widths, separator, a, n + 1, k);
        let c1 = separators_in(line, separator, a, n + 1);
        let used1 = field_taken(line, separator, tab, a, n + 1);
        let next = reached(line, widths, separator, tab, a, n + 1);
        let rest = csv_cells(ctx, line, widths, separator, n + 1, next, c1, used1);
        if unseen(line[n]) {
            assert(cells == rest && next == from);
        } else {
            let head = if line[n] == separator {
                let mark = separator_cells(widths, separator, c, used, ctx.stands_out(n, from));
                assert(mark.len() == widths[c as int] - used + 2);
                assert(column_start(widths, c + 1) == column_start(widths, c) + widths[c as int]
                    + 2);
                mark
            } else {
                alike(
                    room(line[n], tab),
                    byte_char(line[n]),
                    ctx.stands_out(n, from),
                    RenderClass::Text,
                )
            };
            assert(next == from + head.len());
            assert(cells == head + rest);
            assert forall|x: int| next <= x < next + rest.len() implies #[trigger] cells[x - from]
                == rest[x - next] by {}
            let ck = separators_in(line, separator, a, k);
            let at = reached(line, widths, separator, tab, a, k);
            let mark = column_start(widths, ck) + widths[ck as int] as nat;
            if line[k] != separator {
                assert forall|t: int| 0 <= t < room(line[k], tab) implies #[trigger] cells[at - from
                    + t] == (Cell {
                    ch: byte_char(line[k]),
                    highlighted: ctx.stands_out(k, at),
                    class: RenderClass::Text,
                }) by {
                    assert(cells[(at + t) - from] == rest[at - next + t]);
                }
            } else {
                assert forall|x: int| at <= x < mark implies is_filler(#[trigger] cells[x - from]) by {
                    assert(cells[x - from] == rest[x - next]);
                }
                assert(cells[mark - from] == rest[mark - next]);
                assert(cells[(mark + 1) - from] == rest[mark + 1 - next]);
            }
        }
    } else if line[k] == separator {
        let head = separator_cells(widths, separator, c, used, ctx.stands_out(n, from));
        let mark = column_start(widths, c) + widths[c as int] as nat;
        let pad = padding(widths, c, used) as int;
        assert(pad == mark - from);
        assert(head.len() == pad + 2);
        let rest = csv_cells(
            ctx,
            line,
            widths,
            separator,
            n + 1,
            from + head.len(),
            c + 1,
            0,
        );
        assert(cells == head + rest);
        assert forall|x: int| from <= x < mark implies is_filler(#[trigger] cells[x - from]) by {
            assert(cells[x - from] == head[x - from]);
        }
        assert(cells[pad] == head[pad]);
        assert(cells[pad + 1] == head[pad + 1]);
    } else {
        let width = room(line[n], tab);
        let rest = csv_cells(
            ctx,
            line,
            widths,
            separator,
            n + 1,
            from + width,
            c,
            used + width,
        );
        let head = alike(
            width,
            byte_char(line[n]),
            ctx.stands_out(n, from),
            RenderClass::Text,
        );
        assert(cells == head + rest);
        assert forall|t: int| 0 <= t < width implies #[trigger] cells[from - from + t] == (Cell {
            ch: byte_char(line[k]),
            highlighted: ctx.stands_out(k, from),
            class: RenderClass::Text,
        }) by {
            assert(cells[t] == head[t]);
        }
    }
}

proof fn lemma_aligned_len(
    ctx: LineContext,
    line: Seq<u8>,
    widths: Seq<usize>,
    separator: u8,
    a: int,
    n: int,
)
    requires
        0 <= a <= n <= line.len(),
        forall|x: int| 0 <= x < line.len() && #[trigger] line[x] == 0x0a ==> x + 1 == line.len(),
        n < line.len() ==> rest_fits(line, widths, separator, ctx.tab_width as nat, a, n),
    ensures
        ({
            let tab = ctx.tab_width as nat;
            let from = reached(line, widths, separator, tab, a, n);
            from + csv_cells(
                ctx,
                line,
                widths,
                separator,
                n,
                from,
                separators_in(line, separator, a, n),
                field_taken(line, separator, tab, a, n),
            ).len() == reached(line, widths, separator, tab, a, line.len() as int)
        }),
    decreases line.len() - n,
{
    let tab = ctx.tab_width as nat;
    if n < line.len() {
        let c = separators_in(line, separator, a, n);
        let used = field_taken(line, separator, tab, a, n);
        let from = reached(line, widths, separator, tab, a, n);
        lemma_fit_step(line, widths, separator, tab, a, n);
        lemma_byte_shown(line[n]);
        lemma_aligned_len(ctx, line, widths, separator, a, n + 1);
        if !unseen(line[n]) && line[n] == separator {
            let mark = separator_cells(widths, separator, c, used, ctx.stands_out(n, from));
            assert(mark.len() == widths[c as int] - used + 2);
            assert(column_start(widths, c + 1) == column_start(widths, c) + widths[c as int] + 2);
        }
    }
}

/// The values of a viewer are aligned, and no column is wider than a `usize` can tell.
pub open spec fn well_aligned(v: Viewer) -> bool {
    &&& v.wf()
    &&& v.aligned()
    &&& forall|c: int|
        0 <= c < v.csv_column_widths->0@.len() ==> #[trigger] v.csv_column_widths->0@[c]
            < usize::MAX
}

proof fn lemma_line_fits(v: Viewer, i: int)
    requires
        well_aligned(v),
        0 <= i < v.count(),
    ensures
        ({
            let line = v.line(i);
            let a = hidden_start(i, line);
            &&& rest_fits(
                line,
                v.csv_column_widths->0@,
                v.csv_separator->0,
                v.tab_width as nat,
                a,
                a,
            )
            &&& forall|x: int|
                0 <= x < line.len() && #[trigger] line[x] == 0x0a ==> x + 1 == line.len()
        }),
{
    let bytes = v.bytes();
    let offsets = v.line_offsets@;
    let separator = v.csv_separator->0;
    let tab = v.tab_width as nat;
    let widths = v.csv_column_widths->0@;
    let line = v.line(i);
    let all = file_fields(bytes, separator, v.tab_width);
    lemma_line_bounds(bytes, offsets, i);
    let start = offsets[i] as int;
    let end = line_end(bytes, offsets, i);
    lemma_first_field(bytes, separator, tab, 0, 0);
    assert(all[0].column < widths.len());
    assert forall|k: int| 0 <= k < all.len() implies (#[trigger] all[k]).column < widths.len()
        && all[k].width <= widths[all[k].column as int] by {
        assert(saturated(all[k].width) <= widths[all[k].column as int]);
        assert(widths[all[k].column as int] < usize::MAX);
    }
    lemma_line_fields_fit(bytes, start, end, separator, tab, widths);
    assert(bytes.subrange(start, end) == line);
    let a = hidden_start(i, line);
    assert(line.skip(0) =~= line);
    if a == 3 {
        assert(line.skip(1).skip(1).skip(1) =~= line.skip(3));
        assert(line.skip(1)[0] == line[1] && line.skip(1).skip(1)[0] == line[2]);
        reveal_with_fuel(csv_fields, 4);
        assert(csv_fields(line, separator, tab, 0, 0) == csv_fields(
            line.skip(3),
            separator,
            tab,
            0,
            3,
        ));
        lemma_narrower_fits(line.skip(3), separator, tab, 0, 3, 0, widths);
    }
    assert forall|x: int| 0 <= x < line.len() && #[trigger] line[x] == 0x0a implies x + 1
        == line.len() by {
        lemma_line_feeds(bytes, offsets, i, start + x);
    }
}

/// Where values are aligned, every byte of a field is shown as itself, behind the bytes of its field
/// before it, in the columns of the screen that belong to its column, and stands out if it is found
/// or selected.
pub proof fn law_aligned_byte(v: Viewer, i: int, k: int, t: int)
    requires
        well_aligned(v),
        0 <= i < v.count(),
        hidden_start(i, v.line(i)) <= k < v.line(i).len(),
        !unseen(v.line(i)[k]),
        v.line(i)[k] != v.csv_separator->0,
        0 <= t < room(v.line(i)[k], v.tab_width as nat),
    ensures
        ({
            let widths = v.csv_column_widths->0@;
            let line = v.line(i);
            let a = hidden_start(i, line);
            let c = separators_in(line, v.csv_separator->0, a, k);
            let col = column_start(widths, c) + field_taken(
                line,
                v.csv_separator->0,
                v.tab_width as nat,
                a,
                k,
            );
            &&& c < widths.len()
            &&& col + t < column_start(widths, c) + widths[c as int]
            &&& col + t < v.line_cells(i).len()
            &&& shows_byte(v, i, k, col, v.line_cells(i)[col + t])
        }),
{
    let line = v.line(i);
    let a = hidden_start(i, line);
    let widths = v.csv_column_widths->0@;
    let separator = v.csv_separator->0;
    let tab = v.tab_width as nat;
    lemma_line_fits(v, i);
    assert(prefix_len(i, line) == a);
    lemma_aligned(v.context(i), line, widths, separator, a, a, k);
    let at = reached(line, widths, separator, tab, a, k);
    lemma_stands_out(v, i, k, at);
    lemma_byte_shown(line[k]);
    assert(reached(line, widths, separator, tab, a, a) == 0);
    assert(v.line_cells(i)[at - 0 + t] == (Cell {
        ch: byte_char(line[k]),
        highlighted: v.context(i).stands_out(k, at),
        class: RenderClass::Text,
    }));
}

/// Where values are aligned, blanks fill a field up to the width of its column, the separator
/// follows in the same column of the screen in every line, and a blank behind it.
pub proof fn law_aligned_separator(v: Viewer, i: int, k: int)
    requires
        well_aligned(v),
        0 <= i < v.count(),
        hidden_start(i, v.line(i)) <= k < v.line(i).len(),
        !unseen(v.line(i)[k]),
        v.line(i)[k] == v.csv_separator->0,
    ensures
        ({
            let widths = v.csv_column_widths->0@;
            let line = v.line(i);
            let a = hidden_start(i, line);
            let cells = v.line_cells(i);
            let c = separators_in(line, v.csv_separator->0, a, k);
            let at = column_start(widths, c) + field_taken(
                line,
                v.csv_separator->0,
                v.tab_width as nat,
                a,
                k,
            );
            let mark = column_start(widths, c) + widths[c as int];
            &&& c < widths.len()
            &&& at <= mark
            &&& mark + 1 < cells.len()
            &&& forall|x: int| at <= x < mark ==> is_filler(#[trigger] cells[x])
            &&& cells[mark].ch as u32 == v.csv_separator->0 as u32
            &&& cells[mark].highlighted == marked(v, i, k, at)
            &&& cells[mark].class == RenderClass::Text
            &&& is_filler(cells[mark + 1])
        }),
{
    let line = v.line(i);
    let a = hidden_start(i, line);
    let widths = v.csv_column_widths->0@;
    let separator = v.csv_separator->0;
    let tab = v.tab_width as nat;
    lemma_line_fits(v, i);
    assert(prefix_len(i, line) == a);
    lemma_aligned(v.context(i), line, widths, separator, a, a, k);
    let at = reached(line, widths, separator, tab, a, k);
    lemma_stands_out(v, i, k, at);
    assert(reached(line, widths, separator, tab, a, a) == 0);
    let c = separators_in(line, separator, a, k);
    let mark = column_start(widths, c) + widths[c as int];
    let cells = v.line_cells(i);
    assert forall|x: int| at <= x < mark implies is_filler(#[trigger] cells[x]) by {
        assert(is_filler(cells[x - 0]));
    }
}

/// Where values are aligned, a line ends with the last byte of its last field, or with the blank
/// behind its last separator.
pub proof fn law_aligned_length(v: Viewer, i: int)
    requires
        well_aligned(v),
        0 <= i < v.count(),
    ensures
        v.line_cells(i).len() == reached(
            v.line(i),
            v.csv_column_widths->0@,
            v.csv_separator->0,
            v.tab_width as nat,
            hidden_start(i, v.line(i)),
            v.line(i).len() as int,
        ),
{
    let line = v.line(i);
    let a = hidden_start(i, line);
    lemma_line_fits(v, i);
    assert(prefix_len(i, line) == a);
    lemma_aligned_len(v.context(i), line, v.csv_column_widths->0@, v.csv_separator->0, a, a);
}

/// A row shows of a line the columns from the first visible one on, as many as it has room for, each
/// in its place.
pub proof fn law_row_shows_window(v: Viewer, i: int, width: usize)
    ensures
        ({
            let cells = v.line_cells(i);
            let shown = ungroup_runs(v.row_runs(i, width));
            let left = v.left_col as int;
            &&& shown.len() == if cells.len() <= left {
                0
            } else if cells.len() - left <= width {
                cells.len() - left
            } else {
                width as int
            }
            &&& forall|x: int| 0 <= x < shown.len() ==> #[trigger] shown[x] == cells[left + x]
        }),
{
    law_grouping_keeps_cells(visible_cells(v.line_cells(i), v.left_col, width));
}

proof fn lemma_chars(line: Seq<u8>, tab: nat, a: int, n: int, k: int, t: int)
    requires
        0 <= a <= n <= k < line.len(),
        !unseen(line[k]),
        0 <= t < room(line[k], tab),
    ensures
        ({
            let from = columns_taken(line, tab, a, n);
            let at = columns_taken(line, tab, a, k);
            let chars = shown_chars(line, tab, n);
            &&& from <= at
            &&& at + t - from < chars.len()
            &&& shows(line[k], chars[at + t - from])
        }),
    decreases k - n,
{
    lemma_taken_rises(line, tab, a, n, k);
    lemma_byte_shown(line[n]);
    let from = columns_taken(line, tab, a, n);
    let chars = shown_chars(line, tab, n);
    let at = columns_taken(line, tab, a, k);
    if n < k {
        lemma_chars(line, tab, a, n + 1, k, t);
        lemma_taken_rises(line, tab, a, n + 1, k);
        let next = columns_taken(line, tab, a, n + 1);
        let rest = shown_chars(line, tab, n + 1);
        if !unseen(line[n]) {
            assert(chars[at + t - from] == rest[at + t - next]);
        }
    } else {
        assert(chars[t] == byte_char(line[n]));
    }
}

proof fn lemma_chars_len(line: Seq<u8>, tab: nat, a: int, n: int)
    requires
        0 <= a <= n <= line.len(),
    ensures
        shown_chars(line, tab, n).len() + columns_taken(line, tab, a, n) == columns_taken(
            line,
            tab,
            a,
            line.len() as int,
        ),
    decreases line.len() - n,
{
    if n < line.len() {
        lemma_byte_shown(line[n]);
        lemma_chars_len(line, tab, a, n + 1);
    }
}

/// The characters that a line shows are those of its bytes, each in the columns behind those of the
/// bytes before it, and no others.
pub proof fn law_line_chars(v: Viewer, i: int, k: int, t: int)
    requires
        0 <= i < v.count(),
    ensures
        ({
            let line = v.line(i);
            let tab = v.tab_width as nat;
            let a = hidden_start(i, line);
            let chars = v.chars_of_line(i);
            &&& chars.len() == columns_taken(line, tab, a, line.len() as int)
            &&& a <= k < line.len() && !unseen(line[k]) && 0 <= t < room(line[k], tab) ==> {
                let at = columns_taken(line, tab, a, k) + t;
                at < chars.len() && shows(line[k], chars[at])
            }
        }),
{
    let line = v.line(i);
    let tab = v.tab_width as nat;
    let a = hidden_start(i, line);
    assert(prefix_len(i, line) == a);
    lemma_chars_len(line, tab, a, a);
    if a <= k < line.len() && !unseen(line[k]) && 0 <= t < room(line[k], tab) {
        lemma_chars(line, tab, a, a, k, t);
    }
}

} // verus!
