//! Delimited values are aligned: the separators of a column stand below one another.
use vstd::prelude::*;

use crate::csv::{byte_width, csv_fields, file_fields, CsvField};
use crate::layout::{csv_cells, padding, prefix_len, separator_cells, takes_no_room, LineContext};
use crate::lines::{lemma_line_bounds, lemma_line_feeds, line_end};
use crate::text::saturated;
use crate::viewer::Viewer;

verus! {

/// The column of the screen at which the fields of column `c` start: each column before it takes
/// its width and two cells for the separator and a blank.
pub open spec fn column_start(widths: Seq<usize>, c: nat) -> nat
    decreases c,
{
    if c == 0 {
        0
    } else {
        column_start(widths, (c - 1) as nat) + widths[c - 1] as nat + 2
    }
}

/// The column of the screen at which the separators behind column `c` stand.
pub open spec fn separator_column(widths: Seq<usize>, c: nat) -> nat {
    column_start(widths, c) + widths[c as int] as nat
}

/// How many separators stand in `line` from the byte `i` up to the byte `p`, without it.
pub open spec fn separators_between(line: Seq<u8>, separator: u8, i: int, p: int) -> nat
    decreases p - i,
{
    if i >= p {
        0
    } else if !takes_no_room(line[i]) && line[i] == separator {
        1 + separators_between(line, separator, i + 1, p)
    } else {
        separators_between(line, separator, i + 1, p)
    }
}

/// Every field is as wide as its column at most.
pub open spec fn fields_fit(fields: Seq<CsvField>, widths: Seq<usize>) -> bool {
    forall|k: int|
        0 <= k < fields.len() ==> (#[trigger] fields[k]).column < widths.len() && fields[k].width
            <= widths[fields[k].column as int]
}

/// The first field is that of the column that `s` goes on in.
pub(crate) proof fn lemma_first_field(s: Seq<u8>, separator: u8, tab: nat, c: nat, w: nat)
    ensures
        csv_fields(s, separator, tab, c, w).len() > 0,
        csv_fields(s, separator, tab, c, w)[0].column == c,
        csv_fields(s, separator, tab, c, w)[0].width >= w,
    decreases s.len(),
{
    if s.len() > 0 && s[0] != 0x0a {
        if s[0] == 0x0d {
            lemma_first_field(s.skip(1), separator, tab, c, w);
        } else if s[0] != separator {
            lemma_first_field(s.skip(1), separator, tab, c, w + byte_width(s[0], tab));
        }
    }
}

/// Fields that start narrower fit as well.
pub(crate) proof fn lemma_narrower_fits(
    s: Seq<u8>,
    separator: u8,
    tab: nat,
    c: nat,
    w: nat,
    less: nat,
    widths: Seq<usize>,
)
    requires
        less <= w,
        fields_fit(csv_fields(s, separator, tab, c, w), widths),
    ensures
        fields_fit(csv_fields(s, separator, tab, c, less), widths),
    decreases s.len(),
{
    let wide = csv_fields(s, separator, tab, c, w);
    let narrow = csv_fields(s, separator, tab, c, less);
    if s.len() == 0 {
        assert(wide[0].width == w);
    } else if s[0] == 0x0a || (s[0] != 0x0d && s[0] == separator) {
        assert(wide[0] == (CsvField { column: c, width: w }));
        assert(narrow[0] == (CsvField { column: c, width: less }));
        assert forall|k: int| 0 <= k < narrow.len() implies (#[trigger] narrow[k]).column
            < widths.len() && narrow[k].width <= widths[narrow[k].column as int] by {
            if k > 0 {
                assert(narrow[k] == wide[k]);
            }
        }
    } else if s[0] == 0x0d {
        lemma_narrower_fits(s.skip(1), separator, tab, c, w, less, widths);
    } else {
        let b = byte_width(s[0], tab);
        lemma_narrower_fits(s.skip(1), separator, tab, c, w + b, less + b, widths);
    }
}

/// Behind a line feed the fields are those of what follows it.
proof fn lemma_fields_behind(
    s: Seq<u8>,
    n: int,
    separator: u8,
    tab: nat,
    c: nat,
    w: nat,
    widths: Seq<usize>,
)
    requires
        0 < n <= s.len(),
        s[n - 1] == 0x0a,
        fields_fit(csv_fields(s, separator, tab, c, w), widths),
    ensures
        fields_fit(csv_fields(s.skip(n), separator, tab, 0, 0), widths),
    decreases n,
{
    let fields = csv_fields(s, separator, tab, c, w);
    if s[0] == 0x0a || (s[0] != 0x0d && s[0] == separator) {
        let (nc, rest) = if s[0] == 0x0a {
            (0nat, csv_fields(s.skip(1), separator, tab, 0, 0))
        } else {
            (c + 1, csv_fields(s.skip(1), separator, tab, c + 1, 0))
        };
        assert forall|k: int| 0 <= k < rest.len() implies (#[trigger] rest[k]).column < widths.len()
            && rest[k].width <= widths[rest[k].column as int] by {
            assert(rest[k] == fields[k + 1]);
        }
        if n > 1 {
            lemma_fields_behind(s.skip(1), n - 1, separator, tab, nc, 0, widths);
            assert(s.skip(1).skip(n - 1) =~= s.skip(n));
        }
    } else {
        let nw = if s[0] == 0x0d {
            w
        } else {
            w + byte_width(s[0], tab)
        };
        lemma_fields_behind(s.skip(1), n - 1, separator, tab, c, nw, widths);
        assert(s.skip(1).skip(n - 1) =~= s.skip(n));
    }
}

/// The fields of the lines up to a line feed are among those of all lines.
proof fn lemma_fields_before(
    s: Seq<u8>,
    n: int,
    separator: u8,
    tab: nat,
    c: nat,
    w: nat,
    widths: Seq<usize>,
)
    requires
        0 <= n <= s.len(),
        n == s.len() || (n > 0 && s[n - 1] == 0x0a),
        fields_fit(csv_fields(s, separator, tab, c, w), widths),
        widths.len() > 0,
    ensures
        fields_fit(csv_fields(s.take(n), separator, tab, c, w), widths),
    decreases n,
{
    let fields = csv_fields(s, separator, tab, c, w);
    let head = s.take(n);
    if n == s.len() {
        assert(head =~= s);
    } else {
        assert(head.skip(1) =~= s.skip(1).take(n - 1));
        let part = csv_fields(head, separator, tab, c, w);
        if s[0] == 0x0a || (s[0] != 0x0d && s[0] == separator) {
            let nc = if s[0] == 0x0a {
                0nat
            } else {
                c + 1
            };
            let rest = csv_fields(s.skip(1), separator, tab, nc, 0);
            assert forall|k: int| 0 <= k < rest.len() implies (#[trigger] rest[k]).column
                < widths.len() && rest[k].width <= widths[rest[k].column as int] by {
                assert(rest[k] == fields[k + 1]);
            }
            assert(fields[0] == (CsvField { column: c, width: w }));
            let tail = csv_fields(head.skip(1), separator, tab, nc, 0);
            if n > 1 {
                lemma_fields_before(s.skip(1), n - 1, separator, tab, nc, 0, widths);
            } else {
                assert(head.skip(1) =~= Seq::<u8>::empty());
                assert(tail =~= seq![CsvField { column: 0, width: 0 }]);
            }
            assert forall|k: int| 0 <= k < part.len() implies (#[trigger] part[k]).column
                < widths.len() && part[k].width <= widths[part[k].column as int] by {
                if k > 0 {
                    assert(part[k] == tail[k - 1]);
                }
            }
        } else {
            let nw = if s[0] == 0x0d {
                w
            } else {
                w + byte_width(s[0], tab)
            };
            lemma_fields_before(s.skip(1), n - 1, separator, tab, c, nw, widths);
        }
    }
}

/// The fields of one line, from `start` up to `end`, fit where those of all lines do.
pub(crate) proof fn lemma_line_fields_fit(
    bytes: Seq<u8>,
    start: int,
    end: int,
    separator: u8,
    tab: nat,
    widths: Seq<usize>,
)
    requires
        0 <= start <= end <= bytes.len(),
        start == 0 || bytes[start - 1] == 0x0a,
        end == bytes.len() || (start < end && bytes[end - 1] == 0x0a),
        widths.len() > 0,
        fields_fit(csv_fields(bytes, separator, tab, 0, 0), widths),
    ensures
        fields_fit(csv_fields(bytes.subrange(start, end), separator, tab, 0, 0), widths),
{
    let tail = bytes.skip(start);
    if start > 0 {
        lemma_fields_behind(bytes, start, separator, tab, 0, 0, widths);
    } else {
        assert(tail =~= bytes);
    }
    if end < bytes.len() {
        assert(tail[end - start - 1] == bytes[end - 1]);
    }
    lemma_fields_before(tail, end - start, separator, tab, 0, 0, widths);
    assert(tail.take(end - start) =~= bytes.subrange(start, end));
}

/// Where a separator stands, given that the fields from the byte `i` on fit into their columns.
proof fn lemma_separator_place(
    ctx: LineContext,
    line: Seq<u8>,
    widths: Seq<usize>,
    separator: u8,
    i: int,
    c: nat,
    used: nat,
    p: int,
)
    requires
        0 <= i <= p < line.len(),
        !takes_no_room(line[p]),
        line[p] == separator,
        forall|k: int| 0 <= k < line.len() && #[trigger] line[k] == 0x0a ==> k + 1 == line.len(),
        fields_fit(csv_fields(line.skip(i), separator, ctx.tab_width as nat, c, used), widths),
    ensures
        ({
            let col = column_start(widths, c) + used;
            let cells = csv_cells(ctx, line, widths, separator, i, col, c, used);
            let target = separator_column(widths, c + separators_between(line, separator, i, p));
            &&& c + separators_between(line, separator, i, p) < widths.len()
            &&& col <= target < col + cells.len()
            &&& cells[target - col].ch == separator as char
        }),
    decreases line.len() - i,
{
    let tab = ctx.tab_width as nat;
    let s = line.skip(i);
    let fields = csv_fields(s, separator, tab, c, used);
    let col = column_start(widths, c) + used;
    lemma_first_field(s, separator, tab, c, used);
    assert(fields[0].column < widths.len() && fields[0].width <= widths[fields[0].column as int]);
    assert(s[0] == line[i]);
    assert(s.skip(1) =~= line.skip(i + 1));
    if takes_no_room(line[i]) {
        if line[i] == 0x0a {
            assert(i + 1 == line.len());
        }
        lemma_separator_place(ctx, line, widths, separator, i + 1, c, used, p);
    } else if line[i] == separator {
        let here = separator_cells(widths, separator, c, used, ctx.stands_out(i, col));
        assert(used <= widths[c as int]);
        assert(here.len() == widths[c as int] - used + 2);
        if i == p {
            let target = separator_column(widths, c);
            assert(target - col == padding(widths, c, used));
            assert(here[target - col].ch == separator as char);
        } else {
            let rest = csv_fields(s.skip(1), separator, tab, c + 1, 0);
            assert forall|k: int| 0 <= k < rest.len() implies (#[trigger] rest[k]).column
                < widths.len() && rest[k].width <= widths[rest[k].column as int] by {
                assert(rest[k] == fields[k + 1]);
            }
            lemma_separator_place(ctx, line, widths, separator, i + 1, c + 1, 0, p);
            assert(column_start(widths, c + 1) == col + here.len());
        }
    } else {
        let width = byte_width(line[i], tab);
        lemma_separator_place(ctx, line, widths, separator, i + 1, c, used + width, p);
    }
}

/// Where values are aligned, the separator behind the column `c` of any line stands in the same
/// column of the screen: that of the widths of the columns before it. A column that is wider than a
/// `usize` can tell is left out.
pub proof fn law_separators_aligned(v: Viewer, i: int, p: int)
    requires
        v.wf(),
        v.aligned(),
        0 <= i < v.count(),
        prefix_len(i, v.line(i)) <= p < v.line(i).len(),
        !takes_no_room(v.line(i)[p]),
        v.line(i)[p] == v.csv_separator->0,
        forall|c: int|
            0 <= c < v.csv_column_widths->0@.len() ==> #[trigger] v.csv_column_widths->0@[c]
                < usize::MAX,
    ensures
        ({
            let widths = v.csv_column_widths->0@;
            let c = separators_between(
                v.line(i),
                v.csv_separator->0,
                prefix_len(i, v.line(i)) as int,
                p,
            );
            &&& c < widths.len()
            &&& separator_column(widths, c) < v.line_cells(i).len()
            &&& v.line_cells(i)[separator_column(widths, c) as int].ch == (
            v.csv_separator->0 as char)
        }),
{
    let bytes = v.bytes();
    let offsets = v.line_offsets@;
    let separator = v.csv_separator->0;
    let tab = v.tab_width as nat;
    let widths = v.csv_column_widths->0@;
    let line = v.line(i);
    let all = file_fields(bytes, separator, v.tab_width);
    lemma_line_bounds(bytes, offsets, i);
    let start = offsets[i] as int;
    let end = line_end(bytes, offsets, i);
    lemma_first_field(bytes, separator, tab, 0, 0);
    assert(all[0].column < widths.len());
    assert forall|k: int| 0 <= k < all.len() implies (#[trigger] all[k]).column < widths.len()
        && all[k].width <= widths[all[k].column as int] by {
        assert(saturated(all[k].width) <= widths[all[k].column as int]);
        assert(widths[all[k].column as int] < usize::MAX);
    }
    assert(fields_fit(all, widths));
    let tail = bytes.skip(start);
    if i > 0 {
        lemma_fields_behind(bytes, start, separator, tab, 0, 0, widths);
    } else {
        assert(tail =~= bytes);
    }
    if i + 1 < offsets.len() {
        assert(tail[end - start - 1] == bytes[end - 1]);
    }
    lemma_fields_before(tail, end - start, separator, tab, 0, 0, widths);
    assert(tail.take(end - start) =~= line);
    let skipped = prefix_len(i, line) as int;
    assert(line.skip(0) =~= line);
    if skipped == 3 {
        assert(line.skip(1).skip(1).skip(1) =~= line.skip(3));
        assert(line.skip(1)[0] == line[1] && line.skip(1).skip(1)[0] == line[2]);
        reveal_with_fuel(csv_fields, 4);
        assert(csv_fields(line, separator, tab, 0, 0) == csv_fields(
            line.skip(3),
            separator,
            tab,
            0,
            3,
        ));
        lemma_narrower_fits(line.skip(3), separator, tab, 0, 3, 0, widths);
    }
    assert forall|k: int| 0 <= k < line.len() && #[trigger] line[k] == 0x0a implies k + 1
        == line.len() by {
        lemma_line_feeds(bytes, offsets, i, start + k);
    }
    lemma_separator_place(v.context(i), line, widths, separator, skipped, 0, 0, p);
}

/// Two lines with a separator behind the same column show both in the same column of the screen.
pub proof fn law_columns_line_up(v: Viewer, i: int, p: int, j: int, q: int)
    requires
        v.wf(),
        v.aligned(),
        0 <= i < v.count(),
        0 <= j < v.count(),
        prefix_len(i, v.line(i)) <= p < v.line(i).len(),
        prefix_len(j, v.line(j)) <= q < v.line(j).len(),
        !takes_no_room(v.line(i)[p]),
        !takes_no_room(v.line(j)[q]),
        v.line(i)[p] == v.csv_separator->0,
        v.line(j)[q] == v.csv_separator->0,
        separators_between(v.line(i), v.csv_separator->0, prefix_len(i, v.line(i)) as int, p)
            == separators_between(v.line(j), v.csv_separator->0, prefix_len(j, v.line(j)) as int, q),
        forall|c: int|
            0 <= c < v.csv_column_widths->0@.len() ==> #[trigger] v.csv_column_widths->0@[c]
                < usize::MAX,
    ensures
        exists|col: int|
            0 <= col < v.line_cells(i).len() && 0 <= col < v.line_cells(j).len() && (
            #[trigger] v.line_cells(i)[col]).ch == (v.csv_separator->0 as char) && (
            #[trigger] v.line_cells(j)[col]).ch == (v.csv_separator->0 as char),
{
    law_separators_aligned(v, i, p);
    law_separators_aligned(v, j, q);
    let c = separators_between(v.line(i), v.csv_separator->0, prefix_len(i, v.line(i)) as int, p);
    let col = separator_column(v.csv_column_widths->0@, c) as int;
    assert(v.line_cells(i)[col].ch == (v.csv_separator->0 as char));
    assert(v.line_cells(j)[col].ch == (v.csv_separator->0 as char));
}

} // verus!
