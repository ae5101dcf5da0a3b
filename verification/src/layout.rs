//! Where each byte of a line stands on the screen.
use vstd::prelude::*;

use crate::csv::byte_width;
use crate::render::{Cell, RenderClass, RowBuilder};
use crate::text::saturated;

verus! {

/// The bytes that end a line take no room in it, wherever they stand: line feed and carriage
/// return.
pub open spec fn takes_no_room(b: u8) -> bool {
    b == 0x0a || b == 0x0d
}

/// The character that a byte is shown as: itself where it is printable ASCII, a blank for a tab,
/// and a middle dot for anything else.
pub open spec fn byte_char(b: u8) -> char {
    if b == 0x09 {
        ' '
    } else if 0x20 <= b <= 0x7e {
        b as char
    } else {
        '·'
    }
}

/// The character that the byte `b` is shown as.
pub fn char_of_byte(b: u8) -> (r: char)
    ensures
        r == byte_char(b),
{
    if b == 0x09 {
        ' '
    } else if 0x20 <= b && b <= 0x7e {
        b as char
    } else {
        '·'
    }
}

/// How many columns the byte `b` takes.
pub fn width_of_byte(b: u8, tab_width: usize) -> (r: usize)
    ensures
        r == byte_width(b, tab_width as nat),
{
    if b == 0x09 {
        tab_width
    } else {
        1
    }
}

/// A byte order mark at the start of a file is not shown: how many bytes of a line are skipped.
pub open spec fn prefix_len(line_idx: int, line: Seq<u8>) -> nat {
    if line_idx == 0 && line.len() >= 3 && line[0] == 0xef && line[1] == 0xbb && line[2] == 0xbf {
        3
    } else {
        0
    }
}

/// How many bytes at the start of a line are not shown.
pub fn skipped_prefix_len(line_idx: usize, bytes: &[u8]) -> (r: usize)
    ensures
        r == prefix_len(line_idx as int, bytes@),
{
    if line_idx == 0 && bytes.len() >= 3 && bytes[0] == 0xef && bytes[1] == 0xbb && bytes[2]
        == 0xbf {
        3
    } else {
        0
    }
}

/// A range of byte offsets, or of lines and columns, that is to stand out.
pub open spec fn in_range(range: Option<(usize, usize)>, offset: int) -> bool {
    match range {
        Some((start, end)) => start <= offset < end,
        None => false,
    }
}

/// The block from the first line to the last and from the left column to the right covers the
/// column `col` of a line.
pub open spec fn block_covers(
    block: Option<(usize, usize, usize, usize)>,
    line_idx: int,
    col: nat,
) -> bool {
    match block {
        Some((top, bottom, left, right)) => top <= line_idx <= bottom && left <= saturated(col)
            <= right,
        None => false,
    }
}

/// What the layout of a line depends on besides its bytes.
#[derive(Clone, Copy)]
pub struct LineContext {
    /// The number of the line, from zero.
    pub line_idx: usize,
    /// The offset of its first byte.
    pub line_start: usize,
    /// The columns that a tab takes.
    pub tab_width: usize,
    /// The offsets of the match that was found.
    pub found: Option<(usize, usize)>,
    /// The offsets that are selected.
    pub selected: Option<(usize, usize)>,
    /// The block that is selected: first line, last line, left column, right column.
    pub block: Option<(usize, usize, usize, usize)>,
}

impl LineContext {
    /// The byte `i` of the line, shown from the column `col` on, stands out.
    pub open spec fn stands_out(&self, i: int, col: nat) -> bool {
        ||| in_range(self.selected, self.line_start + i)
        ||| block_covers(self.block, self.line_idx as int, col)
        ||| in_range(self.found, self.line_start + i)
    }

    /// Tells whether the byte `i` of the line stands out, `col` being the column it is shown from.
    fn is_highlight(&self, i: usize, col: usize, Ghost(exact): Ghost<nat>) -> (r: bool)
        requires
            col == saturated(exact),
            self.line_start + i <= usize::MAX,
        ensures
            r == self.stands_out(i as int, exact),
    {
        let offset: usize = self.line_start + i;
        let is_selected = match self.selected {
            Some((start, end)) => start <= offset && offset < end,
            None => false,
        };
        let is_found = match self.found {
            Some((start, end)) => start <= offset && offset < end,
            None => false,
        };
        let is_block_selected = match self.block {
            Some((top, bottom, left, right)) => top <= self.line_idx && self.line_idx <= bottom
                && left <= col && col <= right,
            None => false,
        };
        is_selected || is_block_selected || is_found
    }
}

/// The class of the byte `i`, plain text where no class is known.
pub open spec fn class_at(classes: Seq<RenderClass>, i: int) -> RenderClass {
    if 0 <= i < classes.len() {
        classes[i]
    } else {
        RenderClass::Text
    }
}

/// `n` cells that are all alike.
pub open spec fn alike(n: nat, ch: char, highlighted: bool, class: RenderClass) -> Seq<Cell> {
    Seq::new(n, |k: int| Cell { ch, highlighted, class })
}

/// The cells of a line from its byte `i` on, the first of them at the column `col`.
pub open spec fn plain_cells(
    ctx: LineContext,
    line: Seq<u8>,
    classes: Seq<RenderClass>,
    i: int,
    col: nat,
) -> Seq<Cell>
    decreases line.len() - i,
{
    if i < 0 || i >= line.len() {
        Seq::empty()
    } else if takes_no_room(line[i]) {
        plain_cells(ctx, line, classes, i + 1, col)
    } else {
        let width = byte_width(line[i], ctx.tab_width as nat);
        alike(width, byte_char(line[i]), ctx.stands_out(i, col), class_at(classes, i))
            + plain_cells(ctx, line, classes, i + 1, col + width)
    }
}

/// How wide column `c` is; a column that is not known has no width.
pub open spec fn column_width(widths: Seq<usize>, c: nat) -> nat {
    if c < widths.len() {
        widths[c as int] as nat
    } else {
        0
    }
}

/// How many blanks fill a field of the width `used` up to the width of its column.
pub open spec fn padding(widths: Seq<usize>, c: nat, used: nat) -> nat {
    if used < column_width(widths, c) {
        (column_width(widths, c) - used) as nat
    } else {
        0
    }
}

/// The cells of a separator: blanks that fill its field up, the separator, and one blank.
pub open spec fn separator_cells(
    widths: Seq<usize>,
    separator: u8,
    c: nat,
    used: nat,
    highlighted: bool,
) -> Seq<Cell> {
    alike(padding(widths, c, used), ' ', false, RenderClass::Text) + alike(
        1,
        separator as char,
        highlighted,
        RenderClass::Text,
    ) + alike(1, ' ', false, RenderClass::Text)
}

/// The cells of a line of delimited values from its byte `i` on, the first of them at the
/// column `col`, where the field of the column `c` takes `used` cells so far.
pub open spec fn csv_cells(
    ctx: LineContext,
    line: Seq<u8>,
    widths: Seq<usize>,
    separator: u8,
    i: int,
    col: nat,
    c: nat,
    used: nat,
) -> Seq<Cell>
    decreases line.len() - i,
{
    if i < 0 || i >= line.len() {
        Seq::empty()
    } else if takes_no_room(line[i]) {
        csv_cells(ctx, line, widths, separator, i + 1, col, c, used)
    } else if line[i] == separator {
        let cells = separator_cells(widths, separator, c, used, ctx.stands_out(i, col));
        cells + csv_cells(ctx, line, widths, separator, i + 1, col + cells.len(), c + 1, 0)
    } else {
        let width = byte_width(line[i], ctx.tab_width as nat);
        alike(width, byte_char(line[i]), ctx.stands_out(i, col), RenderClass::Text) + csv_cells(
            ctx,
            line,
            widths,
            separator,
            i + 1,
            col + width,
            c,
            used + width,
        )
    }
}

/// The characters that a line shows from its byte `i` on, without padding.
pub open spec fn shown_chars(line: Seq<u8>, tab_width: nat, i: int) -> Seq<char>
    decreases line.len() - i,
{
    if i < 0 || i >= line.len() {
        Seq::empty()
    } else if takes_no_room(line[i]) {
        shown_chars(line, tab_width, i + 1)
    } else {
        Seq::new(byte_width(line[i], tab_width), |k: int| byte_char(line[i])) + shown_chars(
            line,
            tab_width,
            i + 1,
        )
    }
}

/// A plain line is laid out as the characters it shows, one cell for each.
pub proof fn law_plain_cells_show_chars(
    ctx: LineContext,
    line: Seq<u8>,
    classes: Seq<RenderClass>,
    i: int,
    col: nat,
)
    ensures
        plain_cells(ctx, line, classes, i, col).len() == shown_chars(
            line,
            ctx.tab_width as nat,
            i,
        ).len(),
        forall|k: int|
            0 <= k < plain_cells(ctx, line, classes, i, col).len() ==> (#[trigger] plain_cells(
                ctx,
                line,
                classes,
                i,
                col,
            )[k]).ch == shown_chars(line, ctx.tab_width as nat, i)[k],
    decreases line.len() - i,
{
    if i < 0 || i >= line.len() {
    } else if takes_no_room(line[i]) {
        law_plain_cells_show_chars(ctx, line, classes, i + 1, col);
    } else {
        let width = byte_width(line[i], ctx.tab_width as nat);
        law_plain_cells_show_chars(ctx, line, classes, i + 1, col + width);
        let rest = plain_cells(ctx, line, classes, i + 1, col + width);
        let chars = shown_chars(line, ctx.tab_width as nat, i + 1);
        let cells = plain_cells(ctx, line, classes, i, col);
        assert forall|k: int| 0 <= k < cells.len() implies (#[trigger] cells[k]).ch == shown_chars(
            line,
            ctx.tab_width as nat,
            i,
        )[k] by {
            if k >= width {
                assert(cells[k] == rest[k - width]);
                assert(rest[k - width].ch == chars[k - width]);
            }
        }
    }
}

/// The first byte of a line from its byte `i` on that is shown at the column `target` or behind it,
/// the byte `i` being shown at the column `col`.
pub open spec fn byte_at_column(
    line: Seq<u8>,
    tab_width: nat,
    i: int,
    col: nat,
    target: nat,
) -> Option<int>
    decreases line.len() - i,
{
    if i < 0 || i >= line.len() {
        None
    } else if takes_no_room(line[i]) {
        byte_at_column(line, tab_width, i + 1, col, target)
    } else if col >= target {
        Some(i)
    } else {
        byte_at_column(line, tab_width, i + 1, col + byte_width(line[i], tab_width), target)
    }
}

/// The byte at a column lies in the line.
pub proof fn lemma_byte_at_column(line: Seq<u8>, tab_width: nat, i: int, col: nat, target: nat)
    ensures
        match byte_at_column(line, tab_width, i, col, target) {
            Some(k) => i <= k < line.len() && !takes_no_room(line[k]),
            None => true,
        },
    decreases line.len() - i,
{
    if 0 <= i < line.len() {
        if takes_no_room(line[i]) {
            lemma_byte_at_column(line, tab_width, i + 1, col, target);
        } else if col < target {
            lemma_byte_at_column(
                line,
                tab_width,
                i + 1,
                col + byte_width(line[i], tab_width),
                target,
            );
        }
    }
}

/// Lays out a line as it stands.
pub fn layout_plain(
    ctx: &LineContext,
    bytes: &[u8],
    classes: &Vec<RenderClass>,
    row: &mut RowBuilder,
)
    requires
        old(row).holds(Seq::empty()),
        ctx.line_start + bytes@.len() <= usize::MAX,
    ensures
        final(row).holds(
            plain_cells(
                *ctx,
                bytes@,
                classes@,
                prefix_len(ctx.line_idx as int, bytes@) as int,
                0,
            ),
        ),
        final(row).left_col == old(row).left_col,
        final(row).max_width == old(row).max_width,
{
    let mut i: usize = skipped_prefix_len(ctx.line_idx, bytes);
    let ghost all = plain_cells(*ctx, bytes@, classes@, i as int, 0);
    let ghost mut done: Seq<Cell> = Seq::empty();
    proof {
        assert(done + all =~= all);
    }
    while i < bytes.len()
        invariant
            row.left_col == old(row).left_col,
            row.max_width == old(row).max_width,
            i <= bytes@.len(),
            ctx.line_start + bytes@.len() <= usize::MAX,
            row.holds(done),
            all == done + plain_cells(*ctx, bytes@, classes@, i as int, done.len()),
        decreases bytes.len() - i,
    {
        let b = bytes[i];
        if b != 0x0a && b != 0x0d {
            let highlighted = ctx.is_highlight(i, row.absolute_col, Ghost(done.len()));
            let class = if i < classes.len() {
                classes[i]
            } else {
                RenderClass::Text
            };
            let width = width_of_byte(b, ctx.tab_width);
            let ch = char_of_byte(b);
            row.put(ch, highlighted, class, width, Ghost(done));
            proof {
                let cells = alike(width as nat, ch, highlighted, class);
                assert(cells =~= Seq::new(
                    width as nat,
                    |k: int| Cell { ch, highlighted, class },
                ));
                let rest = plain_cells(*ctx, bytes@, classes@, i + 1, done.len() + width as nat);
                assert(all =~= (done + cells) + rest);
                done = done + cells;
            }
        }
        i = i + 1;
    }
    proof {
        assert(all =~= done);
    }
}

/// Lays out a line of delimited values, each field filled up to the width of its column.
pub fn layout_csv(
    ctx: &LineContext,
    bytes: &[u8],
    widths: &Vec<usize>,
    separator: u8,
    row: &mut RowBuilder,
)
    requires
        old(row).holds(Seq::empty()),
        ctx.line_start + bytes@.len() <= usize::MAX,
    ensures
        final(row).holds(
            csv_cells(
                *ctx,
                bytes@,
                widths@,
                separator,
                prefix_len(ctx.line_idx as int, bytes@) as int,
                0,
                0,
                0,
            ),
        ),
        final(row).left_col == old(row).left_col,
        final(row).max_width == old(row).max_width,
{
    let mut i: usize = skipped_prefix_len(ctx.line_idx, bytes);
    let mut column_idx: usize = 0;
    let mut field_width: usize = 0;
    let ghost mut used: nat = 0;
    let ghost all = csv_cells(*ctx, bytes@, widths@, separator, i as int, 0, 0, 0);
    let ghost mut done: Seq<Cell> = Seq::empty();
    proof {
        assert(done + all =~= all);
    }
    while i < bytes.len()
        invariant
            row.left_col == old(row).left_col,
            row.max_width == old(row).max_width,
            column_idx <= i <= bytes@.len(),
            ctx.line_start + bytes@.len() <= usize::MAX,
            field_width == saturated(used),
            row.holds(done),
            all == done + csv_cells(
                *ctx,
                bytes@,
                widths@,
                separator,
                i as int,
                done.len(),
                column_idx as nat,
                used,
            ),
        decreases bytes.len() - i,
    {
        let b = bytes[i];
        if b != 0x0a && b != 0x0d {
            let highlighted = ctx.is_highlight(i, row.absolute_col, Ghost(done.len()));
            if b == separator {
                let target_width: usize = if column_idx < widths.len() {
                    widths[column_idx]
                } else {
                    0
                };
                let missing: usize = target_width.saturating_sub(field_width);
                row.put(' ', false, RenderClass::Text, missing, Ghost(done));
                let ghost pad = alike(missing as nat, ' ', false, RenderClass::Text);
                proof {
                    assert(pad =~= Seq::new(
                        missing as nat,
                        |k: int| Cell { ch: ' ', highlighted: false, class: RenderClass::Text },
                    ));
                }
                row.put(separator as char, highlighted, RenderClass::Text, 1, Ghost(done + pad));
                let ghost mark = alike(1, separator as char, highlighted, RenderClass::Text);
                proof {
                    assert(mark =~= Seq::new(
                        1,
                        |k: int| Cell { ch: separator as char, highlighted, class: RenderClass::Text },
                    ));
                }
                row.put(' ', false, RenderClass::Text, 1, Ghost(done + pad + mark));
                proof {
                    let blank = alike(1, ' ', false, RenderClass::Text);
                    assert(blank =~= Seq::new(
                        1,
                        |k: int| Cell { ch: ' ', highlighted: false, class: RenderClass::Text },
                    ));
                    assert(missing == padding(widths@, column_idx as nat, used));
                    let cells = separator_cells(
                        widths@,
                        separator,
                        column_idx as nat,
                        used,
                        highlighted,
                    );
                    assert(cells =~= pad + mark + blank);
                    assert(done + pad + mark + blank =~= done + cells);
                    let rest = csv_cells(
                        *ctx,
                        bytes@,
                        widths@,
                        separator,
                        i + 1,
                        done.len() + cells.len(),
                        (column_idx + 1) as nat,
                        0,
                    );
                    assert(all =~= (done + cells) + rest);
                    done = done + cells;
                    used = 0;
                }
                column_idx = column_idx + 1;
                field_width = 0;
            } else {
                let width = width_of_byte(b, ctx.tab_width);
                let ch = char_of_byte(b);
                row.put(ch, highlighted, RenderClass::Text, width, Ghost(done));
                field_width = field_width.saturating_add(width);
                proof {
                    let cells = alike(width as nat, ch, highlighted, RenderClass::Text);
                    assert(cells =~= Seq::new(
                        width as nat,
                        |k: int| Cell { ch, highlighted, class: RenderClass::Text },
                    ));
                    let rest = csv_cells(
                        *ctx,
                        bytes@,
                        widths@,
                        separator,
                        i + 1,
                        done.len() + width as nat,
                        column_idx as nat,
                        used + width as nat,
                    );
                    assert(all =~= (done + cells) + rest);
                    done = done + cells;
                    used = used + width as nat;
                }
            }
        }
        i = i + 1;
    }
    proof {
        assert(all =~= done);
    }
}

} // verus!
