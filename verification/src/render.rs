//! From the bytes of one line to the styled text of one screen row.
//!
//! A line is laid out as a sequence of cells, one character each. The row shows the cells
//! from the first visible column on, as many as it has room for, and groups neighbours of the
//! same style into segments.
use vstd::prelude::*;

use crate::text::{lesser, saturated};

verus! {

/// The style classes that a cell can have.
#[derive(Clone, Copy, Debug, PartialEq, Eq, Structural)]
pub enum RenderClass {
    Text,
    TagDelimiter,
    TagName,
    AttributeName,
    AttributeValue,
    Comment,
}

/// The colours that the classes are shown in.
#[derive(Clone, Copy, Debug, PartialEq, Eq, Structural)]
pub enum TextColor {
    White,
    Cyan,
    DarkYellow,
    Green,
    Yellow,
    DarkGrey,
}

/// The colour of a class.
pub open spec fn class_color(class: RenderClass) -> TextColor {
    match class {
        RenderClass::Text => TextColor::White,
        RenderClass::TagDelimiter => TextColor::Cyan,
        RenderClass::TagName => TextColor::DarkYellow,
        RenderClass::AttributeName => TextColor::Green,
        RenderClass::AttributeValue => TextColor::Yellow,
        RenderClass::Comment => TextColor::DarkGrey,
    }
}

/// The colour that a segment of this class is shown in.
pub fn segment_color(class: RenderClass) -> (r: TextColor)
    ensures
        r == class_color(class),
{
    match class {
        RenderClass::Text => TextColor::White,
        RenderClass::TagDelimiter => TextColor::Cyan,
        RenderClass::TagName => TextColor::DarkYellow,
        RenderClass::AttributeName => TextColor::Green,
        RenderClass::AttributeValue => TextColor::Yellow,
        RenderClass::Comment => TextColor::DarkGrey,
    }
}

/// One character of a laid-out line.
pub struct Cell {
    pub ch: char,
    pub highlighted: bool,
    pub class: RenderClass,
}

/// Neighbouring cells of one style.
#[verifier::ext_equal]
pub struct Run {
    pub highlighted: bool,
    pub class: RenderClass,
    pub text: Seq<char>,
}

/// A segment of a row: whether it is highlighted, its class, and its text.
pub type Segment = (bool, RenderClass, String);

/// What the segments of a row hold.
pub open spec fn segment_runs(segments: Seq<Segment>) -> Seq<Run> {
    segments.map_values(|s: Segment| Run { highlighted: s.0, class: s.1, text: s.2@ })
}

/// The cell `c` can join the run `r`.
pub open spec fn same_style(r: Run, c: Cell) -> bool {
    r.highlighted == c.highlighted && r.class == c.class
}

/// The runs with one more cell: it joins the last run where the style is the same, else it starts a
/// new one.
pub open spec fn add_cell(runs: Seq<Run>, c: Cell) -> Seq<Run> {
    if runs.len() > 0 && same_style(runs.last(), c) {
        runs.drop_last().push(Run { text: runs.last().text.push(c.ch), ..runs.last() })
    } else {
        runs.push(Run { highlighted: c.highlighted, class: c.class, text: seq![c.ch] })
    }
}

/// The cells grouped into runs of one style.
pub open spec fn group_runs(cells: Seq<Cell>) -> Seq<Run>
    decreases cells.len(),
{
    if cells.len() == 0 {
        Seq::empty()
    } else {
        add_cell(group_runs(cells.drop_last()), cells.last())
    }
}

/// The cells that are visible: those from column `left` on, `width` of them at most.
pub open spec fn visible_cells(cells: Seq<Cell>, left: usize, width: usize) -> Seq<Cell> {
    let len = cells.len() as int;
    cells.subrange(lesser(left as int, len), lesser(left + width, len))
}

/// The cells that a run stands for.
pub open spec fn run_cells(r: Run) -> Seq<Cell>
    decreases r.text.len(),
{
    if r.text.len() == 0 {
        Seq::empty()
    } else {
        run_cells(Run { text: r.text.drop_last(), ..r }).push(
            Cell { ch: r.text.last(), highlighted: r.highlighted, class: r.class },
        )
    }
}

/// The cells that runs stand for, one after the other.
pub open spec fn ungroup_runs(runs: Seq<Run>) -> Seq<Cell>
    decreases runs.len(),
{
    if runs.len() == 0 {
        Seq::empty()
    } else {
        ungroup_runs(runs.drop_last()) + run_cells(runs.last())
    }
}

/// One more cell adds that cell.
pub(crate) proof fn lemma_add_cell(runs: Seq<Run>, c: Cell)
    ensures
        ungroup_runs(add_cell(runs, c)) == ungroup_runs(runs).push(c),
{
    let after = add_cell(runs, c);
    if runs.len() > 0 && same_style(runs.last(), c) {
        let old_run = runs.last();
        let new_run = Run { text: old_run.text.push(c.ch), ..old_run };
        assert(after.last() == new_run);
        assert(new_run.text.drop_last() =~= old_run.text);
        assert(run_cells(new_run) =~= run_cells(old_run).push(c));
        assert(after.drop_last() =~= runs.drop_last());
    } else {
        let new_run = Run { highlighted: c.highlighted, class: c.class, text: seq![c.ch] };
        assert(after.last() == new_run);
        assert(new_run.text.drop_last() =~= Seq::<char>::empty());
        assert(run_cells(Run { text: new_run.text.drop_last(), ..new_run }) =~= Seq::<Cell>::empty());
        assert(run_cells(new_run) =~= seq![c]);
        assert(after.drop_last() =~= runs);
    }
    assert(ungroup_runs(after) =~= ungroup_runs(runs).push(c));
}

/// Grouping loses nothing: the runs hold the cells they were made from, in their order.
pub proof fn law_grouping_keeps_cells(cells: Seq<Cell>)
    ensures
        ungroup_runs(group_runs(cells)) == cells,
    decreases cells.len(),
{
    if cells.len() == 0 {
        assert(ungroup_runs(group_runs(cells)) =~= cells);
    } else {
        let c = cells.last();
        law_grouping_keeps_cells(cells.drop_last());
        lemma_add_cell(group_runs(cells.drop_last()), c);
        assert(cells.drop_last().push(c) =~= cells);
    }
}

/// Grouping leaves nothing to join: no run is empty, and neighbouring runs differ in style.
pub proof fn law_runs_alternate(cells: Seq<Cell>, i: int)
    requires
        0 <= i < group_runs(cells).len(),
    ensures
        group_runs(cells)[i].text.len() > 0,
        i > 0 ==> group_runs(cells)[i - 1].highlighted != group_runs(cells)[i].highlighted
            || group_runs(cells)[i - 1].class != group_runs(cells)[i].class,
    decreases cells.len(),
{
    let before = group_runs(cells.drop_last());
    if i < before.len() {
        law_runs_alternate(cells.drop_last(), i);
    }
}

proof fn lemma_visible_step(cells: Seq<Cell>, c: Cell, left: usize, width: usize)
    ensures
        visible_cells(cells, left, width).len() <= width,
        cells.len() < left || visible_cells(cells, left, width).len() >= width ==> visible_cells(
            cells.push(c),
            left,
            width,
        ) == visible_cells(cells, left, width),
        cells.len() >= left && visible_cells(cells, left, width).len() < width ==> visible_cells(
            cells.push(c),
            left,
            width,
        ) == visible_cells(cells, left, width).push(c),
{
    let now = visible_cells(cells, left, width);
    let then = visible_cells(cells.push(c), left, width);
    if cells.len() < left || now.len() >= width {
        assert(then =~= now);
    } else {
        assert(then =~= now.push(c));
    }
}

/// Lays out the character `c` at the column `absolute_col`: it is shown where that column is
/// visible and the row has room left, and the column count goes on by one either way, up to
/// `usize::MAX`.
pub fn push_char(
    c: char,
    is_highlight: bool,
    render_class: RenderClass,
    left_col: usize,
    max_width: usize,
    absolute_col: &mut usize,
    visible_width: &mut usize,
    segments: &mut Vec<Segment>,
)
    ensures
        *final(absolute_col) == saturated((*old(absolute_col) + 1) as nat),
        *old(absolute_col) < left_col || *old(visible_width) >= max_width ==> *final(visible_width)
            == *old(visible_width) && final(segments)@ == old(segments)@,
        *old(absolute_col) >= left_col && *old(visible_width) < max_width ==> *final(visible_width)
            == *old(visible_width) + 1 && segment_runs(final(segments)@) == add_cell(
            segment_runs(old(segments)@),
            Cell { ch: c, highlighted: is_highlight, class: render_class },
        ),
{
    let column = *absolute_col;
    *absolute_col = column.saturating_add(1);
    if column < left_col || *visible_width >= max_width {
        return ;
    }
    *visible_width = *visible_width + 1;
    let ghost before = segment_runs(segments@);
    let ghost cell = Cell { ch: c, highlighted: is_highlight, class: render_class };
    match segments.pop() {
        Some((highlighted, class, text)) => {
            let mut text = text;
            if highlighted == is_highlight && class == render_class {
                text.push(c);
                segments.push((highlighted, class, text));
            } else {
                let mut first = String::new();
                first.push(c);
                segments.push((highlighted, class, text));
                segments.push((is_highlight, render_class, first));
            }
        },
        None => {
            let mut first = String::new();
            first.push(c);
            segments.push((is_highlight, render_class, first));
        },
    }
    proof {
        assert(segment_runs(segments@) =~= add_cell(before, cell));
    }
}

/// A row that is being laid out.
pub struct RowBuilder {
    pub left_col: usize,
    pub max_width: usize,
    pub absolute_col: usize,
    pub visible_width: usize,
    pub segments: Vec<Segment>,
}

impl RowBuilder {
    /// The row has taken in exactly `cells`.
    pub open spec fn holds(&self, cells: Seq<Cell>) -> bool {
        let shown = visible_cells(cells, self.left_col, self.max_width);
        &&& self.absolute_col == saturated(cells.len())
        &&& self.visible_width == shown.len()
        &&& segment_runs(self.segments@) == group_runs(shown)
    }

    /// An empty row that shows `max_width` columns from `left_col` on.
    pub fn new(left_col: usize, max_width: usize) -> (r: Self)
        ensures
            r.holds(Seq::empty()),
            r.left_col == left_col,
            r.max_width == max_width,
    {
        let r = RowBuilder {
            left_col,
            max_width,
            absolute_col: 0,
            visible_width: 0,
            segments: Vec::new(),
        };
        proof {
            let none = Seq::<Cell>::empty();
            assert(visible_cells(none, left_col, max_width) =~= none);
            assert(segment_runs(r.segments@) =~= group_runs(none));
        }
        r
    }

    /// Takes in `count` cells that are all alike.
    pub fn put(
        &mut self,
        c: char,
        highlighted: bool,
        class: RenderClass,
        count: usize,
        Ghost(cells): Ghost<Seq<Cell>>,
    )
        requires
            old(self).holds(cells),
        ensures
            final(self).holds(
                cells + Seq::new(count as nat, |i: int| Cell { ch: c, highlighted, class }),
            ),
            final(self).left_col == old(self).left_col,
            final(self).max_width == old(self).max_width,
    {
        let mut k: usize = 0;
        let ghost cell = Cell { ch: c, highlighted, class };
        let ghost left = self.left_col;
        let ghost width = self.max_width;
        proof {
            assert(cells + Seq::new(0, |i: int| cell) =~= cells);
        }
        while k < count
            invariant
                k <= count,
                cell == (Cell { ch: c, highlighted, class }),
                self.left_col == left,
                self.max_width == width,
                self.holds(cells + Seq::new(k as nat, |i: int| cell)),
            decreases count - k,
        {
            let ghost now = cells + Seq::new(k as nat, |i: int| cell);
            push_char(
                c,
                highlighted,
                class,
                self.left_col,
                self.max_width,
                &mut self.absolute_col,
                &mut self.visible_width,
                &mut self.segments,
            );
            k = k + 1;
            proof {
                lemma_visible_step(now, cell, left, width);
                let then = cells + Seq::new(k as nat, |i: int| cell);
                assert(then =~= now.push(cell));
                let shown = visible_cells(now, left, width);
                if now.len() >= left && shown.len() < width {
                    assert(shown.push(cell).drop_last() =~= shown);
                }
            }
        }
        proof {
            assert(Seq::new(count as nat, |i: int| cell) =~= Seq::new(
                count as nat,
                |i: int| Cell { ch: c, highlighted, class },
            ));
        }
    }
}

} // verus!
