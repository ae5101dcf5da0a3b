//! The scrollbar: where its thumb stands, and which line a row of it scrolls to.
use vstd::prelude::*;

use crate::text::{lesser, saturated, saturating_product};

verus! {

/// `n` brought into the range from `low` to `high`.
pub open spec fn clamped(n: int, low: int, high: int) -> int {
    if n < low {
        low
    } else if n > high {
        high
    } else {
        n
    }
}

/// How many rows the thumb takes: the share of the lines that is visible, one row at least.
pub open spec fn thumb_size(body_rows: usize, line_count: usize) -> int {
    clamped(
        saturated((body_rows * body_rows) as nat) as int / line_count as int,
        1,
        body_rows as int,
    )
}

/// How many rows the thumb can move over.
pub open spec fn track_rows(body_rows: usize, line_count: usize) -> int {
    body_rows - thumb_size(body_rows, line_count)
}

/// The row that the thumb starts at, `top_line` being the first visible line.
pub open spec fn thumb_top(top_line: usize, body_rows: usize, line_count: usize) -> int {
    lesser(
        saturated((top_line * track_rows(body_rows, line_count)) as nat) as int / (line_count
            - body_rows),
        track_rows(body_rows, line_count),
    )
}

/// The rows that the thumb covers, from the first to behind the last: all of them where every line
/// is visible.
pub open spec fn thumb_rows(top_line: usize, body_rows: usize, line_count: usize) -> (int, int) {
    if line_count <= body_rows {
        (0, body_rows as int)
    } else {
        let top = thumb_top(top_line, body_rows, line_count);
        (top, top + thumb_size(body_rows, line_count))
    }
}

/// The line that the row `row` of the scrollbar scrolls to.
pub open spec fn row_target(row: usize, body_rows: usize, line_count: usize) -> int {
    let track = track_rows(body_rows, line_count);
    let scrollable = line_count - body_rows;
    if track == 0 {
        0
    } else {
        lesser(saturated((row * scrollable) as nat) as int / track, scrollable)
    }
}

fn size_of_thumb(body_rows: usize, line_count: usize) -> (r: usize)
    requires
        0 < body_rows < line_count,
    ensures
        r == thumb_size(body_rows, line_count),
        1 <= r <= body_rows,
{
    let share: usize = saturating_product(body_rows, body_rows) / line_count;
    if share < 1 {
        1
    } else if share > body_rows {
        body_rows
    } else {
        share
    }
}

/// The rows that the thumb covers.
pub fn scrollbar_thumb(top_line: usize, body_rows: usize, line_count: usize) -> (r: (usize, usize))
    requires
        body_rows > 0,
    ensures
        (r.0 as int, r.1 as int) == thumb_rows(top_line, body_rows, line_count),
        r.0 < r.1 <= body_rows,
{
    if line_count <= body_rows {
        return (0, body_rows);
    }
    let thumb = size_of_thumb(body_rows, line_count);
    let track: usize = body_rows - thumb;
    let scrollable: usize = line_count - body_rows;
    let moved: usize = saturating_product(top_line, track) / scrollable;
    let top: usize = if moved < track {
        moved
    } else {
        track
    };
    (top, top + thumb)
}

/// The characters of the scrollbar, row by row: full blocks for the thumb, light shade for the rest.
pub open spec fn scrollbar_chars(top_line: usize, body_rows: usize, line_count: usize) -> Seq<char> {
    let rows = thumb_rows(top_line, body_rows, line_count);
    Seq::new(
        body_rows as nat,
        |row: int|
            if rows.0 <= row < rows.1 {
                '█'
            } else {
                '░'
            },
    )
}

/// The characters of the scrollbar, row by row.
pub fn scrollbar_column(top_line: usize, body_rows: usize, line_count: usize) -> (r: Vec<char>)
    ensures
        r@ == scrollbar_chars(top_line, body_rows, line_count),
{
    let mut column: Vec<char> = Vec::new();
    if body_rows == 0 {
        proof {
            assert(column@ =~= scrollbar_chars(top_line, body_rows, line_count));
        }
        return column;
    }
    let (thumb_start, thumb_end) = scrollbar_thumb(top_line, body_rows, line_count);
    let mut row: usize = 0;
    while row < body_rows
        invariant
            row <= body_rows,
            (thumb_start as int, thumb_end as int) == thumb_rows(top_line, body_rows, line_count),
            column@ == scrollbar_chars(top_line, body_rows, line_count).take(row as int),
        decreases body_rows - row,
    {
        let ch = if row >= thumb_start && row < thumb_end {
            '█'
        } else {
            '░'
        };
        column.push(ch);
        row = row + 1;
        proof {
            assert(column@ =~= scrollbar_chars(top_line, body_rows, line_count).take(row as int));
        }
    }
    proof {
        assert(scrollbar_chars(top_line, body_rows, line_count).take(row as int)
            =~= scrollbar_chars(top_line, body_rows, line_count));
    }
    column
}

/// The line that the row `row` of the scrollbar scrolls to.
pub fn scrollbar_target(row: usize, body_rows: usize, line_count: usize) -> (r: usize)
    requires
        0 < body_rows < line_count,
    ensures
        r == row_target(row, body_rows, line_count),
        r <= line_count - body_rows,
{
    let thumb = size_of_thumb(body_rows, line_count);
    let track: usize = body_rows - thumb;
    let scrollable: usize = line_count - body_rows;
    if track == 0 {
        return 0;
    }
    let target: usize = saturating_product(row, scrollable) / track;
    if target < scrollable {
        target
    } else {
        scrollable
    }
}

proof fn lemma_thumb_size(body_rows: usize, line_count: usize)
    requires
        0 < body_rows < line_count,
    ensures
        1 <= thumb_size(body_rows, line_count) <= body_rows,
        0 <= track_rows(body_rows, line_count) < body_rows,
{
}

/// A row scrolls to a line that can be the first visible one.
pub(crate) proof fn lemma_target_bounds(row: usize, body_rows: usize, line_count: usize)
    requires
        0 < body_rows < line_count,
    ensures
        0 <= row_target(row, body_rows, line_count) <= line_count - body_rows,
{
    let t = track_rows(body_rows, line_count);
    let n = saturated((row * (line_count - body_rows)) as nat) as int;
    lemma_thumb_size(body_rows, line_count);
    if t > 0 {
        assert(n / t >= 0) by (nonlinear_arith)
            requires
                n >= 0,
                t > 0,
        ;
    }
}

/// The thumb always shows, and never leaves the scrollbar.
pub proof fn law_thumb_stays_inside(top_line: usize, body_rows: usize, line_count: usize)
    requires
        body_rows > 0,
    ensures
        0 <= thumb_rows(top_line, body_rows, line_count).0,
        thumb_rows(top_line, body_rows, line_count).0 < thumb_rows(
            top_line,
            body_rows,
            line_count,
        ).1,
        thumb_rows(top_line, body_rows, line_count).1 <= body_rows,
{
    if line_count > body_rows {
        let x = saturated((top_line * track_rows(body_rows, line_count)) as nat) as int;
        let d = line_count - body_rows;
        assert(x / d >= 0) by (nonlinear_arith)
            requires
                x >= 0,
                d > 0,
        ;
    }
}

/// At the first line the thumb stands at the top.
pub proof fn law_thumb_at_first_line(body_rows: usize, line_count: usize)
    requires
        body_rows > 0,
    ensures
        thumb_rows(0, body_rows, line_count).0 == 0,
{
    if line_count > body_rows {
        let track = track_rows(body_rows, line_count);
        assert(0 * track == 0) by (nonlinear_arith);
        let d = line_count - body_rows;
        assert(0int / d == 0) by (nonlinear_arith)
            requires
                d > 0,
        ;
    }
}

/// Where the last lines are visible the thumb stands at the bottom.
pub proof fn law_thumb_at_last_line(top_line: usize, body_rows: usize, line_count: usize)
    requires
        body_rows > 0,
        top_line + body_rows >= line_count,
        top_line * body_rows <= usize::MAX,
    ensures
        thumb_rows(top_line, body_rows, line_count).1 == body_rows,
{
    if line_count > body_rows {
        let track = track_rows(body_rows, line_count);
        let d = line_count - body_rows;
        lemma_thumb_size(body_rows, line_count);
        assert(0 <= top_line * track <= top_line * body_rows) by (nonlinear_arith)
            requires
                0 <= track <= body_rows,
                top_line >= 0,
        ;
        assert((top_line * track) / d >= track) by (nonlinear_arith)
            requires
                top_line >= d > 0,
                track >= 0,
        ;
    }
}

/// A row of the scrollbar scrolls to the line that brings the thumb there: the thumb then starts at
/// that row or above it, and one line further it would start at that row or below it.
pub proof fn law_row_brings_thumb(row: usize, body_rows: usize, line_count: usize)
    requires
        0 < body_rows < line_count,
        track_rows(body_rows, line_count) > 0,
        row <= track_rows(body_rows, line_count),
        body_rows * line_count <= usize::MAX,
    ensures
        ({
            let target = row_target(row, body_rows, line_count);
            &&& 0 <= target <= line_count - body_rows
            &&& thumb_top(target as usize, body_rows, line_count) <= row
            &&& target < line_count - body_rows ==> thumb_top(
                (target + 1) as usize,
                body_rows,
                line_count,
            ) >= row
        }),
{
    let t = track_rows(body_rows, line_count);
    let s = line_count - body_rows;
    lemma_thumb_size(body_rows, line_count);
    let p = row * s;
    assert(0 <= p <= t * s) by (nonlinear_arith)
        requires
            p == row * s,
            0 <= row <= t,
            s > 0,
    ;
    assert(t * s <= body_rows * line_count) by (nonlinear_arith)
        requires
            0 <= t <= body_rows,
            0 <= s <= line_count,
    ;
    let q = p / t;
    assert(0 <= q <= s && q * t <= p && p < (q + 1) * t) by (nonlinear_arith)
        requires
            q == p / t,
            0 <= p <= t * s,
            t > 0,
    ;
    assert(row_target(row, body_rows, line_count) == q);
    assert(0 <= q * t <= t * s) by (nonlinear_arith)
        requires
            0 <= q <= s,
            t > 0,
    ;
    assert((q * t) / s <= row) by (nonlinear_arith)
        requires
            q * t <= p,
            p == row * s,
            s > 0,
    ;
    if q < s {
        assert(0 <= (q + 1) * t <= t * s) by (nonlinear_arith)
            requires
                0 <= q < s,
                t > 0,
        ;
        assert(((q + 1) * t) / s >= row) by (nonlinear_arith)
            requires
                p < (q + 1) * t,
                p == row * s,
                s > 0,
        ;
    }
}

/// The rows that the thumb covers at the bottom scroll to the last lines.
pub proof fn law_lowest_rows_reach_the_end(row: usize, body_rows: usize, line_count: usize)
    requires
        0 < body_rows < line_count,
        track_rows(body_rows, line_count) > 0,
        track_rows(body_rows, line_count) <= row < body_rows,
        body_rows * line_count <= usize::MAX,
    ensures
        row_target(row, body_rows, line_count) == line_count - body_rows,
        thumb_rows((line_count - body_rows) as usize, body_rows, line_count).0 <= row,
        row < thumb_rows((line_count - body_rows) as usize, body_rows, line_count).1,
{
    let t = track_rows(body_rows, line_count);
    let s = line_count - body_rows;
    lemma_thumb_size(body_rows, line_count);
    assert(0 <= row * s <= body_rows * line_count) by (nonlinear_arith)
        requires
            0 <= row <= body_rows,
            0 <= s <= line_count,
    ;
    assert((row * s) / t >= s) by (nonlinear_arith)
        requires
            row >= t > 0,
            s > 0,
    ;
    assert(0 <= s * t <= body_rows * line_count) by (nonlinear_arith)
        requires
            0 <= t <= body_rows,
            0 <= s <= line_count,
    ;
    assert((s * t) / s == t) by (nonlinear_arith)
        requires
            s > 0,
    ;
}

/// Further down the scrollbar never scrolls further up.
pub proof fn law_rows_in_order(row: usize, lower: usize, body_rows: usize, line_count: usize)
    requires
        0 < body_rows < line_count,
        row <= lower,
    ensures
        row_target(row, body_rows, line_count) <= row_target(lower, body_rows, line_count),
{
    let t = track_rows(body_rows, line_count);
    let s = line_count - body_rows;
    lemma_thumb_size(body_rows, line_count);
    if t > 0 {
        assert(0 <= row * s <= lower * s) by (nonlinear_arith)
            requires
                0 <= row <= lower,
                s > 0,
        ;
        let a = saturated((row * s) as nat) as int;
        let b = saturated((lower * s) as nat) as int;
        assert(a / t <= b / t) by (nonlinear_arith)
            requires
                a <= b,
                t > 0,
        ;
    }
}

/// The thumb takes the share of the scrollbar that the visible lines are of all lines, rounded down,
/// and one row at least.
pub proof fn law_thumb_share(body_rows: usize, line_count: usize)
    requires
        0 < body_rows < line_count,
        body_rows * body_rows <= usize::MAX,
    ensures
        ({
            let size = thumb_size(body_rows, line_count);
            &&& size >= 1
            &&& size > 1 ==> size * line_count <= body_rows * body_rows
            &&& body_rows * body_rows < (size + 1) * line_count
        }),
{
    let n = body_rows * body_rows;
    let q = n / line_count as int;
    assert(0 <= n) by (nonlinear_arith)
        requires
            n == body_rows * body_rows,
            body_rows >= 0,
    ;
    assert(q * line_count <= n && n < (q + 1) * line_count && 0 <= q) by (nonlinear_arith)
        requires
            q == n / line_count as int,
            line_count > 0,
            n >= 0,
    ;
    assert(q <= body_rows) by (nonlinear_arith)
        requires
            q * line_count <= n,
            n == body_rows * body_rows,
            body_rows < line_count,
            q >= 0,
            body_rows >= 0,
    ;
    if q < 1 {
        assert((1 + 1) * line_count > (q + 1) * line_count) by (nonlinear_arith)
            requires
                q < 1,
                line_count > 0,
        ;
    }
}

/// The thumb stands as far down its track as the first visible line stands among those that can be
/// the first, rounded down, and at the end of the track behind them.
pub proof fn law_thumb_in_proportion(top_line: usize, body_rows: usize, line_count: usize)
    requires
        0 < body_rows < line_count,
        top_line * body_rows <= usize::MAX,
    ensures
        ({
            let rows = thumb_rows(top_line, body_rows, line_count);
            let track = track_rows(body_rows, line_count);
            let tops = line_count - body_rows;
            &&& rows.1 - rows.0 == thumb_size(body_rows, line_count)
            &&& track + thumb_size(body_rows, line_count) == body_rows
            &&& 0 <= rows.0 <= track
            &&& rows.0 * tops <= top_line * track
            &&& rows.0 < track ==> top_line * track < (rows.0 + 1) * tops
        }),
{
    let t = track_rows(body_rows, line_count);
    let d = line_count - body_rows;
    lemma_thumb_size(body_rows, line_count);
    let n = top_line * t;
    assert(0 <= n <= top_line * body_rows) by (nonlinear_arith)
        requires
            n == top_line * t,
            0 <= t <= body_rows,
            top_line >= 0,
    ;
    let q = n / d;
    assert(q * d <= n && n < (q + 1) * d && 0 <= q) by (nonlinear_arith)
        requires
            q == n / d,
            d > 0,
            n >= 0,
    ;
    if q > t {
        assert(t * d <= q * d) by (nonlinear_arith)
            requires
                t <= q,
                d > 0,
        ;
    }
}

/// A row of the scrollbar scrolls as far down the lines that can be the first visible one as it stands
/// down the track, rounded down, and to the last of them below the track.
pub proof fn law_row_in_proportion(row: usize, body_rows: usize, line_count: usize)
    requires
        0 < body_rows < line_count,
        row < body_rows,
        body_rows * line_count <= usize::MAX,
    ensures
        ({
            let target = row_target(row, body_rows, line_count);
            let track = track_rows(body_rows, line_count);
            let tops = line_count - body_rows;
            &&& 0 <= target <= tops
            &&& track == 0 ==> target == 0
            &&& track > 0 ==> target * track <= row * tops
            &&& track > 0 && target < tops ==> row * tops < (target + 1) * track
        }),
{
    let t = track_rows(body_rows, line_count);
    let s = line_count - body_rows;
    lemma_thumb_size(body_rows, line_count);
    let n = row * s;
    assert(0 <= n <= body_rows * line_count) by (nonlinear_arith)
        requires
            n == row * s,
            0 <= row <= body_rows,
            0 <= s <= line_count,
    ;
    if t > 0 {
        let q = n / t;
        assert(q * t <= n && n < (q + 1) * t && 0 <= q) by (nonlinear_arith)
            requires
                q == n / t,
                t > 0,
                n >= 0,
        ;
        if q > s {
            assert(s * t <= q * t) by (nonlinear_arith)
                requires
                    s <= q,
                    t > 0,
            ;
        }
    }
}

/// The scrollbar shows a full block in the rows of the thumb and a shade in all others.
pub proof fn law_scrollbar_shows_thumb(top_line: usize, body_rows: usize, line_count: usize, row: int)
    requires
        0 <= row < body_rows,
    ensures
        ({
            let chars = scrollbar_chars(top_line, body_rows, line_count);
            let rows = thumb_rows(top_line, body_rows, line_count);
            &&& chars.len() == body_rows
            &&& chars[row] == '█' <==> rows.0 <= row < rows.1
            &&& chars[row] == '░' <==> !(rows.0 <= row < rows.1)
            &&& line_count <= body_rows ==> chars[row] == '█'
        }),
{
}

} // verus!
