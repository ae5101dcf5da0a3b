//! What keys and the mouse lead to, told from the state before and what is on the screen.
use vstd::prelude::*;

use crate::clipboard::columns;
use crate::display_laws::{capped, columns_taken, hidden_start, unseen};
use crate::events::{
    action_of, goto_top, on_scrollbar, session_after, state_after, Action, Input, Key, KeyInput,
    MouseInput, MouseKind, Session,
};
use crate::frame::{body_rows, clipped, content_width};
use crate::layout::{byte_at_column, prefix_len};
use crate::lines::{is_line_of, law_line_of_unique, line_of};
use crate::text::decimal;
use crate::viewer::{block_between, next_match, previous_match, range_between, ViewState, Viewer};

verus! {

/// The status bar and the footer take a row each, the scrollbar a column.
pub proof fn law_screen_is_shared(width: u16, height: u16)
    ensures
        height >= 2 ==> body_rows(height) + 2 == height,
        height < 2 ==> body_rows(height) == 0,
        width >= 1 ==> content_width(width) + 1 == width,
        width == 0 ==> content_width(width) == 0,
{
}

/// A text is cut off behind the last column, and left alone where it fits.
pub proof fn law_text_is_cut(text: Seq<char>, width: int)
    requires
        0 <= width,
    ensures
        text.len() <= width ==> clipped(text, width) == text,
        text.len() > width ==> clipped(text, width).len() == width,
        forall|x: int| 0 <= x < clipped(text, width).len() ==> clipped(text, width)[x] == text[x],
{
}

/// The rows show the lines from the first visible one on, one in each row as long as there are lines.
/// Where values are aligned the first row shows the first line, and the lines from the first
/// visible one on follow, the first line left out.
pub proof fn law_rows_show_lines(v: Viewer, rows: usize)
    requires
        v.wf(),
    ensures
        ({
            let shown = v.lines_in_view(rows);
            let top = v.top_line as int;
            let from = if top == 0 {
                1
            } else {
                top
            };
            &&& !v.aligned() ==> {
                &&& shown.len() == if v.count() - top <= rows {
                    v.count() - top
                } else {
                    rows as int
                }
                &&& forall|r: int| 0 <= r < shown.len() ==> #[trigger] shown[r] == top + r
            }
            &&& v.aligned() ==> {
                &&& shown.len() >= 1 && shown[0] == 0
                &&& rows >= 1 && from <= v.count() ==> shown.len() == if v.count() - from <= rows
                    - 1 {
                    1 + v.count() - from
                } else {
                    rows as int
                }
                &&& forall|r: int| 1 <= r < shown.len() ==> #[trigger] shown[r] == from + r - 1
            }
        }),
{
}

proof fn lemma_taken_from(line: Seq<u8>, tab: nat, a: int, n: int, target: nat)
    requires
        0 <= a <= n <= line.len(),
        forall|x: int|
            a <= x < n && !unseen(line[x]) ==> #[trigger] columns_taken(line, tab, a, x) < target,
    ensures
        match byte_at_column(line, tab, n, columns_taken(line, tab, a, n), target) {
            Some(k) => {
                &&& a <= k < line.len() && !unseen(line[k]) && columns_taken(line, tab, a, k)
                    >= target
                &&& forall|x: int|
                    a <= x < k && !unseen(line[x]) ==> #[trigger] columns_taken(line, tab, a, x)
                        < target
            },
            None => forall|x: int|
                a <= x < line.len() && !unseen(line[x]) ==> #[trigger] columns_taken(
                    line,
                    tab,
                    a,
                    x,
                ) < target,
        },
    decreases line.len() - n,
{
    if n < line.len() {
        if unseen(line[n]) || columns_taken(line, tab, a, n) < target {
            assert(columns_taken(line, tab, a, n + 1) == if unseen(line[n]) {
                columns_taken(line, tab, a, n)
            } else {
                columns_taken(line, tab, a, n) + crate::csv::byte_width(line[n], tab)
            });
            lemma_taken_from(line, tab, a, n + 1, target);
        }
    }
}

/// Pointing at the column `col` of line `i` leads to the first byte of the line that is shown in
/// that column or behind it, and to its last byte where it ends before.
pub proof fn law_pointing_leads_to_byte(v: Viewer, i: int, col: usize)
    requires
        v.wf(),
        0 <= i < v.count(),
    ensures
        ({
            let line = v.line(i);
            let tab = v.tab_width as nat;
            let a = hidden_start(i, line);
            let k = v.offset_at(i, col) - v.line_offsets@[i];
            ||| {
                &&& a <= k < line.len() && !unseen(line[k])
                &&& columns_taken(line, tab, a, k) >= col
                &&& forall|x: int|
                    a <= x < k && !unseen(line[x]) ==> #[trigger] columns_taken(line, tab, a, x)
                        < col
            }
            ||| {
                &&& v.offset_at(i, col) == if v.end_of_line(i) > 0 {
                    v.end_of_line(i) - 1
                } else {
                    0
                }
                &&& forall|x: int|
                    a <= x < line.len() && !unseen(line[x]) ==> #[trigger] columns_taken(
                        line,
                        tab,
                        a,
                        x,
                    ) < col
            }
        }),
{
    let line = v.line(i);
    let a = hidden_start(i, line);
    assert(prefix_len(i, line) == a);
    lemma_taken_from(line, v.tab_width as nat, a, a, col as nat);
}

/// A place on the screen points at the line that its row stands for, counted from the first visible
/// line, at the column that it shows, counted from the first visible column, and at the byte there;
/// and at nothing outside the rows and behind the last line.
pub proof fn law_pointing(v: Viewer, mouse: MouseInput, rows: usize)
    requires
        v.wf(),
    ensures
        v.pointed(mouse, rows) is Some <==> 1 <= mouse.row <= rows && v.top_line + mouse.row - 1
            < v.count(),
        v.pointed(mouse, rows) matches Some((line, col, offset)) ==> {
            &&& line == v.top_line + mouse.row - 1
            &&& col == capped((v.left_col + mouse.column) as nat)
            &&& offset == v.offset_at(line as int, col)
        },
{
    crate::viewer_laws::lemma_countable(v);
    if let Some((line, col, _)) = v.pointed(mouse, rows) {
        crate::viewer_laws::lemma_offset_inside(v, line as int, col);
    }
}

/// Where values are not aligned, a place on the screen points at the line that is shown in its row, and
/// at nothing where none is shown.
pub proof fn law_pointing_at_what_is_shown(v: Viewer, mouse: MouseInput, rows: usize)
    requires
        v.wf(),
        !v.aligned(),
        mouse.row >= 1,
    ensures
        v.pointed(mouse, rows) is Some <==> mouse.row - 1 < v.lines_in_view(rows).len(),
        v.pointed(mouse, rows) matches Some((line, col, offset)) ==> line == v.lines_in_view(
            rows,
        )[mouse.row - 1] && col == capped((v.left_col + mouse.column) as nat),
{
    law_pointing(v, mouse, rows);
    law_rows_show_lines(v, rows);
}

/// The mouse stands on the scrollbar in the last column only.
pub proof fn law_scrollbar_is_last_column(mouse: MouseInput, width: u16)
    requires
        width > 0,
    ensures
        on_scrollbar(mouse, width) <==> mouse.column + 1 == width,
{
}

/// Pressing the left button in the text puts the cursor there and starts a selection there: of
/// text, or of a block where control is held. The other kind of selection is given up.
pub proof fn law_press_starts_selection(
    v: Viewer,
    session: Session,
    mouse: MouseInput,
    width: u16,
    height: u16,
)
    requires
        v.wf(),
        mouse.kind == MouseKind::LeftDown,
        mouse.column + 1 != width,
        width > 0,
    ensures
        ({
            let after = v.after_mouse(session, mouse, width, height);
            let rows = body_rows(height);
            match v.pointed(mouse, rows) {
                Some((line, col, offset)) => {
                    &&& after.cursor_offset == offset
                    &&& mouse.control ==> after.selection_anchor is None && after.selection_focus
                        is None && after.block_selection_anchor == Some((line, col))
                        && after.block_selection_focus == Some((line, col))
                    &&& !mouse.control ==> after.selection_anchor == Some(offset)
                        && after.selection_focus == Some(offset)
                        && after.block_selection_anchor is None && after.block_selection_focus
                        is None
                    &&& after.top_line == v.top_line && after.left_col == v.left_col
                    &&& after.match_range == v.match_range && after.search_query
                        == v.state().search_query
                    &&& after.status_message == Some(
                        if mouse.control {
                            "Selecting block…"@
                        } else {
                            "Selecting text…"@
                        },
                    )
                },
                None => after == v.state(),
            }
        }),
        ({
            let next = v.session_after_mouse(session, mouse, width, height);
            next.selection_drag && next.scrollbar_drag == session.scrollbar_drag
        }),
{
}

/// Pressing and then dragging selects all between the two places: the text between the two bytes, or
/// the block between the two corners, whichever place comes first.
pub proof fn law_drag_selects_between(
    v: Viewer,
    w: Viewer,
    session: Session,
    press: MouseInput,
    drag: MouseInput,
    width: u16,
    height: u16,
)
    requires
        v.wf(),
        !session.scrollbar_drag,
        press.kind == MouseKind::LeftDown,
        press.column + 1 != width,
        width > 0,
        drag.kind == MouseKind::LeftDrag,
        v.pointed(press, body_rows(height)) is Some,
        w.same_file(&v),
        w.state() == v.after_mouse(session, press, width, height),
        w.pointed(drag, body_rows(height)) is Some,
    ensures
        ({
            let next = v.session_after_mouse(session, press, width, height);
            let after = w.after_mouse(next, drag, width, height);
            let (l, c, o) = v.pointed(press, body_rows(height))->0;
            let (m, d, p) = w.pointed(drag, body_rows(height))->0;
            &&& after.cursor_offset == p
            &&& !press.control ==> after.selection_anchor == Some(o) && after.selection_focus == Some(
                p,
            ) && after.block_selection_anchor is None && after.block_selection_focus is None
            &&& press.control ==> after.block_selection_anchor == Some((l, c))
                && after.block_selection_focus == Some((m, d)) && after.selection_anchor is None
                && after.selection_focus is None
            &&& after.top_line == v.top_line && after.left_col == v.left_col
        }),
{
}

/// Dragging does nothing where neither a selection nor the scrollbar is held, or outside the text.
pub proof fn law_idle_drag(
    v: Viewer,
    session: Session,
    mouse: MouseInput,
    width: u16,
    height: u16,
)
    requires
        mouse.kind == MouseKind::LeftDrag,
        !session.scrollbar_drag,
        !session.selection_drag || v.pointed(mouse, body_rows(height)) is None,
    ensures
        v.after_mouse(session, mouse, width, height) == v.state(),
        v.session_after_mouse(session, mouse, width, height) == session,
{
}

/// Pressing or dragging the scrollbar scrolls to where its row points, and changes nothing else.
pub proof fn law_scrollbar_is_held(
    v: Viewer,
    session: Session,
    mouse: MouseInput,
    width: u16,
    height: u16,
)
    requires
        width > 0,
        (mouse.kind == MouseKind::LeftDown && mouse.column + 1 == width) || (mouse.kind
            == MouseKind::LeftDrag && session.scrollbar_drag),
    ensures
        v.after_mouse(session, mouse, width, height) == (ViewState {
            top_line: v.scrollbar_top(mouse.row as usize, body_rows(height)) as usize,
            ..v.state()
        }),
        v.session_after_mouse(session, mouse, width, height) == (Session {
            needs_redraw: true,
            scrollbar_drag: true,
            selection_drag: session.selection_drag,
        }),
{
}

/// Letting the button go ends dragging, and says how much is selected.
pub proof fn law_release_ends_drag(
    v: Viewer,
    session: Session,
    mouse: MouseInput,
    width: u16,
    height: u16,
)
    requires
        mouse.kind == MouseKind::LeftUp,
    ensures
        ({
            let next = v.session_after_mouse(session, mouse, width, height);
            !next.scrollbar_drag && !next.selection_drag
        }),
        ({
            let after = v.after_mouse(session, mouse, width, height);
            let block = v.block_selection_anchor is Some && v.block_selection_focus is Some
                && v.block_selection_anchor != v.block_selection_focus;
            &&& after == (ViewState { status_message: after.status_message, ..v.state() })
            &&& !session.selection_drag ==> after == v.state()
            &&& session.selection_drag && block ==> after.status_message == Some(
                "Block selected. Right-click or Ctrl+C to copy."@,
            )
            &&& session.selection_drag && !block ==> match (v.selection_anchor, v.selection_focus) {
                (Some(a), Some(b)) => if a < b {
                    after.status_message == Some(
                        "Selected "@ + decimal((b - a) as nat) + " bytes. Press Ctrl+C to copy."@,
                    )
                } else if b < a {
                    after.status_message == Some(
                        "Selected "@ + decimal((a - b) as nat) + " bytes. Press Ctrl+C to copy."@,
                    )
                } else {
                    after.status_message is None
                },
                _ => after.status_message is None,
            }
        }),
{
}

/// The first line that can be the first visible one: the one behind the header, where there is a
/// header and a line behind it.
pub open spec fn first_top(v: Viewer) -> int {
    if v.csv_column_widths is Some && v.line_offsets@.len() > 1 {
        1
    } else {
        0
    }
}

/// The first visible line of the last page of `rows` rows, one of which shows the header, where
/// there is a header and more than one row.
pub open spec fn last_page(v: Viewer, rows: usize) -> int {
    let free = if v.csv_column_widths is Some && rows > 1 {
        rows - 1
    } else {
        rows as int
    };
    let top = v.line_offsets@.len() - free;
    if top > first_top(v) {
        top
    } else {
        first_top(v)
    }
}

/// Scrolling down by `by` lines goes that far, but not beyond the last page; scrolling up goes that
/// far, but not beyond the first line that can be the first visible one.
pub proof fn law_scrolling_goes_as_far(v: Viewer, by: usize, rows: usize)
    ensures
        v.top_line + by >= last_page(v, rows) ==> v.down_top(by, rows) == last_page(v, rows),
        first_top(v) <= v.top_line + by <= last_page(v, rows) ==> v.down_top(by, rows) == v.top_line
            + by,
        v.top_line >= first_top(v) + by ==> v.up_top(by) == v.top_line - by,
        v.top_line < first_top(v) + by ==> v.up_top(by) == first_top(v),
{
}

/// The keys that scroll move the first visible line and nothing else: an arrow by a line, a page key
/// by a page; Home goes to the first line, End to the last page.
pub proof fn law_keys_scroll(v: Viewer, key: Key, shift: bool, control: bool, page: usize)
    ensures
        ({
            let after = v.after_key(KeyInput { key, pressed: true, shift, control }, page);
            let step = if page > 1 {
                page
            } else {
                1
            };
            &&& key == Key::Up ==> after == v.with_top(v.up_top(1))
            &&& key == Key::Down ==> after == v.with_top(v.down_top(1, page))
            &&& key == Key::PageUp ==> after == v.with_top(v.up_top(step))
            &&& key == Key::PageDown ==> after == v.with_top(v.down_top(step, page))
            &&& key == Key::Home ==> after == v.with_top(0)
            &&& key == Key::End ==> after == v.with_top(v.down_top(usize::MAX, page))
        }),
        forall|top: int|
            0 <= top <= usize::MAX ==> {
                let after = #[trigger] v.with_top(top);
                &&& after.top_line == top
                &&& after.left_col == v.left_col && after.cursor_offset == v.cursor_offset
                &&& after.match_range == v.match_range && after.search_query
                    == v.state().search_query
                &&& after.selection_anchor == v.selection_anchor && after.selection_focus
                    == v.selection_focus
                &&& after.block_selection_anchor == v.block_selection_anchor
                    && after.block_selection_focus == v.block_selection_focus
                &&& after.status_message == v.state().status_message
            },
{
}

/// The wheel scrolls by three lines.
pub proof fn law_wheel_scrolls(
    v: Viewer,
    session: Session,
    mouse: MouseInput,
    width: u16,
    height: u16,
)
    ensures
        mouse.kind == MouseKind::ScrollUp ==> v.after_mouse(session, mouse, width, height)
            == v.with_top(v.up_top(3)),
        mouse.kind == MouseKind::ScrollDown ==> v.after_mouse(session, mouse, width, height)
            == v.with_top(v.down_top(3, body_rows(height))),
        mouse.kind == MouseKind::RightDown || mouse.kind == MouseKind::Other ==> v.after_mouse(
            session,
            mouse,
            width,
            height,
        ) == v.state(),
{
}

/// The arrows to the sides move the first visible column and the cursor by one, as far as there are
/// columns and bytes. With shift the selection reaches from where it started, or from the cursor,
/// to the cursor; without, nothing stays selected.
pub proof fn law_keys_move_cursor(v: Viewer, right: bool, shift: bool, control: bool, page: usize)
    requires
        v.wf(),
    ensures
        ({
            let key = if right {
                Key::Right
            } else {
                Key::Left
            };
            let after = v.after_key(KeyInput { key, pressed: true, shift, control }, page);
            &&& right && v.left_col < usize::MAX ==> after.left_col == v.left_col + 1
            &&& right && v.left_col == usize::MAX ==> after.left_col == v.left_col
            &&& !right && v.left_col > 0 ==> after.left_col == v.left_col - 1
            &&& !right && v.left_col == 0 ==> after.left_col == 0
            &&& right && v.cursor_offset < v.bytes().len() ==> after.cursor_offset
                == v.cursor_offset + 1
            &&& right && v.cursor_offset == v.bytes().len() ==> after.cursor_offset
                == v.cursor_offset
            &&& !right && v.cursor_offset > 0 ==> after.cursor_offset == v.cursor_offset - 1
            &&& !right && v.cursor_offset == 0 ==> after.cursor_offset == 0
            &&& shift ==> after.selection_focus == Some(after.cursor_offset)
            &&& shift && v.selection_anchor is Some ==> after.selection_anchor == v.selection_anchor
            &&& shift && v.selection_anchor is None ==> after.selection_anchor == Some(
                v.cursor_offset,
            )
            &&& shift ==> after.block_selection_anchor == v.block_selection_anchor
                && after.block_selection_focus == v.block_selection_focus
            &&& !shift ==> after.selection_anchor is None && after.selection_focus is None
                && after.block_selection_anchor is None && after.block_selection_focus is None
            &&& after.top_line == v.top_line && after.match_range == v.match_range
            &&& after.search_query == v.state().search_query && after.status_message
                == v.state().status_message
        }),
{
    crate::viewer_laws::lemma_countable(v);
}

/// `n` shows the first match behind the one that was found last, or from the first visible line on
/// where none was; `p` shows the last match before it. Without such a match nothing changes, and
/// without a query neither.
pub proof fn law_keys_walk_matches(v: Viewer, shift: bool, control: bool, page: usize)
    requires
        v.wf(),
    ensures
        ({
            let n = v.after_key(
                KeyInput { key: Key::Char('n'), pressed: true, shift, control },
                page,
            );
            let p = v.after_key(
                KeyInput { key: Key::Char('p'), pressed: true, shift, control },
                page,
            );
            match v.search_query {
                None => n == v.state() && p == v.state(),
                Some(query) => {
                    let top = v.line_offsets@[v.top_line as int];
                    let next = match v.match_range {
                        Some((_, to)) => next_match(v.bytes(), query@, to),
                        None => next_match(v.bytes(), query@, top),
                    };
                    let previous = match v.match_range {
                        Some((from, _)) => previous_match(
                            v.bytes(),
                            query@,
                            if from == 0 {
                                0
                            } else {
                                (from - 1) as usize
                            },
                        ),
                        None => previous_match(v.bytes(), query@, top),
                    };
                    &&& next is None ==> n == v.state()
                    &&& next is Some ==> n.match_range == next && n == (ViewState {
                        match_range: next,
                        top_line: n.top_line,
                        ..v.state()
                    })
                    &&& previous is None ==> p == v.state()
                    &&& previous is Some ==> p.match_range == previous && p == (ViewState {
                        match_range: previous,
                        top_line: p.top_line,
                        ..v.state()
                    })
                },
            }
        }),
{
}

/// A match that is shown puts its line into the middle of the page: half a page of lines stands
/// above it, or all lines that there are.
pub proof fn law_match_is_centred(v: Viewer, i: int, start: usize, end: usize, page: usize)
    requires
        v.wf(),
        is_line_of(v.line_offsets@, start, i),
    ensures
        ({
            let after = v.with_match(start, end, page);
            let half = if page > 1 {
                page as int / 2
            } else {
                0
            };
            &&& after.match_range == Some((start, end))
            &&& i >= half ==> after.top_line == i - half
            &&& i < half ==> after.top_line == 0
            &&& after == (ViewState {
                match_range: after.match_range,
                top_line: after.top_line,
                ..v.state()
            })
        }),
{
    crate::viewer_laws::lemma_countable(v);
    law_line_of_unique(
        v.bytes(),
        v.line_offsets@,
        start,
        i,
        line_of(v.line_offsets@, start),
    );
}

/// Going to a line puts it into the middle of the page: half a page of lines stands above it, or all
/// lines that there are. A number behind the last line means the last line, zero the first.
pub proof fn law_goto_is_centred(number: usize, page: usize, count: int)
    requires
        count > 0,
    ensures
        ({
            let i = if number == 0 {
                0
            } else if number <= count {
                number - 1
            } else {
                count - 1
            };
            let half = if page > 1 {
                page as int / 2
            } else {
                0
            };
            &&& i >= half ==> goto_top(number, page, count) == i - half
            &&& i < half ==> goto_top(number, page, count) == 0
        }),
{
}

/// `q` quits, `g` and `f` ask, and control with `c` and the right button copy; nothing else asks for
/// anything, and a key that is let go means nothing.
pub proof fn law_actions(input: Input)
    ensures
        action_of(input) == Action::Quit <==> (input matches Input::Key(k) && k.pressed && k.key
            == Key::Char('q')),
        action_of(input) == Action::AskLine <==> (input matches Input::Key(k) && k.pressed && k.key
            == Key::Char('g')),
        action_of(input) == Action::AskQuery <==> (input matches Input::Key(k) && k.pressed && k.key
            == Key::Char('f')),
        action_of(input) == Action::Copy <==> {
            ||| input matches Input::Key(k) && k.pressed && k.control && k.key == Key::Char('c')
            ||| input matches Input::Mouse(m) && m.kind == MouseKind::RightDown
        },
{
}

/// Keys that mean nothing, and keys that are let go, change nothing; nor does a change of the size.
pub proof fn law_other_input_changes_nothing(
    v: Viewer,
    session: Session,
    input: Input,
    width: u16,
    height: u16,
)
    requires
        match input {
            Input::Key(k) => !k.pressed || k.key == Key::Other || k.key == Key::Enter || k.key
                == Key::Esc || k.key == Key::Backspace || (k.key matches Key::Char(c) && c != 'n'
                && c != 'p'),
            Input::Mouse(m) => m.kind == MouseKind::Other || m.kind == MouseKind::RightDown,
            Input::Resize | Input::Other => true,
        },
    ensures
        state_after(v, session, input, width, height) == v.state(),
        session_after(v, session, input, width, height) == (Session {
            needs_redraw: session.needs_redraw || input == Input::Resize,
            ..session
        }),
{
}

/// Whatever changes the viewer has the screen drawn again.
pub proof fn law_changes_are_drawn(
    v: Viewer,
    session: Session,
    input: Input,
    width: u16,
    height: u16,
)
    ensures
        state_after(v, session, input, width, height) != v.state() ==> session_after(
            v,
            session,
            input,
            width,
            height,
        ).needs_redraw,
        session.needs_redraw ==> session_after(v, session, input, width, height).needs_redraw,
        input == Input::Resize ==> session_after(v, session, input, width, height).needs_redraw,
{
}

/// What is selected as text reaches from the smaller of the two offsets to the larger, and is nothing
/// where they are the same or one is missing.
pub proof fn law_selected_range(anchor: Option<usize>, focus: Option<usize>)
    ensures
        match (anchor, focus) {
            (Some(a), Some(b)) => {
                &&& a < b ==> range_between(anchor, focus) == Some((a, b))
                &&& b < a ==> range_between(anchor, focus) == Some((b, a))
                &&& a == b ==> range_between(anchor, focus) is None
            },
            _ => range_between(anchor, focus) is None,
        },
{
}

/// A selected block spans the lines and the columns of its two corners, and is nothing where they
/// are the same or one is missing.
pub proof fn law_selected_block(anchor: Option<(usize, usize)>, focus: Option<(usize, usize)>)
    ensures
        match (anchor, focus) {
            (Some((l, c)), Some((m, d))) => {
                &&& l == m && c == d ==> block_between(anchor, focus) is None
                &&& l != m || c != d ==> (block_between(anchor, focus) matches Some(
                    (top, bottom, left, right),
                ) && (top == l || top == m) && (bottom == l || bottom == m) && top <= bottom && (top
                    == bottom ==> l == m) && (left == c || left == d) && (right == c || right == d)
                    && left <= right && (left == right ==> c == d))
            },
            _ => block_between(anchor, focus) is None,
        },
{
}

/// A row of a block holds the characters of a line from the left column to the right one, both
/// included, as far as there are any.
pub open spec fn block_row(v: Viewer, line: int, left: usize, right: usize) -> Seq<char> {
    let chars = v.chars_of_line(line);
    let len = if chars.len() <= left {
        0
    } else if chars.len() <= right {
        chars.len() - left
    } else {
        right - left + 1
    };
    Seq::new(len as nat, |x: int| chars[left + x])
}

/// The rows of a block from the line `top` up to the line `n`, without it, each with a line feed
/// behind it.
pub open spec fn block_rows(v: Viewer, top: int, n: int, left: usize, right: usize) -> Seq<char>
    decreases n - top,
{
    if n <= top {
        Seq::empty()
    } else {
        block_rows(v, top, n - 1, left, right) + block_row(v, n - 1, left, right).push('\n')
    }
}

proof fn lemma_block_row(v: Viewer, line: int, left: usize, right: usize)
    requires
        left <= right,
    ensures
        columns(v.chars_of_line(line), left, right) == block_row(v, line, left, right),
{
    assert(columns(v.chars_of_line(line), left, right) =~= block_row(v, line, left, right));
}

proof fn lemma_block_text(v: Viewer, top: int, n: int, bottom: usize, left: usize, right: usize)
    requires
        0 <= top <= n <= bottom,
        n < v.count(),
        left <= right,
    ensures
        v.block_text(top, bottom, left, right) == block_rows(v, top, n, left, right) + v.block_text(
            n,
            bottom,
            left,
            right,
        ),
    decreases n - top,
{
    if n > top {
        lemma_block_text(v, top, n - 1, bottom, left, right);
        lemma_block_row(v, n - 1, left, right);
        assert(v.block_text(top, bottom, left, right) =~= block_rows(v, top, n, left, right)
            + v.block_text(n, bottom, left, right));
    } else {
        assert(block_rows(v, top, n, left, right) + v.block_text(n, bottom, left, right)
            =~= v.block_text(n, bottom, left, right));
    }
}

/// The text of a block is that of its rows, with line feeds between them. A block that reaches behind
/// the last line ends with the line feed behind it.
pub proof fn law_block_text(v: Viewer, top: usize, bottom: usize, left: usize, right: usize)
    requires
        top <= bottom,
        top < v.count(),
        left <= right,
    ensures
        bottom < v.count() ==> v.block_text(top as int, bottom, left, right) == block_rows(
            v,
            top as int,
            bottom as int,
            left,
            right,
        ) + block_row(v, bottom as int, left, right),
        bottom >= v.count() ==> v.block_text(top as int, bottom, left, right) == block_rows(
            v,
            top as int,
            v.count(),
            left,
            right,
        ),
{
    let last = if bottom < v.count() {
        bottom as int
    } else {
        v.count() - 1
    };
    lemma_block_text(v, top as int, last, bottom, left, right);
    lemma_block_row(v, last, left, right);
    if bottom >= v.count() {
        assert(v.block_text(v.count(), bottom, left, right) =~= Seq::<char>::empty());
        assert(v.block_text(last, bottom, left, right) =~= block_row(v, last, left, right).push(
            '\n',
        ));
    }
}

} // verus!
