//! What the operations change that change something, told from the state before.
//!
//! Each law speaks of a call: of what it is given, of what it leaves behind, and of any result that
//! it can have.
use vstd::prelude::*;
use vstd::utf8::{decode_utf8, encode_utf8, valid_utf8};

use crate::clipboard::CopyOutcome;
use crate::display_laws::capped;
use crate::document::Document;
use crate::editor::GuiApp;
use crate::event_laws::{
    first_top, last_page, law_goto_is_centred, law_match_is_centred, law_pointing,
    law_pointing_at_what_is_shown, law_scrolling_goes_as_far,
};
use crate::events::{
    finish_find, finish_goto, handle_input, handle_key, handle_mouse, Action, Input, Key, KeyInput,
    MouseInput, MouseKind, Session,
};
use crate::frame::body_rows;
use crate::lines::is_line_of;
use crate::prompt::{find_answer, Answer, FindPrompt, GotoPrompt};
use crate::operation_laws::row_cells;
use crate::render::{push_char, segment_runs, Cell, RenderClass, Segment};
use crate::text::{decimal, push_decimal};
use crate::text_laws::{law_copy_is_told, law_decimal, ten_digit, writes, written_number};
use crate::viewer::{ViewState, Viewer};
use crate::viewer_laws::{law_next_is_first, law_scrollbar_row_scrolls, lemma_countable, stands_at};
use crate::xml_format::push_indented_xml_line;

verus! {

/// The two viewers differ in nothing but what is visible.
pub open spec fn only_scrolled(before: Viewer, after: Viewer) -> bool {
    &&& after.same_file(&before)
    &&& after.cursor_offset == before.cursor_offset
    &&& after.match_range == before.match_range
    &&& after.state().search_query == before.state().search_query
    &&& after.selection_anchor == before.selection_anchor
    &&& after.selection_focus == before.selection_focus
    &&& after.block_selection_anchor == before.block_selection_anchor
    &&& after.block_selection_focus == before.block_selection_focus
    &&& after.state().status_message == before.state().status_message
}

proof fn lemma_only_scrolled(before: Viewer, after: Viewer)
    requires
        after.same_file(&before),
        after.state() == (ViewState {
            top_line: after.top_line,
            left_col: after.left_col,
            ..before.state()
        }),
    ensures
        only_scrolled(before, after),
{
    assert(after.state().cursor_offset == before.state().cursor_offset);
    assert(after.state().match_range == before.state().match_range);
    assert(after.state().selection_anchor == before.state().selection_anchor);
    assert(after.state().selection_focus == before.state().selection_focus);
    assert(after.state().block_selection_anchor == before.state().block_selection_anchor);
    assert(after.state().block_selection_focus == before.state().block_selection_focus);
}

/// Scrolling up moves the view up by that many lines, but not above the first line, or the one behind
/// the header, and changes nothing else.
pub proof fn law_scroll_up(v: &mut Viewer, by: usize)
    requires
        old(v).wf(),
        call_ensures(Viewer::scroll_up, (v, by), ()),
    ensures
        old(v).top_line >= first_top(*old(v)) + by ==> final(v).top_line == old(v).top_line - by,
        old(v).top_line < first_top(*old(v)) + by ==> final(v).top_line == first_top(*old(v)),
        final(v).left_col == old(v).left_col,
        only_scrolled(*old(v), *final(v)),
{
    law_scrolling_goes_as_far(*old(v), by, 1);
    assert(final(v).state().top_line == final(v).top_line);
    assert(final(v).state().left_col == old(v).state().left_col);
    lemma_only_scrolled(*old(v), *final(v));
}

/// Scrolling down moves the view down by that many lines, but not beyond the last page, and changes
/// nothing else.
pub proof fn law_scroll_down(v: &mut Viewer, by: usize, rows: usize)
    requires
        old(v).wf(),
        call_ensures(Viewer::scroll_down, (v, by, rows), ()),
    ensures
        old(v).top_line + by >= last_page(*old(v), rows) ==> final(v).top_line == last_page(
            *old(v),
            rows,
        ),
        first_top(*old(v)) <= old(v).top_line + by <= last_page(*old(v), rows) ==> final(v).top_line
            == old(v).top_line + by,
        final(v).left_col == old(v).left_col,
        only_scrolled(*old(v), *final(v)),
{
    lemma_countable(*old(v));
    law_scrolling_goes_as_far(*old(v), by, rows);
    assert(final(v).state().top_line == final(v).top_line);
    assert(final(v).state().left_col == old(v).state().left_col);
    lemma_only_scrolled(*old(v), *final(v));
}

/// Scrolling to the side moves the view by that many columns, as far as there are columns, and changes
/// nothing else.
pub proof fn law_scroll_left(v: &mut Viewer, by: usize)
    requires
        old(v).wf(),
        call_ensures(Viewer::scroll_left, (v, by), ()),
    ensures
        by <= old(v).left_col ==> final(v).left_col == old(v).left_col - by,
        by > old(v).left_col ==> final(v).left_col == 0,
        final(v).top_line == old(v).top_line,
        only_scrolled(*old(v), *final(v)),
{
    assert(final(v).state().left_col == final(v).left_col);
    assert(final(v).state().top_line == old(v).state().top_line);
    lemma_only_scrolled(*old(v), *final(v));
}

/// Scrolling to the side moves the view by that many columns, as far as a `usize` counts them, and
/// changes nothing else.
pub proof fn law_scroll_right(v: &mut Viewer, by: usize)
    requires
        old(v).wf(),
        call_ensures(Viewer::scroll_right, (v, by), ()),
    ensures
        final(v).left_col == capped((old(v).left_col + by) as nat),
        final(v).top_line == old(v).top_line,
        only_scrolled(*old(v), *final(v)),
{
    assert(final(v).state().left_col == final(v).left_col);
    assert(final(v).state().top_line == old(v).state().top_line);
    lemma_only_scrolled(*old(v), *final(v));
}

/// A row of the scrollbar scrolls to the line that its place points at, and nothing scrolls where
/// every line is visible.
pub proof fn law_scroll_to_row(v: &mut Viewer, screen_row: usize, rows: usize)
    requires
        old(v).wf(),
        call_ensures(Viewer::scroll_to_scrollbar_row, (v, screen_row, rows), ()),
    ensures
        rows == 0 || old(v).count() <= rows ==> final(v).top_line == old(v).top_line,
        0 < rows < old(v).count() ==> {
            let row: int = if screen_row == 0 {
                0
            } else if screen_row <= rows {
                screen_row - 1
            } else {
                rows - 1
            };
            let target = crate::scrollbar::row_target(row as usize, rows, old(v).count() as usize);
            &&& first_top(*old(v)) == 1 && target == 0 ==> final(v).top_line == 1
            &&& first_top(*old(v)) == 0 || target >= 1 ==> final(v).top_line == target
        },
        final(v).left_col == old(v).left_col,
        only_scrolled(*old(v), *final(v)),
{
    lemma_countable(*old(v));
    law_scrollbar_row_scrolls(*old(v), screen_row, rows);
    assert(final(v).state().top_line == final(v).top_line);
    assert(final(v).state().left_col == old(v).state().left_col);
    lemma_only_scrolled(*old(v), *final(v));
}

/// A match that is set is marked, and its line has half a page of lines above it, or all that there
/// are.
pub proof fn law_set_match(v: &mut Viewer, start: usize, end: usize, rows: usize, i: int)
    requires
        old(v).wf(),
        is_line_of(old(v).line_offsets@, start, i),
        call_ensures(Viewer::set_match, (v, start, end, rows), ()),
    ensures
        ({
            let half = if rows > 1 {
                rows as int / 2
            } else {
                0
            };
            &&& final(v).match_range == Some((start, end))
            &&& i >= half ==> final(v).top_line == i - half
            &&& i < half ==> final(v).top_line == 0
            &&& final(v).left_col == old(v).left_col && final(v).cursor_offset == old(v).cursor_offset
            &&& final(v).selection_anchor == old(v).selection_anchor && final(v).selection_focus
                == old(v).selection_focus
            &&& final(v).same_file(old(v))
        }),
{
    law_match_is_centred(*old(v), i, start, end, rows);
    let after = final(v).state();
    assert(after.match_range == final(v).match_range && after.top_line == final(v).top_line);
    assert(after.left_col == final(v).left_col && after.cursor_offset == final(v).cursor_offset);
    assert(after.selection_anchor == final(v).selection_anchor);
    assert(after.selection_focus == final(v).selection_focus);
}

/// Nothing stays selected, and nothing else changes.
pub proof fn law_clear_selection(v: &mut Viewer)
    requires
        old(v).wf(),
        call_ensures(Viewer::clear_selection, (v,), ()),
    ensures
        final(v).selection_anchor is None && final(v).selection_focus is None,
        final(v).block_selection_anchor is None && final(v).block_selection_focus is None,
        final(v).top_line == old(v).top_line && final(v).left_col == old(v).left_col,
        final(v).cursor_offset == old(v).cursor_offset && final(v).match_range == old(v).match_range,
        final(v).same_file(old(v)),
{
    let after = final(v).state();
    assert(after.selection_anchor == final(v).selection_anchor);
    assert(after.selection_focus == final(v).selection_focus);
    assert(after.block_selection_anchor == final(v).block_selection_anchor);
    assert(after.block_selection_focus == final(v).block_selection_focus);
    assert(after.top_line == final(v).top_line && after.left_col == final(v).left_col);
    assert(after.cursor_offset == final(v).cursor_offset && after.match_range == final(v).match_range);
}

/// An event changes the viewer and the session as its key or its mouse button says, and asks for what
/// it asks.
pub proof fn law_handle_input(
    v: &mut Viewer,
    session: &mut Session,
    input: Input,
    width: u16,
    height: u16,
    r: Action,
)
    requires
        call_ensures(handle_input, (v, session, input, width, height), r),
    ensures
        final(v).wf(),
        final(v).same_file(old(v)),
        match input {
            Input::Key(key) => final(v).state() == old(v).after_key(
                key,
                if height >= 2 {
                    (height - 2) as usize
                } else {
                    0
                },
            ),
            Input::Mouse(mouse) => final(v).state() == old(v).after_mouse(
                *old(session),
                mouse,
                width,
                height,
            ) && *final(session) == old(v).session_after_mouse(*old(session), mouse, width, height),
            Input::Resize | Input::Other => final(v).state() == old(v).state(),
        },
        r == Action::Quit <==> (input matches Input::Key(k) && k.pressed && k.key == Key::Char('q')),
        r == Action::AskLine <==> (input matches Input::Key(k) && k.pressed && k.key == Key::Char(
            'g',
        )),
        r == Action::AskQuery <==> (input matches Input::Key(k) && k.pressed && k.key == Key::Char(
            'f',
        )),
        r == Action::Copy <==> (input matches Input::Key(k) && k.pressed && k.control && k.key
            == Key::Char('c')) || (input matches Input::Mouse(m) && m.kind == MouseKind::RightDown),
        final(v).state() != old(v).state() || old(session).needs_redraw ==> final(session).needs_redraw,
{
    crate::event_laws::law_actions(input);
    crate::event_laws::law_changes_are_drawn(*old(v), *old(session), input, width, height);
}

/// A key and the mouse do what they do as events.
pub proof fn law_handle_parts(
    v: &mut Viewer,
    session: &mut Session,
    key: KeyInput,
    mouse: MouseInput,
    width: u16,
    height: u16,
    r: Action,
)
    ensures
        call_ensures(handle_key, (v, session, key, height), r) ==> {
            &&& final(v).wf() && final(v).same_file(old(v))
            &&& final(v).state() == old(v).after_key(key, body_rows(height))
            &&& r == Action::Quit <==> key.pressed && key.key == Key::Char('q')
        },
        call_ensures(handle_mouse, (v, session, mouse, width, height), r) ==> {
            &&& final(v).wf() && final(v).same_file(old(v))
            &&& final(v).state() == old(v).after_mouse(*old(session), mouse, width, height)
            &&& *final(session) == old(v).session_after_mouse(*old(session), mouse, width, height)
            &&& r == Action::Copy <==> mouse.kind == MouseKind::RightDown
        },
{
}

/// Where values are not aligned, pressing the left button on a line that is shown puts the cursor on
/// that line, at the column under the mouse, and starts a selection there; where no line is shown
/// nothing changes.
pub proof fn law_press_on_shown_line(
    v: &mut Viewer,
    session: &mut Session,
    mouse: MouseInput,
    width: u16,
    height: u16,
    r: Action,
)
    requires
        old(v).wf(),
        !old(v).aligned(),
        mouse.kind == MouseKind::LeftDown,
        1 <= mouse.row,
        mouse.column + 1 < width,
        call_ensures(handle_input, (v, session, Input::Mouse(mouse), width, height), r),
    ensures
        ({
            let shown = old(v).lines_in_view(body_rows(height));
            let col = capped((old(v).left_col + mouse.column) as nat) as usize;
            &&& mouse.row - 1 < shown.len() ==> {
                let line = shown[mouse.row - 1];
                let offset = old(v).offset_at(line, col);
                &&& final(v).cursor_offset == offset
                &&& !mouse.control ==> final(v).selection_anchor == Some(offset as usize)
                    && final(v).selection_focus == Some(offset as usize)
                    && final(v).block_selection_anchor is None
                &&& mouse.control ==> final(v).block_selection_anchor == Some((line as usize, col))
                    && final(v).block_selection_focus == Some((line as usize, col))
                    && final(v).selection_anchor is None
            }
            &&& mouse.row - 1 >= shown.len() ==> final(v).state() == old(v).state()
        }),
{
    let rows = body_rows(height);
    law_pointing(*old(v), mouse, rows);
    law_pointing_at_what_is_shown(*old(v), mouse, rows);
    let after = final(v).state();
    assert(after == old(v).after_mouse(*old(session), mouse, width, height));
    assert(after.cursor_offset == final(v).cursor_offset);
    assert(after.selection_anchor == final(v).selection_anchor);
    assert(after.selection_focus == final(v).selection_focus);
    assert(after.block_selection_anchor == final(v).block_selection_anchor);
    assert(after.block_selection_focus == final(v).block_selection_focus);
    if let Some((line, col, _)) = old(v).pointed(mouse, rows) {
        crate::viewer_laws::lemma_offset_inside(*old(v), line as int, col);
        lemma_countable(*old(v));
    }
}

/// Dragging while text is selected puts the cursor and the end of the selection on the line that is
/// shown under the mouse; the start stays.
pub proof fn law_drag_on_shown_line(
    v: &mut Viewer,
    session: &mut Session,
    mouse: MouseInput,
    width: u16,
    height: u16,
    r: Action,
)
    requires
        old(v).wf(),
        !old(v).aligned(),
        mouse.kind == MouseKind::LeftDrag,
        1 <= mouse.row,
        old(session).selection_drag,
        !old(session).scrollbar_drag,
        call_ensures(handle_input, (v, session, Input::Mouse(mouse), width, height), r),
    ensures
        ({
            let shown = old(v).lines_in_view(body_rows(height));
            let col = capped((old(v).left_col + mouse.column) as nat) as usize;
            &&& mouse.row - 1 < shown.len() ==> {
                let line = shown[mouse.row - 1];
                let offset = old(v).offset_at(line, col);
                &&& final(v).cursor_offset == offset
                &&& final(v).selection_anchor == old(v).selection_anchor
                &&& final(v).block_selection_anchor == old(v).block_selection_anchor
                &&& old(v).block_selection_anchor is None ==> final(v).selection_focus == Some(
                    offset as usize,
                )
                &&& old(v).block_selection_anchor is Some ==> final(v).block_selection_focus
                    == Some((line as usize, col))
            }
            &&& mouse.row - 1 >= shown.len() ==> final(v).state() == old(v).state()
        }),
{
    let rows = body_rows(height);
    law_pointing(*old(v), mouse, rows);
    law_pointing_at_what_is_shown(*old(v), mouse, rows);
    let after = final(v).state();
    assert(after == old(v).after_mouse(*old(session), mouse, width, height));
    assert(after.cursor_offset == final(v).cursor_offset);
    assert(after.selection_anchor == final(v).selection_anchor);
    assert(after.selection_focus == final(v).selection_focus);
    assert(after.block_selection_anchor == final(v).block_selection_anchor);
    assert(after.block_selection_focus == final(v).block_selection_focus);
    if let Some((line, col, _)) = old(v).pointed(mouse, rows) {
        crate::viewer_laws::lemma_offset_inside(*old(v), line as int, col);
        lemma_countable(*old(v));
    }
}

/// Going to a line puts it into the middle of the page, and giving the question up changes nothing but
/// that the screen is drawn again.
pub proof fn law_finish_goto(
    v: &mut Viewer,
    session: &mut Session,
    answer: Option<usize>,
    height: u16,
)
    requires
        old(v).wf(),
        call_ensures(finish_goto, (v, session, answer, height), ()),
    ensures
        final(session).needs_redraw,
        only_scrolled(*old(v), *final(v)),
        final(v).left_col == old(v).left_col,
        match answer {
            None => final(v).top_line == old(v).top_line,
            Some(number) => {
                let i = if number == 0 {
                    0
                } else if number <= old(v).count() {
                    number - 1
                } else {
                    old(v).count() - 1
                };
                let half = if height >= 4 {
                    (height - 2) as int / 2
                } else {
                    0
                };
                &&& i >= half ==> final(v).top_line == i - half
                &&& i < half ==> final(v).top_line == 0
            },
        },
{
    lemma_countable(*old(v));
    if let Some(number) = answer {
        law_goto_is_centred(number, body_rows(height), old(v).count());
    }
    assert(final(v).state().top_line == final(v).top_line);
    assert(final(v).state().left_col == final(v).left_col);
    lemma_only_scrolled(*old(v), *final(v));
}

/// Finding a text keeps it as the query and marks the first place from the first visible line on where
/// its bytes stand, or nothing where there is none; giving the question up keeps the query.
pub proof fn law_finish_find(
    v: &mut Viewer,
    session: &mut Session,
    answer: Option<String>,
    height: u16,
)
    requires
        old(v).wf(),
        old(v).top_line < old(v).count(),
        call_ensures(finish_find, (v, session, answer, height), ()),
    ensures
        final(session).needs_redraw,
        final(v).same_file(old(v)),
        match answer {
            None => final(v).state() == old(v).state(),
            Some(text) => {
                let query = encode_utf8(text@);
                let from = old(v).line_offsets@[old(v).top_line as int];
                &&& final(v).search_query matches Some(kept) && kept@ == query
                &&& final(v).match_range matches Some((a, b)) ==> {
                    &&& from <= a && b == a + query.len() && stands_at(old(v).bytes(), query, a as int)
                    &&& forall|p: int|
                        from <= p < a ==> !#[trigger] stands_at(old(v).bytes(), query, p)
                }
                &&& final(v).match_range is None ==> final(v).top_line == old(v).top_line && (
                query.len() == 0 || forall|p: int|
                    from <= p ==> !#[trigger] stands_at(old(v).bytes(), query, p))
                &&& final(v).left_col == old(v).left_col
                &&& final(v).cursor_offset == old(v).cursor_offset
            },
        },
{
    lemma_countable(*old(v));
    let after = final(v).state();
    assert(after.match_range == final(v).match_range && after.top_line == final(v).top_line);
    assert(after.left_col == final(v).left_col && after.cursor_offset == final(v).cursor_offset);
    if let Some(text) = answer {
        let query = encode_utf8(text@);
        law_next_is_first(
            old(v).bytes(),
            query,
            old(v).line_offsets@[old(v).top_line as int],
        );
        assert(after.search_query == Some(query));
    }
}

/// After a copy the footer says what became of it, and nothing else changes.
pub proof fn law_finish_copy(v: &mut Viewer, bytes: Option<usize>, outcome: CopyOutcome) -> (r: Seq<
    char,
>)
    requires
        old(v).wf(),
        call_ensures(Viewer::finish_copy, (v, bytes, outcome), ()),
    ensures
        final(v).status_message matches Some(text) && {
            &&& outcome == CopyOutcome::Copied && bytes is Some ==> writes(r, bytes->0 as nat)
                && text@ == "Copied "@ + r + " bytes to clipboard"@
            &&& outcome == CopyOutcome::Copied && bytes is None ==> text@
                == "Copied block selection to clipboard"@
            &&& outcome == CopyOutcome::Failed ==> text@ == "Failed to copy selection to clipboard"@
            &&& outcome == CopyOutcome::Unavailable ==> text@
                == "Clipboard unavailable in this environment"@
        },
        final(v).top_line == old(v).top_line && final(v).match_range == old(v).match_range,
        final(v).selection_anchor == old(v).selection_anchor,
        final(v).selection_focus == old(v).selection_focus,
{
    let after = final(v).state();
    assert(after.top_line == final(v).top_line && after.match_range == final(v).match_range);
    assert(after.selection_anchor == final(v).selection_anchor);
    assert(after.selection_focus == final(v).selection_focus);
    assert(after.status_message is Some);
    law_copy_is_told(bytes, outcome)
}

/// The question for a line takes in digits, backspace takes the last of them off, and Enter answers it
/// with the number that they write, where it is one from one on.
pub proof fn law_goto_press(prompt: &mut GotoPrompt, key: KeyInput, r: Answer<usize>)
    requires
        call_ensures(GotoPrompt::press, (prompt, key), r),
    ensures
        ({
            let input = old(prompt).input@;
            let typed = final(prompt).input@;
            &&& !key.pressed ==> typed == input && r is Pending
            &&& key.pressed ==> match key.key {
                Key::Char(c) => r is Pending && typed == if ten_digit(c) {
                    input.push(c)
                } else {
                    input
                },
                Key::Backspace => r is Pending && typed == if input.len() > 0 {
                    input.take(input.len() - 1)
                } else {
                    input
                },
                Key::Esc => r is Cancelled && typed == input,
                Key::Enter => {
                    &&& typed == input
                    &&& input.len() == 0 ==> r is Cancelled
                    &&& input.len() > 0 && (forall|i: int|
                        0 <= i < input.len() ==> ten_digit(#[trigger] input[i])) ==> {
                        let n = written_number(input, 0, input.len() as int);
                        &&& 1 <= n <= usize::MAX ==> (r matches Answer::Given(m) && m == n)
                        &&& n == 0 || n > usize::MAX ==> r is Pending
                    }
                },
                _ => r is Pending && typed == input,
            }
        }),
{
    let input = old(prompt).input@;
    crate::text_laws::law_goto_typing(input, key);
    crate::text_laws::law_number_is_read(input);
    if input.len() > 0 && (forall|i: int| 0 <= i < input.len() ==> ten_digit(#[trigger] input[i])) {
        assert(ten_digit(input[0]));
    }
}

/// The question for a text takes in every character but control characters, backspace takes the last
/// one off, and Enter answers it with what was typed.
pub proof fn law_find_press(prompt: &mut FindPrompt, key: KeyInput, r: Answer<String>)
    requires
        call_ensures(FindPrompt::press, (prompt, key), r),
    ensures
        ({
            let input = old(prompt).input@;
            let typed = final(prompt).input@;
            &&& !key.pressed ==> typed == input && r is Pending
            &&& key.pressed ==> match key.key {
                Key::Char(c) => r is Pending && typed == if (c as u32) < 0x20 || 0x7f <= c as u32
                    <= 0x9f {
                    input
                } else {
                    input.push(c)
                },
                Key::Backspace => r is Pending && typed == if input.len() > 0 {
                    input.take(input.len() - 1)
                } else {
                    input
                },
                Key::Esc => r is Cancelled && typed == input,
                Key::Enter => typed == input && if input.len() == 0 {
                    r is Cancelled
                } else {
                    r matches Answer::Given(text) && text@ == input
                },
                _ => r is Pending && typed == input,
            }
        }),
{
    crate::text_laws::law_find_typing(old(prompt).input@, key);
    assert(crate::prompt::answer_text(r) == find_answer(old(prompt).input@, key));
}

/// The question for a text starts with the last query, where that is text.
pub proof fn law_find_starts(v: &Viewer, r: FindPrompt)
    requires
        call_ensures(FindPrompt::new, (v,), r),
    ensures
        v.search_query is None ==> r.input@.len() == 0,
        v.search_query matches Some(query) ==> valid_utf8(query@) ==> r.input@ == decode_utf8(
            query@,
        ),
{
}

/// The questions are shown with what was typed, cut off behind the last column.
pub proof fn law_questions(
    g: &GotoPrompt,
    f: &FindPrompt,
    count: usize,
    width: u16,
    goto: String,
    find: String,
) -> (r: Seq<char>)
    requires
        call_ensures(GotoPrompt::text, (g, count, width), goto),
        call_ensures(FindPrompt::text, (f, width), find),
    ensures
        writes(r, count as nat),
        ({
            let full = "Goto line (1-"@ + r + ", Enter=go, Esc=cancel): "@ + g.input@;
            &&& full.len() <= width ==> goto@ == full
            &&& full.len() > width ==> goto@ == full.take(width as int)
        }),
        ({
            let full = "Find text (Enter=find, Esc=cancel): "@ + f.input@;
            &&& full.len() <= width ==> find@ == full
            &&& full.len() > width ==> find@ == full.take(width as int)
        }),
{
    law_decimal(count as nat);
    let a = "Goto line (1-"@ + decimal(count as nat) + ", Enter=go, Esc=cancel): "@ + g.input@;
    let b = "Find text (Enter=find, Esc=cancel): "@ + f.input@;
    assert(a.take(a.len() as int) =~= a);
    assert(b.take(b.len() as int) =~= b);
    decimal(count as nat)
}

/// A number is appended in decimal, without leading zeros.
pub proof fn law_push_decimal(out: &mut String, n: usize)
    requires
        call_ensures(push_decimal, (out, n), ()),
    ensures
        final(out)@.len() >= old(out)@.len(),
        final(out)@.take(old(out)@.len() as int) == old(out)@,
        writes(final(out)@.skip(old(out)@.len() as int), n as nat),
{
    law_decimal(n as nat);
    assert(final(out)@.take(old(out)@.len() as int) =~= old(out)@);
    assert(final(out)@.skip(old(out)@.len() as int) =~= decimal(n as nat));
}

/// A line is appended with two spaces for each level before it and a line feed behind it.
pub proof fn law_push_line(out: &mut Vec<u8>, depth: usize, content: &[u8])
    requires
        2 * depth <= usize::MAX,
        call_ensures(push_indented_xml_line, (out, depth, content), ()),
    ensures
        ({
            let at = old(out)@.len() as int;
            let text = at + 2 * depth;
            let end = text + content@.len();
            &&& final(out)@.len() == end + 1
            &&& final(out)@.take(at) == old(out)@
            &&& forall|x: int| at <= x < text ==> final(out)@[x] == 0x20
            &&& final(out)@.subrange(text, end) == content@
            &&& final(out)@[end] == 0x0a
        }),
{
    let at = old(out)@.len() as int;
    let text = at + 2 * depth;
    assert(final(out)@.take(at) =~= old(out)@);
    assert(final(out)@.subrange(text, text + content@.len()) =~= content@);
}

/// A document opens on the file as it stands, with nothing edited.
pub proof fn law_open_document(source: &[u8], tab_width: usize, r: Document)
    requires
        call_ensures(Document::open, (source, tab_width), r),
    ensures
        r.source@ == source@,
        r.tab_width == tab_width,
        r.dirty_lines@ == Map::<usize, String>::empty(),
        r.wf(),
{
}

/// An edit gives one line a new text, and leaves every other line and the file as they are.
pub proof fn law_update_line(doc: &mut Document, line: usize, value: String)
    requires
        old(doc).wf(),
        call_ensures(Document::update_line, (doc, line, value), ()),
    ensures
        final(doc).wf(),
        final(doc).source@ == old(doc).source@,
        final(doc).text_of(line as int) == value@,
        final(doc).saved_line(line as int) == encode_utf8(value@).push(0x0a),
        forall|i: int|
            0 <= i && i != line ==> #[trigger] final(doc).text_of(i) == old(doc).text_of(i),
        forall|i: int|
            0 <= i && i != line ==> #[trigger] final(doc).saved_line(i) == old(doc).saved_line(i),
{
}

/// An edit starts with the text that the line is shown with.
pub proof fn law_begin_edit(app: &mut GuiApp, line: usize)
    requires
        call_ensures(GuiApp::begin_edit, (app, line), ()),
    ensures
        final(app).edit_line == Some(line),
        final(app).edit_buffer@ == old(app).doc.text_of(line as int),
        final(app).doc == old(app).doc,
        final(app).save_path@ == old(app).save_path@ && final(app).status@ == old(app).status@,
{
}

/// Enter gives the line that is edited the text that was typed, Escape leaves it as it was; both end
/// the edit, and no other key does.
pub proof fn law_edit_keys(app: &mut GuiApp, line: usize, entered: bool, escaped: bool)
    requires
        old(app).doc.wf(),
        call_ensures(GuiApp::handle_edit_keys, (app, line, entered, escaped), ()),
    ensures
        entered || escaped ==> final(app).edit_line is None,
        !entered && !escaped ==> final(app).edit_line == old(app).edit_line,
        !entered ==> final(app).doc == old(app).doc,
        entered ==> final(app).doc.text_of(line as int) == old(app).edit_buffer@,
        forall|i: int|
            0 <= i && i != line ==> #[trigger] final(app).doc.text_of(i) == old(app).doc.text_of(i),
        final(app).doc.source@ == old(app).doc.source@,
        final(app).edit_buffer@ == old(app).edit_buffer@,
{
}

/// After a save the status says where it went, or why it failed, and nothing else changes.
pub proof fn law_finish_save(app: &mut GuiApp, target: &str, failure: Option<&str>)
    requires
        call_ensures(GuiApp::finish_save, (app, target, failure), ()),
    ensures
        failure is None ==> final(app).status@ == "Saved "@ + target@,
        failure matches Some(reason) ==> final(app).status@ == "Save failed: "@ + reason@,
        final(app).doc == old(app).doc,
        final(app).edit_line == old(app).edit_line,
        final(app).save_path@ == old(app).save_path@,
{
}

/// A character is shown where its column is visible and the row has room left: it joins the last
/// segment where that looks alike, else it starts a new one. The column count goes on either way.
pub proof fn law_push_char(
    c: char,
    highlighted: bool,
    class: RenderClass,
    left: usize,
    width: usize,
    col: &mut usize,
    shown: &mut usize,
    row: &mut Vec<Segment>,
)
    requires
        call_ensures(push_char, (c, highlighted, class, left, width, col, shown, row), ()),
    ensures
        *old(col) < usize::MAX ==> *final(col) == *old(col) + 1,
        *old(col) < left || *old(shown) >= width ==> *final(shown) == *old(shown) && final(row)@
            == old(row)@,
        *old(col) >= left && *old(shown) < width ==> *final(shown) == *old(shown) + 1 && row_cells(
            final(row)@,
        ) == row_cells(old(row)@).push(Cell { ch: c, highlighted, class }),
        *old(col) >= left && *old(shown) < width && old(row)@.len() > 0 && old(row)@.last().0
            == highlighted && old(row)@.last().1 == class ==> final(row)@.len() == old(row)@.len(),
        *old(col) >= left && *old(shown) < width && (old(row)@.len() == 0 || old(row)@.last().0
            != highlighted || old(row)@.last().1 != class) ==> final(row)@.len() == old(row)@.len()
            + 1,
{
    crate::operation_laws::lemma_row_cells(old(row)@);
    crate::operation_laws::lemma_row_cells(final(row)@);
    let runs = segment_runs(old(row)@);
    let cell = Cell { ch: c, highlighted, class };
    crate::render::lemma_add_cell(runs, cell);
    assert(segment_runs(final(row)@).len() == final(row)@.len());
    assert(runs.len() == old(row)@.len());
}

} // verus!
