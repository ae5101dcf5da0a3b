//! What keys and the mouse do.
//!
//! The program that owns the terminal reads an event, hands it to [`handle_input`] and performs
//! the [`Action`] that comes back. An action that asks the user, or the clipboard, for something is
//! ended by [`finish_goto`], [`finish_find`] or `finish_copy`.
use vstd::prelude::*;

use crate::frame::{body_rows, rows_of_body};
use crate::text::{decimal, lesser, push_decimal, saturated};
use crate::viewer::{
    block_between, centered, centered_top_line, larger, next_match, previous_match, range_between,
    ViewState, Viewer,
};

verus! {

/// The keys that mean something.
#[derive(Clone, Copy, Debug, PartialEq, Eq, Structural)]
pub enum Key {
    Char(char),
    Left,
    Right,
    Up,
    Down,
    PageUp,
    PageDown,
    Home,
    End,
    Enter,
    Esc,
    Backspace,
    Other,
}

/// A key with the modifiers that were held; `pressed` is false where it was let go.
#[derive(Clone, Copy, Debug, PartialEq, Eq, Structural)]
pub struct KeyInput {
    pub key: Key,
    pub pressed: bool,
    pub shift: bool,
    pub control: bool,
}

/// What the mouse did.
#[derive(Clone, Copy, Debug, PartialEq, Eq, Structural)]
pub enum MouseKind {
    LeftDown,
    LeftDrag,
    LeftUp,
    RightDown,
    ScrollDown,
    ScrollUp,
    Other,
}

/// What the mouse did, and where on the screen.
#[derive(Clone, Copy, Debug, PartialEq, Eq, Structural)]
pub struct MouseInput {
    pub kind: MouseKind,
    pub column: u16,
    pub row: u16,
    pub control: bool,
}

/// An event of the terminal.
#[derive(Clone, Copy, Debug, PartialEq, Eq, Structural)]
pub enum Input {
    Key(KeyInput),
    Mouse(MouseInput),
    Resize,
    Other,
}

/// What is to be done outside the viewer.
#[derive(Clone, Copy, Debug, PartialEq, Eq, Structural)]
pub enum Action {
    /// Nothing.
    Stay,
    /// Leave the program.
    Quit,
    /// Ask for a line to go to.
    AskLine,
    /// Ask for a text to find.
    AskQuery,
    /// Copy what is selected.
    Copy,
}

/// What the event loop keeps in mind besides the viewer.
#[derive(Clone, Copy, Debug, PartialEq, Eq, Structural)]
pub struct Session {
    /// The screen no longer shows the viewer as it is.
    pub needs_redraw: bool,
    /// The mouse holds the thumb of the scrollbar.
    pub scrollbar_drag: bool,
    /// The mouse is selecting.
    pub selection_drag: bool,
}

impl Session {
    /// A session that has yet to draw its first screen.
    pub fn new() -> (r: Self)
        ensures
            r == (Session { needs_redraw: true, scrollbar_drag: false, selection_drag: false }),
    {
        Session { needs_redraw: true, scrollbar_drag: false, selection_drag: false }
    }
}

/// One less, zero at least.
pub open spec fn one_less(n: usize) -> usize {
    if n > 0 {
        (n - 1) as usize
    } else {
        0
    }
}

/// What a key asks to be done outside the viewer.
pub open spec fn key_action(input: KeyInput) -> Action {
    if !input.pressed {
        Action::Stay
    } else if input.key == Key::Char('q') {
        Action::Quit
    } else if input.key == Key::Char('c') && input.control {
        Action::Copy
    } else if input.key == Key::Char('g') {
        Action::AskLine
    } else if input.key == Key::Char('f') {
        Action::AskQuery
    } else {
        Action::Stay
    }
}

/// The message about a selection that was just made, if there is one.
pub open spec fn selection_message(state: ViewState) -> Option<Seq<char>> {
    if block_between(state.block_selection_anchor, state.block_selection_focus) is Some {
        Some("Block selected. Right-click or Ctrl+C to copy."@)
    } else {
        match range_between(state.selection_anchor, state.selection_focus) {
            Some((start, end)) => Some(
                "Selected "@ + decimal((end - start) as nat)
                    + " bytes. Press Ctrl+C to copy."@,
            ),
            None => None,
        }
    }
}

impl<'a> Viewer<'a> {
    /// Where a search for the next match starts: behind the match that was found, else at the first
    /// visible line.
    pub open spec fn next_start(&self) -> usize {
        match self.match_range {
            Some((_, end)) => end,
            None => self.line_offsets@[self.top_line as int],
        }
    }

    /// Where a search for the previous match starts: before the match that was found, else at the
    /// first visible line.
    pub open spec fn previous_start(&self) -> usize {
        match self.match_range {
            Some((start, _)) => one_less(start),
            None => self.line_offsets@[self.top_line as int],
        }
    }

    /// The state after a search that found `found`.
    pub open spec fn after_search(&self, found: Option<(usize, usize)>, page: usize) -> ViewState {
        match found {
            Some((start, end)) => self.with_match(start, end, page),
            None => self.state(),
        }
    }

    /// The state after the cursor moved to `cursor` and the view to the column `left`: with shift
    /// the selection grows along, else it is given up.
    pub open spec fn after_cursor(&self, left: usize, cursor: usize, shift: bool) -> ViewState {
        if shift {
            ViewState {
                left_col: left,
                cursor_offset: cursor,
                selection_anchor: Some(
                    match self.selection_anchor {
                        Some(a) => a,
                        None => self.cursor_offset,
                    },
                ),
                selection_focus: Some(cursor),
                ..self.state()
            }
        } else {
            ViewState {
                left_col: left,
                cursor_offset: cursor,
                selection_anchor: None,
                selection_focus: None,
                block_selection_anchor: None,
                block_selection_focus: None,
                ..self.state()
            }
        }
    }

    /// The state with another first visible line.
    pub open spec fn with_top(&self, top: int) -> ViewState {
        ViewState { top_line: top as usize, ..self.state() }
    }

    /// The state after a key, `page` rows being visible.
    pub open spec fn after_key(&self, input: KeyInput, page: usize) -> ViewState {
        if !input.pressed {
            self.state()
        } else {
            match input.key {
                Key::Char('n') => match self.search_query {
                    Some(query) => self.after_search(
                        next_match(self.bytes(), query@, self.next_start()),
                        page,
                    ),
                    None => self.state(),
                },
                Key::Char('p') => match self.search_query {
                    Some(query) => self.after_search(
                        previous_match(self.bytes(), query@, self.previous_start()),
                        page,
                    ),
                    None => self.state(),
                },
                Key::Left => self.after_cursor(
                    one_less(self.left_col),
                    one_less(self.cursor_offset),
                    input.shift,
                ),
                Key::Right => self.after_cursor(
                    saturated((self.left_col + 1) as nat),
                    lesser(self.cursor_offset + 1, self.bytes().len() as int) as usize,
                    input.shift,
                ),
                Key::Up => self.with_top(self.up_top(1)),
                Key::Down => self.with_top(self.down_top(1, page)),
                Key::PageUp => self.with_top(self.up_top(larger(page, 1))),
                Key::PageDown => self.with_top(self.down_top(larger(page, 1), page)),
                Key::Home => self.with_top(0),
                Key::End => self.with_top(self.down_top(usize::MAX, page)),
                _ => self.state(),
            }
        }
    }

    /// The screen has to be drawn again after a key.
    pub open spec fn key_redraws(&self, input: KeyInput) -> bool {
        input.pressed && match input.key {
            Key::Char('n') | Key::Char('p') => self.search_query is Some,
            Key::Left | Key::Right | Key::Up | Key::Down | Key::PageUp | Key::PageDown | Key::Home
            | Key::End => true,
            _ => false,
        }
    }

    /// A key whose search starts at the first visible line needs that line to exist.
    pub open spec fn key_ready(&self, input: KeyInput) -> bool {
        input.pressed && (input.key == Key::Char('n') || input.key == Key::Char('p'))
            && self.search_query is Some && self.match_range is None ==> self.top_line
            < self.count()
    }

    /// What a place on the screen points at: a line, a column and an offset; nothing outside the
    /// lines.
    pub open spec fn pointed(&self, mouse: MouseInput, rows: usize) -> Option<
        (usize, usize, usize),
    > {
        let line = self.top_line + mouse.row - 1;
        if 0 < mouse.row <= rows && line < self.count() {
            let col = saturated((self.left_col + mouse.column) as nat);
            Some((line as usize, col, self.offset_at(line, col) as usize))
        } else {
            None
        }
    }

    /// The state after the left button went down at a place in the text: a selection starts there, a
    /// block where control is held.
    pub open spec fn after_press(&self, at: (usize, usize, usize), control: bool) -> ViewState {
        let (line, col, offset) = at;
        if control {
            ViewState {
                cursor_offset: offset,
                selection_anchor: None,
                selection_focus: None,
                block_selection_anchor: Some((line, col)),
                block_selection_focus: Some((line, col)),
                status_message: Some("Selecting block…"@),
                ..self.state()
            }
        } else {
            ViewState {
                cursor_offset: offset,
                selection_anchor: Some(offset),
                selection_focus: Some(offset),
                block_selection_anchor: None,
                block_selection_focus: None,
                status_message: Some("Selecting text…"@),
                ..self.state()
            }
        }
    }

    /// The state after the mouse was dragged to a place in the text: the selection reaches there.
    pub open spec fn after_drag(&self, at: (usize, usize, usize)) -> ViewState {
        let (line, col, offset) = at;
        if self.block_selection_anchor is Some {
            ViewState {
                cursor_offset: offset,
                block_selection_focus: Some((line, col)),
                ..self.state()
            }
        } else {
            ViewState { cursor_offset: offset, selection_focus: Some(offset), ..self.state() }
        }
    }

    /// The state after the mouse did something.
    pub open spec fn after_mouse(
        &self,
        session: Session,
        mouse: MouseInput,
        width: u16,
        height: u16,
    ) -> ViewState {
        let rows = body_rows(height);
        match mouse.kind {
            MouseKind::LeftDown => if on_scrollbar(mouse, width) {
                self.with_top(self.scrollbar_top(mouse.row as usize, rows))
            } else {
                match self.pointed(mouse, rows) {
                    Some(at) => self.after_press(at, mouse.control),
                    None => self.state(),
                }
            },
            MouseKind::LeftDrag => if session.scrollbar_drag {
                self.with_top(self.scrollbar_top(mouse.row as usize, rows))
            } else if session.selection_drag {
                match self.pointed(mouse, rows) {
                    Some(at) => self.after_drag(at),
                    None => self.state(),
                }
            } else {
                self.state()
            },
            MouseKind::LeftUp => if session.selection_drag {
                ViewState { status_message: selection_message(self.state()), ..self.state() }
            } else {
                self.state()
            },
            MouseKind::ScrollDown => self.with_top(self.down_top(3, rows)),
            MouseKind::ScrollUp => self.with_top(self.up_top(3)),
            MouseKind::RightDown | MouseKind::Other => self.state(),
        }
    }

    /// What the event loop keeps in mind after the mouse did something.
    pub open spec fn session_after_mouse(
        &self,
        session: Session,
        mouse: MouseInput,
        width: u16,
        height: u16,
    ) -> Session {
        let hit = self.pointed(mouse, body_rows(height)) is Some;
        match mouse.kind {
            MouseKind::LeftDown => if on_scrollbar(mouse, width) {
                Session { needs_redraw: true, scrollbar_drag: true, ..session }
            } else {
                Session {
                    needs_redraw: session.needs_redraw || hit,
                    selection_drag: true,
                    ..session
                }
            },
            MouseKind::LeftDrag => Session {
                needs_redraw: session.needs_redraw || session.scrollbar_drag || (
                session.selection_drag && hit),
                ..session
            },
            MouseKind::LeftUp => Session {
                needs_redraw: session.needs_redraw || session.selection_drag,
                scrollbar_drag: false,
                selection_drag: false,
            },
            MouseKind::ScrollDown | MouseKind::ScrollUp => Session {
                needs_redraw: true,
                ..session
            },
            MouseKind::RightDown | MouseKind::Other => session,
        }
    }

    fn search_from_top(&self) -> (r: usize)
        requires
            self.wf(),
            self.top_line < self.count(),
        ensures
            r == self.line_offsets@[self.top_line as int],
    {
        self.line_offsets[self.top_line]
    }

    /// Finds the next match of the last query and shows it.
    fn find_next(&mut self, page: usize)
        requires
            old(self).wf(),
            old(self).search_query is Some,
            old(self).match_range is None ==> old(self).top_line < old(self).count(),
        ensures
            final(self).wf(),
            final(self).same_file(old(self)),
            final(self).state() == old(self).after_search(
                next_match(
                    old(self).bytes(),
                    old(self).search_query->0@,
                    old(self).next_start(),
                ),
                page,
            ),
    {
        let start = match self.match_range {
            Some((_, end)) => end,
            None => self.search_from_top(),
        };
        let found = match &self.search_query {
            Some(query) => self.find_forward(query.as_slice(), start),
            None => None,
        };
        if let Some((from, to)) = found {
            self.set_match(from, to, page);
        }
    }

    /// Finds the previous match of the last query and shows it.
    fn find_previous(&mut self, page: usize)
        requires
            old(self).wf(),
            old(self).search_query is Some,
            old(self).match_range is None ==> old(self).top_line < old(self).count(),
        ensures
            final(self).wf(),
            final(self).same_file(old(self)),
            final(self).state() == old(self).after_search(
                previous_match(
                    old(self).bytes(),
                    old(self).search_query->0@,
                    old(self).previous_start(),
                ),
                page,
            ),
    {
        let start: usize = match self.match_range {
            Some((from, _)) => from.saturating_sub(1),
            None => self.search_from_top(),
        };
        let found = match &self.search_query {
            Some(query) => self.find_backward(query.as_slice(), start),
            None => None,
        };
        if let Some((from, to)) = found {
            self.set_match(from, to, page);
        }
    }

    /// Moves the cursor, and the selection with it.
    fn move_cursor(&mut self, cursor: usize, shift: bool)
        requires
            old(self).wf(),
            cursor <= old(self).bytes().len(),
        ensures
            final(self).wf(),
            final(self).same_file(old(self)),
            final(self).state() == old(self).after_cursor(old(self).left_col, cursor, shift),
    {
        if shift {
            let anchor = match self.selection_anchor {
                Some(a) => a,
                None => self.cursor_offset,
            };
            self.cursor_offset = cursor;
            self.selection_anchor = Some(anchor);
            self.selection_focus = Some(cursor);
        } else {
            self.clear_selection();
            self.cursor_offset = cursor;
        }
    }

    /// What a place on the screen points at.
    fn point_at(&self, mouse: MouseInput, rows: usize) -> (r: Option<(usize, usize, usize)>)
        requires
            self.wf(),
        ensures
            r == self.pointed(mouse, rows),
            match r {
                Some((_, _, offset)) => offset <= self.bytes().len(),
                None => true,
            },
    {
        let row: usize = mouse.row as usize;
        if row == 0 || row > rows {
            return None;
        }
        if row - 1 >= self.line_count() - self.top_line {
            return None;
        }
        let line: usize = self.top_line + (row - 1);
        let col: usize = self.left_col.saturating_add(mouse.column as usize);
        Some((line, col, self.offset_for_line_col(line, col)))
    }

    fn press_at(&mut self, at: (usize, usize, usize), control: bool)
        requires
            old(self).wf(),
            at.2 <= old(self).bytes().len(),
        ensures
            final(self).wf(),
            final(self).same_file(old(self)),
            final(self).state() == old(self).after_press(at, control),
    {
        let (line, col, offset) = at;
        self.cursor_offset = offset;
        if control {
            self.selection_anchor = None;
            self.selection_focus = None;
            self.block_selection_anchor = Some((line, col));
            self.block_selection_focus = Some((line, col));
            self.status_message = Some("Selecting block…".to_owned());
        } else {
            self.block_selection_anchor = None;
            self.block_selection_focus = None;
            self.selection_anchor = Some(offset);
            self.selection_focus = Some(offset);
            self.status_message = Some("Selecting text…".to_owned());
        }
    }

    fn drag_to(&mut self, at: (usize, usize, usize))
        requires
            old(self).wf(),
            at.2 <= old(self).bytes().len(),
        ensures
            final(self).wf(),
            final(self).same_file(old(self)),
            final(self).state() == old(self).after_drag(at),
    {
        let (line, col, offset) = at;
        self.cursor_offset = offset;
        if self.block_selection_anchor.is_some() {
            self.block_selection_focus = Some((line, col));
        } else {
            self.selection_focus = Some(offset);
        }
    }

    fn announce_selection(&mut self)
        requires
            old(self).wf(),
        ensures
            final(self).wf(),
            final(self).same_file(old(self)),
            final(self).state() == (ViewState {
                status_message: selection_message(old(self).state()),
                ..old(self).state()
            }),
    {
        if self.block_selection_range().is_some() {
            self.status_message =
            Some("Block selected. Right-click or Ctrl+C to copy.".to_owned());
        } else if let Some((start, end)) = self.selection_range() {
            let mut text = String::new();
            text.append("Selected ");
            push_decimal(&mut text, end - start);
            text.append(" bytes. Press Ctrl+C to copy.");
            proof {
                assert(text@ =~= "Selected "@ + decimal((end - start) as nat)
                    + " bytes. Press Ctrl+C to copy."@);
            }
            self.status_message = Some(text);
        } else {
            self.status_message = None;
        }
    }
}

/// The mouse stands on the scrollbar, which takes the last column.
pub open spec fn on_scrollbar(mouse: MouseInput, width: u16) -> bool {
    mouse.column == if width > 0 {
        width - 1
    } else {
        0
    }
}

/// Handles a key.
pub fn handle_key(viewer: &mut Viewer, session: &mut Session, input: KeyInput, height: u16) -> (r:
    Action)
    requires
        old(viewer).wf(),
        old(viewer).key_ready(input),
    ensures
        final(viewer).wf(),
        final(viewer).same_file(old(viewer)),
        final(viewer).state() == old(viewer).after_key(input, body_rows(height)),
        *final(session) == (Session {
            needs_redraw: old(session).needs_redraw || old(viewer).key_redraws(input),
            ..*old(session)
        }),
        r == key_action(input),
{
    if !input.pressed {
        return Action::Stay;
    }
    let page = rows_of_body(height);
    let step: usize = if page > 1 {
        page
    } else {
        1
    };
    match input.key {
        Key::Char(c) => {
            if c == 'q' {
                return Action::Quit;
            }
            if c == 'c' && input.control {
                return Action::Copy;
            }
            if c == 'g' {
                return Action::AskLine;
            }
            if c == 'f' {
                return Action::AskQuery;
            }
            if c == 'n' && viewer.search_query.is_some() {
                viewer.find_next(page);
                session.needs_redraw = true;
            } else if c == 'p' && viewer.search_query.is_some() {
                viewer.find_previous(page);
                session.needs_redraw = true;
            }
        },
        Key::Left => {
            viewer.scroll_left(1);
            let cursor: usize = viewer.cursor_offset.saturating_sub(1);
            viewer.move_cursor(cursor, input.shift);
            session.needs_redraw = true;
        },
        Key::Right => {
            viewer.scroll_right(1);
            let len = viewer.view_bytes().len();
            let cursor: usize = if viewer.cursor_offset < len {
                viewer.cursor_offset + 1
            } else {
                len
            };
            viewer.move_cursor(cursor, input.shift);
            session.needs_redraw = true;
        },
        Key::Up => {
            viewer.scroll_up(1);
            session.needs_redraw = true;
        },
        Key::Down => {
            viewer.scroll_down(1, page);
            session.needs_redraw = true;
        },
        Key::PageUp => {
            viewer.scroll_up(step);
            session.needs_redraw = true;
        },
        Key::PageDown => {
            viewer.scroll_down(step, page);
            session.needs_redraw = true;
        },
        Key::Home => {
            viewer.top_line = 0;
            session.needs_redraw = true;
        },
        Key::End => {
            viewer.scroll_down(usize::MAX, page);
            session.needs_redraw = true;
        },
        _ => {},
    }
    Action::Stay
}

/// Handles the mouse.
pub fn handle_mouse(
    viewer: &mut Viewer,
    session: &mut Session,
    mouse: MouseInput,
    width: u16,
    height: u16,
) -> (r: Action)
    requires
        old(viewer).wf(),
    ensures
        final(viewer).wf(),
        final(viewer).same_file(old(viewer)),
        final(viewer).state() == old(viewer).after_mouse(*old(session), mouse, width, height),
        *final(session) == old(viewer).session_after_mouse(*old(session), mouse, width, height),
        r == if mouse.kind == MouseKind::RightDown {
            Action::Copy
        } else {
            Action::Stay
        },
{
    let rows = rows_of_body(height);
    let row: usize = mouse.row as usize;
    match mouse.kind {
        MouseKind::LeftDown => {
            if mouse.column == width.saturating_sub(1) {
                session.scrollbar_drag = true;
                viewer.scroll_to_scrollbar_row(row, rows);
                session.needs_redraw = true;
            } else {
                session.selection_drag = true;
                if let Some(at) = viewer.point_at(mouse, rows) {
                    viewer.press_at(at, mouse.control);
                    session.needs_redraw = true;
                }
            }
        },
        MouseKind::LeftDrag => {
            if session.scrollbar_drag {
                viewer.scroll_to_scrollbar_row(row, rows);
                session.needs_redraw = true;
            } else if session.selection_drag {
                if let Some(at) = viewer.point_at(mouse, rows) {
                    viewer.drag_to(at);
                    session.needs_redraw = true;
                }
            }
        },
        MouseKind::LeftUp => {
            session.scrollbar_drag = false;
            if session.selection_drag {
                session.selection_drag = false;
                viewer.announce_selection();
                session.needs_redraw = true;
            }
        },
        MouseKind::RightDown => {
            return Action::Copy;
        },
        MouseKind::ScrollDown => {
            viewer.scroll_down(3, rows);
            session.needs_redraw = true;
        },
        MouseKind::ScrollUp => {
            viewer.scroll_up(3);
            session.needs_redraw = true;
        },
        MouseKind::Other => {},
    }
    Action::Stay
}

/// The state after an event.
pub open spec fn state_after(
    viewer: Viewer,
    session: Session,
    input: Input,
    width: u16,
    height: u16,
) -> ViewState {
    match input {
        Input::Key(key) => viewer.after_key(key, body_rows(height)),
        Input::Mouse(mouse) => viewer.after_mouse(session, mouse, width, height),
        Input::Resize | Input::Other => viewer.state(),
    }
}

/// What the event loop keeps in mind after an event.
pub open spec fn session_after(
    viewer: Viewer,
    session: Session,
    input: Input,
    width: u16,
    height: u16,
) -> Session {
    match input {
        Input::Key(key) => Session {
            needs_redraw: session.needs_redraw || viewer.key_redraws(key),
            ..session
        },
        Input::Mouse(mouse) => viewer.session_after_mouse(session, mouse, width, height),
        Input::Resize => Session { needs_redraw: true, ..session },
        Input::Other => session,
    }
}

/// What an event asks to be done outside the viewer.
pub open spec fn action_of(input: Input) -> Action {
    match input {
        Input::Key(key) => key_action(key),
        Input::Mouse(mouse) => if mouse.kind == MouseKind::RightDown {
            Action::Copy
        } else {
            Action::Stay
        },
        Input::Resize | Input::Other => Action::Stay,
    }
}

/// Handles an event of the terminal, `width` columns wide and `height` rows high.
pub fn handle_input(
    viewer: &mut Viewer,
    session: &mut Session,
    input: Input,
    width: u16,
    height: u16,
) -> (r: Action)
    requires
        old(viewer).wf(),
        input matches Input::Key(key) ==> old(viewer).key_ready(key),
    ensures
        final(viewer).wf(),
        final(viewer).same_file(old(viewer)),
        final(viewer).state() == state_after(*old(viewer), *old(session), input, width, height),
        *final(session) == session_after(*old(viewer), *old(session), input, width, height),
        r == action_of(input),
{
    match input {
        Input::Key(key) => handle_key(viewer, session, key, height),
        Input::Mouse(mouse) => handle_mouse(viewer, session, mouse, width, height),
        Input::Resize => {
            session.needs_redraw = true;
            Action::Stay
        },
        Input::Other => Action::Stay,
    }
}

/// The first visible line after going to the line with the number `number`, counted from one; a
/// number behind the last line means the last line.
pub open spec fn goto_top(number: usize, page: usize, count: int) -> int {
    let target = lesser(one_less(number) as int, count - 1);
    centered(target, larger(page, 1) as int, count)
}

/// Ends the question for a line: goes there, if one was given.
pub fn finish_goto(viewer: &mut Viewer, session: &mut Session, answer: Option<usize>, height: u16)
    requires
        old(viewer).wf(),
    ensures
        final(viewer).wf(),
        final(viewer).same_file(old(viewer)),
        final(viewer).state() == match answer {
            Some(number) => old(viewer).with_top(
                goto_top(number, body_rows(height), old(viewer).count()),
            ),
            None => old(viewer).state(),
        },
        *final(session) == (Session { needs_redraw: true, ..*old(session) }),
{
    session.needs_redraw = true;
    if let Some(number) = answer {
        let page = rows_of_body(height);
        let count = viewer.line_count();
        let mut target: usize = number.saturating_sub(1);
        if target > count - 1 {
            target = count - 1;
        }
        let rows: usize = if page > 1 {
            page
        } else {
            1
        };
        viewer.top_line = centered_top_line(target, rows, count);
    }
}

/// Ends the question for a text: finds it from the first visible line on, if one was given.
pub fn finish_find(viewer: &mut Viewer, session: &mut Session, answer: Option<String>, height: u16)
    requires
        old(viewer).wf(),
        answer is Some ==> old(viewer).top_line < old(viewer).count(),
    ensures
        final(viewer).wf(),
        final(viewer).same_file(old(viewer)),
        final(viewer).state() == match answer {
            Some(text) => ({
                let query = vstd::utf8::encode_utf8(text@);
                let found = next_match(
                    old(viewer).bytes(),
                    query,
                    old(viewer).line_offsets@[old(viewer).top_line as int],
                );
                match found {
                    Some((start, end)) => ViewState {
                        search_query: Some(query),
                        ..old(viewer).with_match(start, end, body_rows(height))
                    },
                    None => ViewState {
                        search_query: Some(query),
                        match_range: None,
                        ..old(viewer).state()
                    },
                }
            }),
            None => old(viewer).state(),
        },
        *final(session) == (Session { needs_redraw: true, ..*old(session) }),
{
    session.needs_redraw = true;
    if let Some(text) = answer {
        let page = rows_of_body(height);
        let query: Vec<u8> = text.as_str().as_bytes_vec();
        let start = viewer.search_from_top();
        let found = viewer.find_forward(query.as_slice(), start);
        viewer.search_query = Some(query);
        match found {
            Some((from, to)) => {
                viewer.set_match(from, to, page);
            },
            None => {
                viewer.match_range = None;
            },
        }
    }
}

} // verus!
