use lfv::clipboard::CopyOutcome;
use lfv::events::{
    finish_find, finish_goto, handle_input, Action, Input, Key, KeyInput, MouseInput, MouseKind,
    Session,
};
use lfv::prompt::{parse_number, Answer, FindPrompt, GotoPrompt};
use lfv::viewer::Viewer;

const WIDTH: u16 = 80;
// Ten rows between the status bar and the footer.
const HEIGHT: u16 = 12;

fn open(bytes: &[u8]) -> Viewer<'_> {
    Viewer::open(bytes, 4, false, None, false, false, false).expect("opens")
}

fn lines(n: usize) -> Vec<u8> {
    (1..=n).map(|i| format!("line {i}")).collect::<Vec<_>>().join("\n").into_bytes()
}

fn pressed(key: Key) -> KeyInput {
    KeyInput { key, pressed: true, shift: false, control: false }
}

fn press(viewer: &mut Viewer, key: Key) -> (Action, bool) {
    input(viewer, Input::Key(pressed(key)))
}

fn input(viewer: &mut Viewer, input: Input) -> (Action, bool) {
    let mut session = Session::new();
    session.needs_redraw = false;
    let action = handle_input(viewer, &mut session, input, WIDTH, HEIGHT);
    (action, session.needs_redraw)
}

fn mouse(kind: MouseKind, column: u16, row: u16, control: bool) -> Input {
    Input::Mouse(MouseInput { kind, column, row, control })
}

#[test]
fn arrows_and_pages_scroll() {
    let bytes = lines(100);
    let mut viewer = open(&bytes);
    assert_eq!(press(&mut viewer, Key::Up), (Action::Stay, true));
    assert_eq!(viewer.top_line, 0);
    press(&mut viewer, Key::Down);
    assert_eq!(viewer.top_line, 1);
    press(&mut viewer, Key::PageDown);
    assert_eq!(viewer.top_line, 11);
    press(&mut viewer, Key::PageUp);
    assert_eq!(viewer.top_line, 1);
    press(&mut viewer, Key::Up);
    assert_eq!(viewer.top_line, 0);
}

#[test]
fn end_shows_the_last_line_from_anywhere() {
    let bytes = lines(100);
    for top in [0, 1, 50, 90, 99] {
        let mut viewer = open(&bytes);
        viewer.top_line = top;
        assert_eq!(press(&mut viewer, Key::End), (Action::Stay, true));
        assert_eq!(viewer.top_line, 90);
        assert_eq!(viewer.visible_line_numbers(10), (90..100).collect::<Vec<_>>());
        press(&mut viewer, Key::Home);
        assert_eq!(viewer.top_line, 0);
    }
    let mut short = open(b"a\nb");
    press(&mut short, Key::End);
    assert_eq!(short.top_line, 0);
}

#[test]
fn end_of_aligned_values_leaves_room_for_the_header() {
    let bytes = lines(100);
    let mut viewer = Viewer::open(&bytes, 4, true, None, false, false, false).expect("opens");
    press(&mut viewer, Key::End);
    assert_eq!(viewer.top_line, 91);
    assert_eq!(viewer.visible_line_numbers(10).first(), Some(&0));
    assert_eq!(viewer.visible_line_numbers(10).last(), Some(&99));
}

#[test]
fn page_down_skips_no_line() {
    let bytes = lines(35);
    let mut viewer = open(&bytes);
    let mut seen = viewer.visible_line_numbers(10);
    for _ in 0..4 {
        press(&mut viewer, Key::PageDown);
        seen.extend(viewer.visible_line_numbers(10));
    }
    seen.sort_unstable();
    seen.dedup();
    assert_eq!(seen, (0..35).collect::<Vec<_>>());
}

#[test]
fn sideways_keys_move_column_and_cursor() {
    let mut viewer = open(b"abc");
    assert_eq!(press(&mut viewer, Key::Right), (Action::Stay, true));
    assert_eq!((viewer.left_col, viewer.cursor_offset), (1, 1));
    press(&mut viewer, Key::Right);
    press(&mut viewer, Key::Right);
    press(&mut viewer, Key::Right);
    assert_eq!((viewer.left_col, viewer.cursor_offset), (4, 3));
    press(&mut viewer, Key::Left);
    assert_eq!((viewer.left_col, viewer.cursor_offset), (3, 2));
    viewer.left_col = usize::MAX;
    press(&mut viewer, Key::Right);
    assert_eq!(viewer.left_col, usize::MAX);
}

#[test]
fn shift_selects_and_its_absence_gives_the_selection_up() {
    let mut viewer = open(b"abcdef");
    viewer.cursor_offset = 2;
    for _ in 0..3 {
        input(&mut viewer, Input::Key(KeyInput { shift: true, ..pressed(Key::Right) }));
    }
    assert_eq!(viewer.selection_range(), Some((2, 5)));
    for _ in 0..4 {
        input(&mut viewer, Input::Key(KeyInput { shift: true, ..pressed(Key::Left) }));
    }
    assert_eq!(viewer.selection_range(), Some((1, 2)));
    press(&mut viewer, Key::Left);
    assert_eq!(viewer.selection_range(), None);
    assert_eq!(viewer.cursor_offset, 0);
}

#[test]
fn keys_ask_for_what_the_viewer_cannot_do() {
    let mut viewer = open(b"abc");
    assert_eq!(press(&mut viewer, Key::Char('q')), (Action::Quit, false));
    assert_eq!(press(&mut viewer, Key::Char('g')), (Action::AskLine, false));
    assert_eq!(press(&mut viewer, Key::Char('f')), (Action::AskQuery, false));
    assert_eq!(press(&mut viewer, Key::Char('c')), (Action::Stay, false));
    let copy = KeyInput { control: true, ..pressed(Key::Char('c')) };
    assert_eq!(input(&mut viewer, Input::Key(copy)), (Action::Copy, false));
    assert_eq!(press(&mut viewer, Key::Char('n')), (Action::Stay, false));
    assert_eq!(press(&mut viewer, Key::Other), (Action::Stay, false));
    assert_eq!(
        input(&mut viewer, mouse(MouseKind::RightDown, 0, 0, false)),
        (Action::Copy, false)
    );
}

#[test]
fn released_keys_do_nothing_and_resizing_redraws() {
    let mut viewer = open(b"a\nb\nc");
    let released = KeyInput { pressed: false, ..pressed(Key::Char('q')) };
    assert_eq!(input(&mut viewer, Input::Key(released)), (Action::Stay, false));
    assert_eq!(input(&mut viewer, Input::Resize), (Action::Stay, true));
    assert_eq!(input(&mut viewer, Input::Other), (Action::Stay, false));
}

#[test]
fn goes_to_a_line() {
    let bytes = lines(100);
    let mut viewer = open(&bytes);
    let mut session = Session::new();
    session.needs_redraw = false;
    finish_goto(&mut viewer, &mut session, Some(51), HEIGHT);
    assert_eq!(viewer.top_line, 45);
    assert!(session.needs_redraw);
    assert!(viewer.visible_line_numbers(10).contains(&50));
    finish_goto(&mut viewer, &mut session, Some(1000), HEIGHT);
    assert_eq!(viewer.top_line, 94);
    finish_goto(&mut viewer, &mut session, None, HEIGHT);
    assert_eq!(viewer.top_line, 94);
    finish_goto(&mut viewer, &mut session, Some(1), HEIGHT);
    assert_eq!(viewer.top_line, 0);
}

#[test]
fn finds_and_walks_the_matches() {
    let bytes = lines(100);
    let mut viewer = open(&bytes);
    let mut session = Session::new();
    finish_find(&mut viewer, &mut session, Some("line 7".to_string()), HEIGHT);
    assert_eq!(viewer.search_query.as_deref(), Some(b"line 7".as_slice()));
    assert_eq!(viewer.match_range, Some((42, 48)));
    assert_eq!(viewer.top_line, 1);
    press(&mut viewer, Key::Char('n'));
    let (start, _) = viewer.match_range.expect("a match");
    assert_eq!(viewer.line_of_offset(start), 69);
    assert_eq!(viewer.top_line, 64);
    assert!(viewer.visible_line_numbers(10).contains(&69));
    press(&mut viewer, Key::Char('p'));
    assert_eq!(viewer.match_range, Some((42, 48)));
    press(&mut viewer, Key::Char('p'));
    assert_eq!(viewer.match_range, Some((42, 48)));
    finish_find(&mut viewer, &mut session, Some("nowhere".to_string()), HEIGHT);
    assert_eq!(viewer.match_range, None);
    assert_eq!(press(&mut viewer, Key::Char('n')), (Action::Stay, true));
    assert_eq!(viewer.match_range, None);
    finish_find(&mut viewer, &mut session, None, HEIGHT);
    assert_eq!(viewer.search_query.as_deref(), Some(b"nowhere".as_slice()));
}

#[test]
fn search_covers_both_ends() {
    let viewer = open(b"abab");
    assert_eq!(viewer.find_forward(b"", 0), None);
    assert_eq!(viewer.find_forward(b"ab", 1), Some((2, 4)));
    assert_eq!(viewer.find_forward(b"ab", 3), None);
    assert_eq!(viewer.find_forward(b"ab", usize::MAX), None);
    assert_eq!(viewer.find_backward(b"ab", 2), Some((0, 2)));
    assert_eq!(viewer.find_backward(b"ab", 3), Some((2, 4)));
    assert_eq!(viewer.find_backward(b"ab", usize::MAX), Some((2, 4)));
    assert_eq!(viewer.find_backward(b"ab", 0), None);
    assert_eq!(viewer.find_backward(b"", 3), None);
}

#[test]
fn mouse_selects_text() {
    let mut viewer = open(b"abcdef\nghi");
    let mut session = Session::new();
    handle_input(&mut viewer, &mut session, mouse(MouseKind::LeftDown, 1, 1, false), WIDTH, HEIGHT);
    assert!(session.selection_drag);
    assert_eq!(viewer.status_message.as_deref(), Some("Selecting text…"));
    assert_eq!(viewer.cursor_offset, 1);
    handle_input(&mut viewer, &mut session, mouse(MouseKind::LeftDrag, 2, 2, false), WIDTH, HEIGHT);
    assert_eq!(viewer.selection_range(), Some((1, 9)));
    handle_input(&mut viewer, &mut session, mouse(MouseKind::LeftUp, 2, 2, false), WIDTH, HEIGHT);
    assert!(!session.selection_drag);
    assert_eq!(
        viewer.status_message.as_deref(),
        Some("Selected 8 bytes. Press Ctrl+C to copy.")
    );
    handle_input(&mut viewer, &mut session, mouse(MouseKind::LeftDown, 0, 9, false), WIDTH, HEIGHT);
    assert_eq!(viewer.selection_range(), Some((1, 9)));
}

#[test]
fn mouse_selects_a_block() {
    let mut viewer = open(b"abcdef\nghijkl");
    let mut session = Session::new();
    handle_input(&mut viewer, &mut session, mouse(MouseKind::LeftDown, 4, 1, true), WIDTH, HEIGHT);
    assert_eq!(viewer.status_message.as_deref(), Some("Selecting block…"));
    handle_input(&mut viewer, &mut session, mouse(MouseKind::LeftDrag, 2, 2, true), WIDTH, HEIGHT);
    handle_input(&mut viewer, &mut session, mouse(MouseKind::LeftUp, 2, 2, true), WIDTH, HEIGHT);
    assert_eq!(viewer.block_selection_range(), Some((0, 1, 2, 4)));
    assert_eq!(
        viewer.status_message.as_deref(),
        Some("Block selected. Right-click or Ctrl+C to copy.")
    );
    let request = viewer.selection_to_copy().expect("a block");
    assert_eq!(request.text, "cde\nijk");
    assert_eq!(request.bytes, None);
}

#[test]
fn a_click_alone_selects_nothing() {
    let mut viewer = open(b"abc");
    let mut session = Session::new();
    handle_input(&mut viewer, &mut session, mouse(MouseKind::LeftDown, 1, 1, false), WIDTH, HEIGHT);
    handle_input(&mut viewer, &mut session, mouse(MouseKind::LeftUp, 1, 1, false), WIDTH, HEIGHT);
    assert_eq!(viewer.selection_range(), None);
    assert_eq!(viewer.status_message, None);
    assert!(viewer.selection_to_copy().is_none());
}

#[test]
fn wheel_and_scrollbar_scroll() {
    let bytes = lines(100);
    let mut viewer = open(&bytes);
    let mut session = Session::new();
    handle_input(&mut viewer, &mut session, mouse(MouseKind::ScrollDown, 0, 0, false), WIDTH, HEIGHT);
    assert_eq!(viewer.top_line, 3);
    handle_input(&mut viewer, &mut session, mouse(MouseKind::ScrollUp, 0, 0, false), WIDTH, HEIGHT);
    assert_eq!(viewer.top_line, 0);
    handle_input(&mut viewer, &mut session, mouse(MouseKind::LeftDown, 79, 10, false), WIDTH, HEIGHT);
    assert!(session.scrollbar_drag);
    assert_eq!(viewer.top_line, 90);
    handle_input(&mut viewer, &mut session, mouse(MouseKind::LeftDrag, 3, 5, false), WIDTH, HEIGHT);
    assert_eq!(viewer.top_line, 40);
    handle_input(&mut viewer, &mut session, mouse(MouseKind::LeftUp, 3, 5, false), WIDTH, HEIGHT);
    assert!(!session.scrollbar_drag);
    handle_input(&mut viewer, &mut session, mouse(MouseKind::LeftDrag, 3, 9, false), WIDTH, HEIGHT);
    assert_eq!(viewer.top_line, 40);
}

#[test]
fn pointing_finds_the_byte_that_is_shown() {
    let viewer = open(b"\xef\xbb\xbfa\tb\r\nxy\n");
    assert_eq!(viewer.offset_for_line_col(0, 0), 3);
    assert_eq!(viewer.offset_for_line_col(0, 1), 4);
    assert_eq!(viewer.offset_for_line_col(0, 2), 5);
    assert_eq!(viewer.offset_for_line_col(0, 5), 5);
    assert_eq!(viewer.offset_for_line_col(0, 6), 7);
    assert_eq!(viewer.offset_for_line_col(1, 1), 9);
    // An empty last line has no byte of its own.
    assert_eq!(viewer.offset_for_line_col(2, 0), 10);
    assert_eq!(open(b"").offset_for_line_col(0, 0), 0);
}

#[test]
fn every_line_of_offset_is_found() {
    let viewer = open(b"a\n\nbc\n");
    let found: Vec<usize> = (0..8).map(|offset| viewer.line_of_offset(offset)).collect();
    assert_eq!(found, vec![0, 0, 1, 2, 2, 2, 3, 3]);
    assert_eq!(viewer.line_range(2), (3, 6));
    assert_eq!(viewer.line_range(3), (6, 6));
}

#[test]
fn copies_text_with_bytes_that_are_not_text() {
    let mut viewer = open(b"xa\xffb\xc3\xa9y");
    viewer.selection_anchor = Some(6);
    viewer.selection_focus = Some(1);
    let request = viewer.selection_to_copy().expect("a selection");
    assert_eq!(request.text, "a\u{fffd}bé");
    assert_eq!(request.bytes, Some(5));
    viewer.finish_copy(request.bytes, CopyOutcome::Copied);
    assert_eq!(viewer.status_message.as_deref(), Some("Copied 5 bytes to clipboard"));
    viewer.finish_copy(None, CopyOutcome::Copied);
    assert_eq!(viewer.status_message.as_deref(), Some("Copied block selection to clipboard"));
    viewer.finish_copy(Some(5), CopyOutcome::Failed);
    assert_eq!(viewer.status_message.as_deref(), Some("Failed to copy selection to clipboard"));
    viewer.finish_copy(None, CopyOutcome::Unavailable);
    assert_eq!(
        viewer.status_message.as_deref(),
        Some("Clipboard unavailable in this environment")
    );
}

#[test]
fn copies_a_block_as_it_is_shown() {
    let mut viewer = open(b"abcd\nx\n\tq\r\n\x01\x02");
    viewer.block_selection_anchor = Some((0, 1));
    viewer.block_selection_focus = Some((9, 2));
    let request = viewer.selection_to_copy().expect("a block");
    assert_eq!(request.text, "bc\n\n  \n·\n");
    assert_eq!(viewer.line_display_chars(2), vec![' ', ' ', ' ', ' ', 'q']);
}

#[test]
fn goto_takes_digits() {
    let mut prompt = GotoPrompt::new();
    assert_eq!(prompt.text(42, 80), "Goto line (1-42, Enter=go, Esc=cancel): ");
    for key in [Key::Char('1'), Key::Char('x'), Key::Char('2'), Key::Char('3'), Key::Backspace] {
        assert!(matches!(prompt.press(pressed(key)), Answer::Pending));
    }
    assert_eq!(prompt.text(42, 80), "Goto line (1-42, Enter=go, Esc=cancel): 12");
    assert_eq!(prompt.text(42, 9), "Goto line");
    assert!(matches!(
        prompt.press(KeyInput { pressed: false, ..pressed(Key::Esc) }),
        Answer::Pending
    ));
    assert!(matches!(prompt.press(pressed(Key::Enter)), Answer::Given(12)));
}

#[test]
fn goto_refuses_what_is_no_line_number() {
    assert!(matches!(GotoPrompt::new().press(pressed(Key::Enter)), Answer::Cancelled));
    assert!(matches!(GotoPrompt::new().press(pressed(Key::Esc)), Answer::Cancelled));
    let mut zero = GotoPrompt::new();
    zero.press(pressed(Key::Char('0')));
    assert!(matches!(zero.press(pressed(Key::Enter)), Answer::Pending));
    assert_eq!(zero.input, "0");
    let mut huge = GotoPrompt::new();
    for _ in 0..40 {
        huge.press(pressed(Key::Char('9')));
    }
    assert!(matches!(huge.press(pressed(Key::Enter)), Answer::Pending));
}

#[test]
fn reads_the_numbers_that_std_reads() {
    for text in [
        "", "+", "-", "+5", "-1", "0", "00012", "18446744073709551615", "18446744073709551616",
        "99999999999999999999999", "1a", "a1", "1 ", " 1", "1+", "++1", "٣",
    ] {
        assert_eq!(parse_number(text), text.parse::<usize>().ok(), "{text}");
    }
    for n in [0, 1, 9, 10, 4711, usize::MAX] {
        assert_eq!(parse_number(&n.to_string()), Some(n));
    }
}

#[test]
fn find_starts_with_the_last_query() {
    let mut viewer = open(b"abc");
    assert_eq!(FindPrompt::new(&viewer).input, "");
    viewer.search_query = Some("größe".as_bytes().to_vec());
    let mut prompt = FindPrompt::new(&viewer);
    assert_eq!(prompt.text(80), "Find text (Enter=find, Esc=cancel): größe");
    assert_eq!(prompt.text(4), "Find");
    prompt.press(pressed(Key::Backspace));
    prompt.press(pressed(Key::Char('→')));
    prompt.press(pressed(Key::Left));
    match prompt.press(pressed(Key::Enter)) {
        Answer::Given(query) => assert_eq!(query, "größ→"),
        _ => panic!("no query"),
    }
    viewer.search_query = Some(b"a\xff".to_vec());
    assert_eq!(FindPrompt::new(&viewer).input, "a\u{fffd}");
}

#[test]
fn find_is_given_up() {
    let mut empty = FindPrompt::with_input(String::new());
    assert!(matches!(empty.press(pressed(Key::Backspace)), Answer::Pending));
    assert!(matches!(empty.press(pressed(Key::Enter)), Answer::Cancelled));
    let mut typed = FindPrompt::with_input("abc".to_string());
    assert!(matches!(
        typed.press(KeyInput { pressed: false, ..pressed(Key::Enter) }),
        Answer::Pending
    ));
    assert!(matches!(typed.press(pressed(Key::Esc)), Answer::Cancelled));
}

#[test]
fn find_takes_every_character_but_control_characters() {
    let mut prompt = FindPrompt::with_input(String::new());
    for c in '\0'..=char::MAX {
        prompt.press(pressed(Key::Char(c)));
        if c.is_control() {
            assert!(prompt.input.is_empty(), "{c:?}");
        } else {
            assert!(prompt.input.chars().eq([c]), "{c:?}");
            prompt.press(pressed(Key::Backspace));
        }
    }
}
