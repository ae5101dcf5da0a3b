use lfv::frame::Frame;
use lfv::render::{push_char, segment_color, RenderClass, Segment, TextColor};
use lfv::scrollbar::{scrollbar_column, scrollbar_target, scrollbar_thumb};
use lfv::text::clip_to_width;
use lfv::viewer::Viewer;

fn open(bytes: &[u8]) -> Viewer<'_> {
    Viewer::open(bytes, 4, false, None, false, false, false).expect("opens")
}

fn open_csv(bytes: &[u8]) -> Viewer<'_> {
    Viewer::open(bytes, 4, true, None, false, false, false).expect("opens")
}

fn text(row: &[Segment]) -> String {
    row.iter().map(|(_, _, text)| text.as_str()).collect()
}

fn texts(frame: &Frame) -> Vec<String> {
    frame.rows.iter().map(|row| text(row)).collect()
}

fn plain(highlighted: bool, text: &str) -> Segment {
    (highlighted, RenderClass::Text, text.to_string())
}

#[test]
fn draws_status_rows_scrollbar_and_footer() {
    let frame = open(b"a\nb\n").render(200, 10);
    assert_eq!(
        frame.status,
        "Lines: 3 | Top: 1 | Left: 1 | q: quit | g: goto | f: find | n/p: next/prev | ←/→ ↑/↓ PgUp/PgDn Home/End"
    );
    assert_eq!(texts(&frame), vec!["a", "b", ""]);
    assert_eq!(frame.scrollbar, vec!['█'; 8]);
    assert_eq!(frame.footer, "Memory-mapped view (renders visible window only)");
}

#[test]
fn cuts_status_and_footer_to_the_screen() {
    let mut viewer = open(b"a");
    viewer.status_message = Some("Selecting text…".to_string());
    let frame = viewer.render(9, 5);
    assert_eq!(frame.status, "Lines: 1 ");
    assert_eq!(frame.footer, "Selecting");
    assert_eq!(clip_to_width("←→", 1), "←");
    assert_eq!(clip_to_width("ab", 5), "ab");
}

#[test]
fn draws_nothing_on_an_empty_screen() {
    let frame = open(b"abc\n").render(0, 0);
    assert_eq!(frame.status, "");
    assert!(frame.rows.is_empty());
    assert!(frame.scrollbar.is_empty());
    assert_eq!(frame.footer, "");
}

#[test]
fn shows_tabs_as_blanks_and_unprintable_bytes_as_dots() {
    let frame = open(b"a\tb\x01\x7f\xc3\r\n~").render(80, 10);
    assert_eq!(texts(&frame), vec!["a    b···", "~"]);
    let narrow = Viewer::open(b"\tx", 2, false, None, false, false, false).expect("opens");
    assert_eq!(text(&narrow.render_line(0, 10)), "  x");
}

#[test]
fn hides_byte_order_mark_of_first_line() {
    let frame = open(b"\xef\xbb\xbfx\n\xef\xbb\xbfy").render(80, 10);
    assert_eq!(texts(&frame), vec!["x", "···y"]);
}

#[test]
fn shows_the_columns_that_fit() {
    let mut viewer = open(b"abcdef\nab");
    viewer.left_col = 2;
    let frame = viewer.render(4, 10);
    assert_eq!(texts(&frame), vec!["cde", ""]);
    assert!(frame.rows[1].is_empty());
}

#[test]
fn marks_match_selection_and_block() {
    let mut viewer = open(b"abcd\nefgh");
    viewer.set_match(1, 3, 10);
    assert_eq!(
        viewer.render_line(0, 10),
        vec![plain(false, "a"), plain(true, "bc"), plain(false, "d")]
    );
    viewer.match_range = None;
    viewer.selection_anchor = Some(7);
    viewer.selection_focus = Some(2);
    assert_eq!(viewer.render_line(0, 10), vec![plain(false, "ab"), plain(true, "cd")]);
    assert_eq!(viewer.render_line(1, 10), vec![plain(true, "ef"), plain(false, "gh")]);
    viewer.clear_selection();
    viewer.block_selection_anchor = Some((1, 2));
    viewer.block_selection_focus = Some((0, 1));
    assert_eq!(
        viewer.render_line(0, 10),
        vec![plain(false, "a"), plain(true, "bc"), plain(false, "d")]
    );
    assert_eq!(
        viewer.render_line(1, 10),
        vec![plain(false, "e"), plain(true, "fg"), plain(false, "h")]
    );
}

#[test]
fn colours_xml() {
    let viewer =
        Viewer::open(b"<a b=\"c\">x", 4, false, None, true, false, false).expect("opens");
    let row: Vec<(RenderClass, String)> =
        viewer.render_line(0, 80).into_iter().map(|(_, class, text)| (class, text)).collect();
    assert_eq!(
        row,
        vec![
            (RenderClass::TagDelimiter, "<".to_string()),
            (RenderClass::TagName, "a".to_string()),
            (RenderClass::TagDelimiter, " ".to_string()),
            (RenderClass::AttributeName, "b".to_string()),
            (RenderClass::TagDelimiter, "=".to_string()),
            (RenderClass::AttributeValue, "\"c\"".to_string()),
            (RenderClass::TagDelimiter, ">".to_string()),
            (RenderClass::Text, "x".to_string()),
        ]
    );
}

#[test]
fn colours_json() {
    let viewer =
        Viewer::open(b"{\"k\":[1,\"s\",null]}", 4, false, None, false, false, true).expect("opens");
    let row: Vec<(RenderClass, String)> =
        viewer.render_line(0, 80).into_iter().map(|(_, class, text)| (class, text)).collect();
    assert_eq!(
        row,
        vec![
            (RenderClass::TagDelimiter, "{".to_string()),
            (RenderClass::AttributeName, "\"k\"".to_string()),
            (RenderClass::TagDelimiter, ":[".to_string()),
            (RenderClass::TagName, "1".to_string()),
            (RenderClass::TagDelimiter, ",".to_string()),
            (RenderClass::AttributeName, "\"s\"".to_string()),
            (RenderClass::TagDelimiter, ",".to_string()),
            (RenderClass::Comment, "null".to_string()),
            (RenderClass::TagDelimiter, "]}".to_string()),
        ]
    );
}

#[test]
fn two_syntaxes_or_aligned_values_are_not_coloured() {
    let both = Viewer::open(b"<a>{1}", 4, false, None, true, false, true).expect("opens");
    assert_eq!(both.render_line(0, 80), vec![plain(false, "<a>{1}")]);
    let csv = Viewer::open(b"<a>", 4, true, None, true, false, false).expect("opens");
    assert_eq!(csv.render_line(0, 80), vec![plain(false, "<a>")]);
}

#[test]
fn aligns_delimited_values() {
    let frame = open_csv(b"a,bbb,c\ncccc,d,e\n,\tx,\n").render(80, 10);
    assert_eq!(
        texts(&frame),
        vec!["a   , bbb  , c", "cccc, d    , e", "    ,     x, ", ""]
    );
    // A separator stands in one column of the screen in every line.
    for column in [4, 11] {
        for row in &texts(&frame)[0..3] {
            assert_eq!(row.chars().nth(column), Some(','));
        }
    }
}

#[test]
fn keeps_the_header_in_the_first_row() {
    let mut viewer = open_csv(b"h,i\n1,a\n2,b\n3,c\n4,d");
    viewer.scroll_down(2, 3);
    assert_eq!(viewer.top_line, 3);
    assert_eq!(texts(&viewer.render(80, 5)), vec!["h, i", "3, c", "4, d"]);
    viewer.scroll_up(10);
    assert_eq!(texts(&viewer.render(80, 5)), vec!["h, i", "1, a", "2, b"]);
    assert_eq!(texts(&viewer.render(80, 2)), vec!["h, i"]);
    viewer.scroll_to_scrollbar_row(1, 3);
    assert_eq!(viewer.top_line, 1);
}

#[test]
fn each_class_has_its_colour() {
    assert_eq!(segment_color(RenderClass::Text), TextColor::White);
    assert_eq!(segment_color(RenderClass::TagDelimiter), TextColor::Cyan);
    assert_eq!(segment_color(RenderClass::TagName), TextColor::DarkYellow);
    assert_eq!(segment_color(RenderClass::AttributeName), TextColor::Green);
    assert_eq!(segment_color(RenderClass::AttributeValue), TextColor::Yellow);
    assert_eq!(segment_color(RenderClass::Comment), TextColor::DarkGrey);
}

#[test]
fn characters_are_grouped_by_style() {
    let mut absolute_col = 0;
    let mut visible_width = 0;
    let mut segments = Vec::new();
    for (c, highlighted) in [('a', false), ('b', false), ('c', true), ('d', true), ('e', false)] {
        push_char(
            c,
            highlighted,
            RenderClass::Text,
            1,
            3,
            &mut absolute_col,
            &mut visible_width,
            &mut segments,
        );
    }
    assert_eq!(segments, vec![plain(false, "b"), plain(true, "cd")]);
    assert_eq!(absolute_col, 5);
    assert_eq!(visible_width, 3);
}

#[test]
fn thumb_shows_the_part_that_is_visible() {
    assert_eq!(scrollbar_thumb(0, 10, 100), (0, 1));
    assert_eq!(scrollbar_thumb(90, 10, 100), (9, 10));
    assert_eq!(scrollbar_thumb(45, 10, 100), (4, 5));
    assert_eq!(scrollbar_thumb(99, 10, 100), (9, 10));
    assert_eq!(scrollbar_thumb(5, 10, 20), (2, 7));
    assert_eq!(scrollbar_thumb(0, 10, 10), (0, 10));
    assert_eq!(scrollbar_column(5, 4, 8), vec!['░', '░', '█', '█']);
    assert_eq!(scrollbar_column(0, 4, 8), vec!['█', '█', '░', '░']);
    assert!(scrollbar_column(0, 0, 8).is_empty());
}

#[test]
fn scrollbar_row_brings_the_thumb_there() {
    assert_eq!(scrollbar_target(0, 10, 100), 0);
    assert_eq!(scrollbar_target(9, 10, 100), 90);
    assert_eq!(scrollbar_target(4, 10, 100), 40);
    for row in 0..10 {
        let top = scrollbar_target(row, 10, 100);
        assert_eq!(scrollbar_thumb(top, 10, 100).0, row);
    }
    for row in 5..10 {
        assert_eq!(scrollbar_target(row, 10, 20), 10);
    }
    assert_eq!(scrollbar_thumb(10, 10, 20), (5, 10));
    assert_eq!(scrollbar_target(0, 1, 9), 0);
}

#[test]
fn shows_the_pretty_printed_file() {
    let xml = Viewer::open(b"<a><b>1</b></a>", 4, false, None, true, true, false).expect("opens");
    assert_eq!(texts(&xml.render(80, 10)), vec!["<a>", "  <b>1</b>", "</a>"]);
    let json = Viewer::open(b"{\"a\":1}", 4, false, None, false, true, true).expect("opens");
    assert_eq!(texts(&json.render(80, 10)), vec!["{", "  \"a\": 1", "}"]);
    let broken = Viewer::open(b"{\"a\":1", 4, false, None, false, true, true).expect("opens");
    assert_eq!(texts(&broken.render(80, 10)), vec!["{\"a\":1"]);
    let csv = Viewer::open(b"<a>,<b>", 4, true, None, true, true, false).expect("opens");
    assert!(csv.formatted_view.is_none());
}
