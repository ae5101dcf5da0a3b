use lfv::document::Document;
use lfv::editor::{is_whitespace_char, line_number_label, trimmed, GuiApp};

fn saved(doc: &Document) -> Vec<u8> {
    let mut out = Vec::new();
    let mut idx = 0;
    while let Some(bytes) = doc.save_line(idx) {
        out.extend(bytes);
        idx += 1;
    }
    out
}

#[test]
fn shows_lines() {
    let doc = Document::open(b"a\tb\r\nc\n\x01d", 2);
    assert_eq!(doc.line_count(), 3);
    assert_eq!(doc.line_slice(0), b"a\tb\r\n");
    assert_eq!(doc.line_slice(2), b"\x01d");
    assert_eq!(doc.line_text(0), "a  b");
    // A line feed without a carriage return before it is shown like any unprintable byte.
    assert_eq!(doc.line_text(1), "c·");
    assert_eq!(doc.line_text(2), "·d");
    assert_eq!(Document::index_lines(b"\n\n"), vec![0, 1, 2]);
}

#[test]
fn strips_a_carriage_return_without_line_feed() {
    let doc = Document::open(b"a\r", 4);
    assert_eq!(doc.line_text(0), "a");
    let doc = Document::open(b"\r\n", 4);
    assert_eq!(doc.line_text(0), "");
    assert_eq!(doc.line_text(1), "");
}

#[test]
fn saves_an_unedited_file_with_one_more_line_feed() {
    for bytes in [b"a\nb".as_slice(), b"a\r\n", b"", b"\n", b"\xff\x00"] {
        let mut expected = bytes.to_vec();
        expected.push(b'\n');
        assert_eq!(saved(&Document::open(bytes, 4)), expected);
    }
}

#[test]
fn saves_edited_lines_in_place() {
    let mut doc = Document::open(b"one\r\ntwo\r\nthree", 4);
    doc.update_line(1, "zwölf".to_string());
    assert_eq!(doc.modified_count(), 1);
    assert_eq!(doc.line_text(1), "zwölf");
    assert_eq!(doc.line_text(0), "one");
    assert_eq!(saved(&doc), "one\r\nzwölf\nthree\n".as_bytes());
    doc.update_line(1, "2".to_string());
    doc.update_line(2, String::new());
    assert_eq!(doc.modified_count(), 2);
    assert_eq!(saved(&doc), b"one\r\n2\n\n");
    assert_eq!(doc.source, b"one\r\ntwo\r\nthree");
}

#[test]
fn edits_a_line_with_enter() {
    let mut app = GuiApp::new(Document::open(b"one\r\ntwo", 4), "out.txt".to_string());
    assert_eq!(app.lines_label(), "Lines: 2");
    assert_eq!(app.modified_label(), "Modified lines: 0");
    assert!(!app.is_editing(0));
    app.begin_edit(0);
    assert!(app.is_editing(0));
    assert!(!app.is_editing(1));
    assert_eq!(app.edit_buffer, "one");
    app.edit_buffer.push('!');
    app.handle_edit_keys(0, false, false);
    assert!(app.is_editing(0));
    app.handle_edit_keys(0, true, false);
    assert!(!app.is_editing(0));
    assert_eq!(app.doc.line_text(0), "one!");
    assert_eq!(app.modified_label(), "Modified lines: 1");
}

#[test]
fn gives_an_edit_up_with_escape() {
    let mut app = GuiApp::new(Document::open(b"one", 4), String::new());
    app.begin_edit(0);
    app.edit_buffer.push('!');
    app.handle_edit_keys(0, false, true);
    assert!(!app.is_editing(0));
    assert_eq!(app.doc.line_text(0), "one");
    assert_eq!(app.doc.modified_count(), 0);
}

#[test]
fn says_what_became_of_a_save() {
    let mut app = GuiApp::new(Document::open(b"", 4), "\t out.txt \u{3000}".to_string());
    assert_eq!(app.status, "");
    assert_eq!(app.save_target(), "out.txt");
    app.finish_save("out.txt", None);
    assert_eq!(app.status, "Saved out.txt");
    app.finish_save("out.txt", Some("disk full"));
    assert_eq!(app.status, "Save failed: disk full");
}

#[test]
fn numbers_lines_from_one() {
    assert_eq!(line_number_label(0), "      1");
    assert_eq!(line_number_label(999_999), "1000000");
    assert_eq!(line_number_label(9_999_999), "10000000");
}

#[test]
fn whitespace_is_what_std_counts_as_whitespace() {
    for c in '\0'..=char::MAX {
        assert_eq!(is_whitespace_char(c), c.is_whitespace(), "{c:?}");
    }
    for text in ["", " ", "a", " a b ", "\u{a0}x\u{2029}", "\u{200b}x", "x\n\r\t\u{b}"] {
        assert_eq!(trimmed(text), text.trim());
    }
}
