use lfv::csv::{detect_csv_separator, parse_csv_separator, resolve_csv_separator};
use lfv::layout::skipped_prefix_len;
use lfv::viewer::{centered_top_line, Viewer};

#[test]
fn indexes_lines() {
    let offsets = Viewer::index_lines(b"a\nb\nlast");
    assert_eq!(offsets, vec![0, 2, 4]);
}

#[test]
fn indexes_empty() {
    let offsets = Viewer::index_lines(b"");
    assert_eq!(offsets, vec![0]);
}

#[test]
fn centers_target_line_when_possible() {
    assert_eq!(centered_top_line(50, 20, 200), 40);
}

#[test]
fn centers_target_line_with_small_targets() {
    assert_eq!(centered_top_line(3, 20, 200), 0);
}

#[test]
fn centers_target_line_near_end() {
    assert_eq!(centered_top_line(199, 20, 200), 189);
}

fn test_viewer_from_bytes(bytes: &[u8]) -> Viewer<'_> {
    Viewer::open(bytes, 4, false, None, false, false, false).expect("failed to open viewer")
}

fn test_viewer_with_options(bytes: &[u8], tab_width: usize, csv: bool) -> Viewer<'_> {
    Viewer::open(bytes, tab_width, csv, None, false, false, false).expect("failed to open viewer")
}

#[test]
fn finds_forward_and_backward() {
    let viewer = test_viewer_from_bytes(b"abc\ndef abc xyz abc");
    assert_eq!(viewer.find_forward(b"abc", 0), Some((0, 3)));
    assert_eq!(viewer.find_forward(b"abc", 4), Some((8, 11)));
    assert_eq!(viewer.find_backward(b"abc", 18), Some((16, 19)));
    assert_eq!(viewer.find_backward(b"missing", 18), None);
}

#[test]
fn maps_offsets_to_lines() {
    let viewer = test_viewer_from_bytes(b"line1\nline2\nline3");
    assert_eq!(viewer.line_of_offset(0), 0);
    assert_eq!(viewer.line_of_offset(6), 1);
    assert_eq!(viewer.line_of_offset(12), 2);
}

#[test]
fn indexes_csv_column_widths() {
    let widths = Viewer::index_csv_column_widths(b"a,bbb\ncccc,d", 4, b',');
    assert_eq!(widths, vec![4, 3]);
}

#[test]
fn csv_mode_starts_below_pinned_header() {
    let viewer = test_viewer_with_options(b"h1,h2\nv1,v2\nv3,v4", 4, true);
    assert_eq!(viewer.top_line, 1);
}

#[test]
fn csv_scroll_up_keeps_header_pinned() {
    let mut viewer = test_viewer_with_options(b"h1,h2\nv1,v2\nv3,v4", 4, true);
    viewer.scroll_up(10);
    assert_eq!(viewer.top_line, 1);
}

#[test]
fn auto_detects_semicolon_separator() {
    assert_eq!(detect_csv_separator(b"h1;h2\na;b\nc;d"), b';');
}

#[test]
fn parses_tab_separator_escape() {
    assert_eq!(parse_csv_separator(r"\t").expect("should parse"), b'\t');
}

#[test]
fn skips_utf8_bom_prefix_on_first_line_only() {
    let bom_prefixed = [0xEF_u8, 0xBB_u8, 0xBF_u8, b'<', b'x', b'>'];
    assert_eq!(skipped_prefix_len(0, &bom_prefixed), 3);
    assert_eq!(skipped_prefix_len(1, &bom_prefixed), 0);
    assert_eq!(skipped_prefix_len(0, b"<x>"), 0);
}

#[test]
fn refuses_separators_that_are_not_one_ascii_character() {
    for raw in ["", ",,", "é", "\\n", "\\t "] {
        let error = parse_csv_separator(raw).expect_err("not a separator");
        assert_eq!(error.message(), "--csv-separator must be a single ASCII character or \\t");
    }
    assert!(Viewer::open(b"a", 4, true, Some("ab"), false, false, false).is_err());
    assert!(Viewer::open(b"a", 4, false, Some("ab"), false, false, false).is_ok());
}

#[test]
fn takes_the_separator_that_is_named_or_the_likeliest() {
    assert_eq!(resolve_csv_separator(Some("|"), b"a,b").ok(), Some(b'|'));
    assert_eq!(resolve_csv_separator(None, b"a|b|c,d").ok(), Some(b'|'));
    assert_eq!(detect_csv_separator(b""), b',');
    assert_eq!(detect_csv_separator(b"a:b;c"), b';');
    assert_eq!(detect_csv_separator(b"a:b\tc"), b'\t');
    let mut late = b"\n".repeat(50);
    late.extend_from_slice(b"a;b;c");
    assert_eq!(detect_csv_separator(&late), b',');
    let mut early = b"\n".repeat(49);
    early.extend_from_slice(b"a;b;c");
    assert_eq!(detect_csv_separator(&early), b';');
}

#[test]
fn widths_count_tabs_and_leave_carriage_returns_out() {
    assert_eq!(Viewer::index_csv_column_widths(b"a\t,b\r\n\n,,", 4, b','), vec![5, 1, 0]);
    assert_eq!(Viewer::index_csv_column_widths(b"", 4, b','), vec![0]);
    assert_eq!(Viewer::index_csv_column_widths(b"a\tbb", 4, b'\t'), vec![1, 2]);
    assert_eq!(Viewer::index_csv_column_widths(b"\t\t", usize::MAX, b','), vec![usize::MAX]);
}

#[test]
fn lines_make_the_whole_file() {
    let bytes = b"one\r\n\ntwo\n";
    let viewer = test_viewer_from_bytes(bytes);
    let mut whole = Vec::new();
    for i in 0..viewer.line_count() {
        let (start, end) = viewer.line_range(i);
        whole.extend_from_slice(&bytes[start..end]);
    }
    assert_eq!(whole, bytes);
}

#[test]
fn scrolling_down_and_up_leads_back() {
    let bytes = b"\n".repeat(99);
    let mut viewer = test_viewer_from_bytes(&bytes);
    viewer.scroll_down(40, 10);
    assert_eq!(viewer.top_line, 40);
    viewer.scroll_up(15);
    viewer.scroll_down(15, 10);
    assert_eq!(viewer.top_line, 40);
    viewer.scroll_up(40);
    assert_eq!(viewer.top_line, 0);
    viewer.scroll_right(7);
    viewer.scroll_left(3);
    assert_eq!(viewer.left_col, 4);
    viewer.scroll_left(9);
    assert_eq!(viewer.left_col, 0);
}

#[test]
fn selection_has_no_direction() {
    let mut viewer = test_viewer_from_bytes(b"abcdef");
    viewer.selection_anchor = Some(4);
    viewer.selection_focus = Some(1);
    viewer.block_selection_anchor = Some((3, 1));
    viewer.block_selection_focus = Some((2, 5));
    assert_eq!(viewer.selection_range(), Some((1, 4)));
    assert_eq!(viewer.block_selection_range(), Some((2, 3, 1, 5)));
    viewer.selection_focus = Some(4);
    assert_eq!(viewer.selection_range(), None);
    viewer.clear_selection();
    assert_eq!(viewer.block_selection_range(), None);
}

#[test]
fn centres_nothing_without_lines() {
    assert_eq!(centered_top_line(5, 10, 0), 0);
    assert_eq!(centered_top_line(500, 10, 20), 19);
}
