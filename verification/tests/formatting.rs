use lfv::json_format::format_json_for_display;
use lfv::xml_format::{
    extract_tag_name, format_xml_for_display, matching_tag_names, push_indented_xml_line,
    trim_ascii_whitespace, trim_ascii_whitespace_range, xml_tag_bounds, xml_tokens,
};

#[test]
fn formats_single_line_xml_into_indented_lines() {
    let xml = br#"<root><parent><child/></parent><value>text</value></root>"#;
    let formatted = format_xml_for_display(xml);
    let formatted = String::from_utf8(formatted).expect("formatted xml should be utf8");
    let expected = "<root>\n  <parent>\n    <child/>\n  </parent>\n  <value>text</value>\n</root>";
    assert_eq!(formatted, expected);
}

#[test]
fn formats_xml_with_comments_and_header() {
    let xml = br#"<?xml version="1.0"?><root><!-- comment --><node/></root>"#;
    let formatted = format_xml_for_display(xml);
    let formatted = String::from_utf8(formatted).expect("formatted xml should be utf8");
    let expected = "<?xml version=\"1.0\"?>\n<root>\n  <!-- comment -->\n  <node/>\n</root>";
    assert_eq!(formatted, expected);
}

#[test]
fn formats_json_into_pretty_lines() {
    let json = br#"{"item":"Test","count":2,"ok":true,"arr":[1,2]}"#;
    let formatted = format_json_for_display(json).expect("json should format");
    let formatted = String::from_utf8(formatted).expect("formatted json should be utf8");
    let expected = "{\n  \"item\": \"Test\",\n  \"count\": 2,\n  \"ok\": true,\n  \"arr\": [\n    1,\n    2\n  ]\n}";
    assert_eq!(formatted, expected);
}

#[test]
fn invalid_json_does_not_format() {
    assert!(format_json_for_display(br#"{"bad":"unterminated}"#).is_none());
}

#[test]
fn formats_nothing() {
    assert_eq!(format_xml_for_display(b""), b"\n");
    assert_eq!(format_xml_for_display(b" \t\r\n"), b"\n");
    assert_eq!(format_json_for_display(b""), Some(Vec::new()));
}

#[test]
fn formats_xml_with_quotes_and_unmatched_tags() {
    assert_eq!(
        format_xml_for_display(b"<a x='1 > 0'><b/><c>t</d></a>"),
        b"<a x='1 > 0'>\n  <b/>\n  <c>\n    t\n  </d>\n</a>"
    );
    assert_eq!(format_xml_for_display(b"</a></b>x"), b"</a>\n</b>\nx");
    assert_eq!(format_xml_for_display(b"<open"), b"<open");
}

#[test]
fn formatting_xml_twice_changes_nothing_more() {
    let once = format_xml_for_display(b"<?xml?><a> <b>1</b>\n<c></c>text</a>");
    assert_eq!(once, b"<?xml?>\n<a>\n  <b>1</b>\n  <c>\n  </c>\n  text\n</a>");
    assert_eq!(format_xml_for_display(&once), once);
}

#[test]
fn formatting_json_twice_changes_nothing_more() {
    let once = format_json_for_display(b"{\"a\":[1,{\"b\":\"x, \\\"y\\\" :\"}],\"c\":null}")
        .expect("closed");
    assert_eq!(
        once,
        b"{\n  \"a\": [\n    1,\n    {\n      \"b\": \"x, \\\"y\\\" :\"\n    }\n  ],\n  \"c\": null\n}"
    );
    assert_eq!(format_json_for_display(&once), Some(once));
}

#[test]
fn layout_of_json_does_not_matter() {
    let wide = b"{ \"a\" :\n[ 1 ,\t2 ] }";
    assert_eq!(format_json_for_display(wide), format_json_for_display(b"{\"a\":[1,2]}"));
}

#[test]
fn json_that_is_left_open_is_not_formatted() {
    assert_eq!(format_json_for_display(b"\"abc"), None);
    assert_eq!(format_json_for_display(b"\"abc\\\""), None);
    assert_eq!(format_json_for_display(b"[1"), None);
    assert_eq!(format_json_for_display(b"]"), Some(b"\n]".to_vec()));
}

#[test]
fn finds_where_a_tag_ends() {
    assert_eq!(xml_tag_bounds(b"<a>x", 0), (3, false, true, false));
    assert_eq!(xml_tag_bounds(b"x</a>", 1), (5, true, false, false));
    assert_eq!(xml_tag_bounds(b"<a b='>' / >", 0), (12, false, true, true));
    assert_eq!(xml_tag_bounds(b"<!-- x -->", 0), (10, false, false, false));
    assert_eq!(xml_tag_bounds(b"<?x?>", 0), (5, false, false, false));
    assert_eq!(xml_tag_bounds(b"<a", 0), (2, false, true, false));
}

#[test]
fn reads_tag_names() {
    assert_eq!(extract_tag_name(b"<ab c='d'>", 0, 10, false), b"ab");
    assert_eq!(extract_tag_name(b"</ab >", 0, 6, true), b"ab");
    assert_eq!(extract_tag_name(b"</ab>", 0, 5, false), b"");
    assert_eq!(extract_tag_name(b"<>", 0, 2, false), b"");
    let bytes = b"<a b='1'></a></b>";
    let tokens = xml_tokens(bytes);
    assert_eq!(tokens.len(), 3);
    assert!(matching_tag_names(bytes, tokens[0], tokens[1]));
    assert!(!matching_tag_names(bytes, tokens[0], tokens[2]));
}

#[test]
fn trims_ascii_whitespace() {
    assert_eq!(trim_ascii_whitespace(b" \t a b\r\n"), b"a b");
    assert_eq!(trim_ascii_whitespace(b"\x0b"), b"\x0b");
    assert_eq!(trim_ascii_whitespace(b" \x0c "), b"");
    assert_eq!(trim_ascii_whitespace_range(b"<a> x y </a>", 3, 8), (4, 7));
    assert_eq!(trim_ascii_whitespace_range(b"<a>   </a>", 3, 6), (3, 3));
}

#[test]
fn indents_lines() {
    let mut out = b"x".to_vec();
    push_indented_xml_line(&mut out, 2, b"<a>");
    assert_eq!(out, b"x    <a>\n");
}
