use lfv::json::{classify_json_line, JsonTokenClass};
use lfv::xml::{classify_xml_line, XmlTokenClass};

#[test]
fn classifies_xml_tags_and_attributes() {
    let classes = classify_xml_line(br#"<node attr="value">text</node>"#);
    assert_eq!(classes[0], XmlTokenClass::TagDelimiter);
    assert_eq!(classes[1], XmlTokenClass::TagName);
    assert_eq!(classes[6], XmlTokenClass::AttributeName);
    assert_eq!(classes[11], XmlTokenClass::AttributeValue);
    assert_eq!(classes[19], XmlTokenClass::Text);
}

#[test]
fn classifies_xml_comments() {
    let classes = classify_xml_line(br#"<!-- comment --> <node/>"#);
    assert_eq!(classes[0], XmlTokenClass::Comment);
    assert_eq!(classes[10], XmlTokenClass::Comment);
    assert_eq!(classes[16], XmlTokenClass::Text);
    assert_eq!(classes[17], XmlTokenClass::TagDelimiter);
    assert_eq!(classes[18], XmlTokenClass::TagName);
}

#[test]
fn classifies_json_tokens() {
    let json = br#"{"name":"bob","age":42,"ok":true,"v":null}"#;
    let classes = classify_json_line(json);

    let first_colon = json
        .iter()
        .position(|&b| b == b':')
        .expect("json should contain colon");
    let age_index = json
        .windows(3)
        .position(|w| w == b"age")
        .expect("json should contain age");
    let number_index = json
        .iter()
        .position(|&b| b == b'4')
        .expect("json should contain number");
    let true_index = json
        .windows(4)
        .position(|w| w == b"true")
        .expect("json should contain true");
    let null_index = json
        .windows(4)
        .position(|w| w == b"null")
        .expect("json should contain null");

    assert_eq!(classes[0], JsonTokenClass::Delimiter);
    assert_eq!(classes[1], JsonTokenClass::Key);
    assert_eq!(classes[first_colon], JsonTokenClass::Delimiter);
    assert_eq!(classes[age_index], JsonTokenClass::Key);
    assert_eq!(classes[number_index], JsonTokenClass::Number);
    assert_eq!(classes[true_index], JsonTokenClass::Keyword);
    assert_eq!(classes[null_index], JsonTokenClass::Keyword);
}

#[test]
fn classes_cover_every_byte() {
    for line in [b"".as_slice(), b"<", b"<!--", b"<!-- a", b"<a b='c", b"\"abc", b"-", b"tru", b"x"] {
        assert_eq!(classify_xml_line(line).len(), line.len());
        assert_eq!(classify_json_line(line).len(), line.len());
    }
}

#[test]
fn classifies_escapes_and_keywords() {
    let classes = classify_json_line(b"[\"a\\\"b\",true,fals]");
    assert_eq!(classes[1], JsonTokenClass::String);
    assert_eq!(classes[5], JsonTokenClass::String);
    assert_eq!(classes[6], JsonTokenClass::String);
    assert_eq!(classes[7], JsonTokenClass::Delimiter);
    assert_eq!(classes[8], JsonTokenClass::Keyword);
    assert_eq!(classes[11], JsonTokenClass::Keyword);
    assert_eq!(classes[13], JsonTokenClass::Text);
}

#[test]
fn classifies_text_behind_a_comment() {
    let classes = classify_xml_line(b"<!---->t<e/>");
    assert_eq!(classes[6], XmlTokenClass::Comment);
    assert_eq!(classes[7], XmlTokenClass::Text);
    assert_eq!(classes[8], XmlTokenClass::TagDelimiter);
    assert_eq!(classes[9], XmlTokenClass::TagName);
    assert_eq!(classes[10], XmlTokenClass::TagName);
}
