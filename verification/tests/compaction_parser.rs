use shore_daemon::memory::compaction::parser::{
    extract_write_ops, extract_xml_tag, parse_compaction_response,
};

fn make_memory_response() -> String {
    r#"<recap>
The assistant had a pleasant conversation with the user about their day and preferences.
They discussed daily activities and the user's beverage preferences.
</recap>

<memory>
<write path="daily/2026-03-25.md">
# Conversation on 2026-03-25

- User discussed their day
- They mentioned having a busy morning
</write>

<write path="preferences/beverages.md">
# Beverage Preferences

- User prefers tea over coffee
- This is a stable preference
</write>
</memory>"#
        .to_string()
}

#[test]
fn parser_test_extract_xml_tag() {
    let text = "before <recap>hello world</recap> after";
    assert_eq!(extract_xml_tag(text, "recap"), Some("hello world".to_string()));
}

#[test]
fn parser_test_extract_xml_tag_not_found() {
    assert_eq!(extract_xml_tag("no tags here", "recap"), None);
}

#[test]
fn parser_test_extract_xml_tag_empty() {
    assert_eq!(extract_xml_tag("<recap></recap>", "recap"), None);
}

#[test]
fn parser_test_extract_xml_tag_with_whitespace() {
    let text = "<recap>\n  trimmed content  \n</recap>";
    assert_eq!(extract_xml_tag(text, "recap"), Some("trimmed content".to_string()));
}

#[test]
fn parser_test_parse_compaction_response() {
    let raw = make_memory_response();
    let (recap, ops) = parse_compaction_response(&raw).unwrap();

    assert!(recap.is_some());
    assert!(recap.unwrap().contains("pleasant conversation"));
    assert_eq!(ops.len(), 2);
    assert_eq!(ops[0].path, "daily/2026-03-25.md");
    assert!(ops[0].content.contains("User discussed their day"));
    assert_eq!(ops[1].path, "preferences/beverages.md");
    assert!(ops[1].content.contains("User prefers tea"));
}

#[test]
fn test_parse_empty_memory_block() {
    let raw = r#"<recap>The conversation was about cats</recap>

<memory></memory>"#;
    let (recap, ops) = parse_compaction_response(raw).unwrap();
    assert!(recap.is_some());
    assert!(ops.is_empty());
}

#[test]
fn test_parse_no_memory_block() {
    let raw = r#"<recap>The conversation was about cats</recap>"#;
    let (recap, ops) = parse_compaction_response(raw).unwrap();
    assert!(recap.is_some());
    assert!(ops.is_empty());
}

#[test]
fn test_parse_no_recap() {
    let raw = r#"<memory>
<write path="test.md">
- Something happened
</write>
</memory>"#;
    let (recap, ops) = parse_compaction_response(raw).unwrap();
    assert!(recap.is_none());
    assert_eq!(ops.len(), 1);
    assert_eq!(ops[0].path, "test.md");
}

#[test]
fn test_extract_write_ops_with_nested_xml() {
    let text = r#"<write path="test.md">
# Test

- Line with <b>bold</b> text
</write>"#;
    let ops = extract_write_ops(text);
    assert_eq!(ops.len(), 1);
    assert_eq!(ops[0].path, "test.md");
    assert!(ops[0].content.contains("<b>bold</b>"));
}

#[test]
fn test_extract_write_ops_multiple() {
    let text = r#"<write path="a.md">Content A</write>
<write path="b.md">Content B</write>"#;
    let ops = extract_write_ops(text);
    assert_eq!(ops.len(), 2);
    assert_eq!(ops[0].path, "a.md");
    assert_eq!(ops[0].content, "Content A");
    assert_eq!(ops[1].path, "b.md");
    assert_eq!(ops[1].content, "Content B");
}

#[test]
fn test_extract_write_ops_malformed_missing_close() {
    let text = r#"<write path="a.md">Content A"#;
    let ops = extract_write_ops(text);
    assert!(ops.is_empty());
}

#[test]
fn test_extract_write_ops_malformed_missing_path() {
    let text = r#"<write>Content A</write>"#;
    let ops = extract_write_ops(text);
    assert!(ops.is_empty());
}

#[test]
fn test_extract_write_ops_empty_content() {
    let text = r#"<write path="a.md"></write>"#;
    let ops = extract_write_ops(text);
    assert_eq!(ops.len(), 1);
    assert_eq!(ops[0].path, "a.md");
    assert_eq!(ops[0].content, "");
}

#[test]
fn tags_keep_to_their_own_path() {
    let paths = |text: &str| -> Vec<(String, String)> {
        extract_write_ops(text).into_iter().map(|op| (op.path, op.content)).collect()
    };
    let pair = |p: &str, c: &str| (p.to_string(), c.to_string());
    assert_eq!(
        paths(r#"<write mode="x">A</write><write path="b.md">B</write>"#),
        vec![pair("b.md", "B")]
    );
    assert_eq!(
        paths(r#"<write>A</write> and path="c.md" <write path="b.md">B</write>"#),
        vec![pair("b.md", "B")]
    );
    assert_eq!(paths(r#"<write mode="x" path="a.md">A</write>"#), vec![pair("a.md", "A")]);
    assert_eq!(paths(r#"<write xpath="a.md">A</write>"#), vec![]);
    assert_eq!(paths(r#"<write path="a>b.md">A</write>"#), vec![pair("a>b.md", "A")]);
    assert_eq!(paths(r#"<write mode="x>y" path="a.md">A</write>"#), vec![pair("a.md", "A")]);
}

#[test]
fn stray_quotes_lose_no_operation() {
    let paths = |text: &str| -> Vec<(String, String)> {
        extract_write_ops(text).into_iter().map(|op| (op.path, op.content)).collect()
    };
    let pair = |p: &str, c: &str| (p.to_string(), c.to_string());
    assert_eq!(paths(r#"<write path="a" ">C</write>"#), vec![pair("a", "C")]);
    assert_eq!(paths(r#"<write " path="a">C</write>"#), vec![pair("a", "C")]);
    assert_eq!(
        paths(r#"<write path="a" ">5" > 4"</write><write path="b">D</write>"#),
        vec![pair("a", r#"5" > 4""#), pair("b", "D")]
    );
    assert_eq!(
        paths(r#"<write ">A</write><write path="b">B</write>"#),
        vec![pair("b", "B")]
    );
}

#[test]
fn written_operations_survive_a_round_trip() {
    let written = [("notes/a.md", "line one\nline two"), ("b.md", "é — ü")];
    let text: String = written
        .iter()
        .map(|(p, c)| format!("<write path=\"{p}\">{c}</write>"))
        .collect();
    let ops = extract_write_ops(&text);
    assert_eq!(ops.len(), written.len());
    for (op, (p, c)) in ops.iter().zip(written.iter()) {
        assert_eq!(op.path, *p);
        assert_eq!(op.content, *c);
    }
}

#[test]
fn tagged_texts_are_read_back() {
    let text = "a < b <recap> x </rec <b>ap> y </recap> z</recap>";
    assert_eq!(extract_xml_tag(text, "recap"), Some("x </rec <b>ap> y".to_string()));
    assert_eq!(extract_xml_tag("<a>1</a><a>2</a>", "a"), Some("1".to_string()));
    assert_eq!(extract_xml_tag("<a>1", "a"), None);
    assert_eq!(extract_xml_tag("</a><a>1", "a"), None);
}
