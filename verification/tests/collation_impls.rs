use shore_daemon::memory::collation_impls::{
    extract_json, has_closed_fence, parse_failure, truncate_raw,
};

#[test]
fn extract_json_plain() {
    let input = r#"{"actions":[]}"#;
    assert_eq!(extract_json(input), r#"{"actions":[]}"#);
}

#[test]
fn extract_json_fenced() {
    let input = "```json\n{\"actions\":[]}\n```";
    assert_eq!(extract_json(input), r#"{"actions":[]}"#);
}

#[test]
fn extract_json_fenced_no_lang() {
    let input = "```\n{\"actions\":[]}\n```";
    assert_eq!(extract_json(input), r#"{"actions":[]}"#);
}

#[test]
fn extract_json_with_whitespace() {
    let input = "  \n  {\"actions\":[]}  \n  ";
    assert_eq!(extract_json(input), r#"{"actions":[]}"#);
}

#[test]
fn fences_that_are_not_closed_are_recognised() {
    assert!(has_closed_fence("```json\n{}\n```"));
    assert!(has_closed_fence("no fence"));
    assert!(!has_closed_fence("```json\n{}"));
    assert!(has_closed_fence("``````"));
}

#[test]
fn raw_answers_are_shortened_in_errors() {
    assert_eq!(truncate_raw("hello", 10), "hello");
    assert_eq!(truncate_raw("hello", 2), "he");
    assert_eq!(truncate_raw("héllo", 3), "hé");
    let raw = "x".repeat(600);
    assert_eq!(
        parse_failure("eof", &raw),
        format!("failed to parse refine JSON: eof\nraw response: {}", "x".repeat(500))
    );
}
