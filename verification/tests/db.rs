use shore_daemon::memory::agent::types::{InputField, ToolInput};
use shore_daemon::memory::agent_llm::{extract_tool_uses, ContentBlock};
use shore_daemon::memory::db::{
    default_path, find_entry, fts_status, migration_statements, needs_fts_population,
    needs_fts_rebuild, query_db_readonly, same_ignoring_case, script_statements, upsert_entity,
    EntityUpsert,
};
use shore_daemon::memory::markdown_index::mirror_entry_at;
use shore_daemon::memory::vectorstore;
use shore_daemon::memory::vectorstore::{
    check_dimensions, embed_url, entries_filter, entry_predicate, VectorLen,
};

#[test]
fn only_selections_are_admitted() {
    assert_eq!(query_db_readonly("  select * from entries ").unwrap(), "select * from entries");
    assert_eq!(query_db_readonly("SeLeCt\n1").unwrap(), "SeLeCt\n1");
    for bad in ["", "  ", "DELETE FROM entries", "SELECTED 1", "-- x\nSELECT 1", "SELECT(1)"] {
        assert_eq!(query_db_readonly(bad).unwrap_err(), "Only SELECT queries are allowed");
    }
    assert!(same_ignoring_case("aBc", "AbC"));
    assert!(!same_ignoring_case("é", "É"));
    assert!(!same_ignoring_case("a", "ab"));
}

#[test]
fn migrations_run_once() {
    assert_eq!(
        migration_statements(),
        vec![
            "ALTER TABLE entries ADD COLUMN collated_at TEXT NOT NULL DEFAULT '';",
            "ALTER TABLE entries DROP COLUMN canonical;",
        ]
    );
    let conn = rusqlite::Connection::open_in_memory().unwrap();
    conn.execute_batch("CREATE TABLE entries (id TEXT PRIMARY KEY, canonical TEXT);").unwrap();
    for statement in migration_statements() {
        conn.execute_batch(&statement).unwrap();
    }
    conn.execute_batch("INSERT INTO entries (id, collated_at) VALUES ('a', '');").unwrap();
    for statement in migration_statements() {
        assert!(conn.execute_batch(&statement).is_err());
    }
    assert_eq!(script_statements("-- c\n\n  A; \n--\nB;"), vec!["A;", "B;"]);
}

#[test]
fn the_full_text_index_is_kept_up() {
    assert!(needs_fts_rebuild(&Some("CREATE TABLE x(entry_id, y)".to_string())));
    assert!(!needs_fts_rebuild(&Some("CREATE TABLE x(y)".to_string())));
    assert!(!needs_fts_rebuild(&None));
    assert!(needs_fts_population(0, 3));
    assert!(!needs_fts_population(0, 0));
    assert!(!needs_fts_population(1, 3));
    assert_eq!(fts_status(&None), None);
    assert_eq!(fts_status(&Some("all".to_string())), None);
    assert_eq!(fts_status(&Some("active".to_string())), Some("active".to_string()));
}

#[test]
fn test_entity_upsert_and_changelog() {
    assert!(matches!(upsert_entity("Alice", "A character", &None), EntityUpsert::Insert));
    match upsert_entity("Alice", "An AI", &Some((7, "A character".to_string()))) {
        EntityUpsert::Update { entity_id, changelog } => {
            assert_eq!(entity_id, 7);
            assert_eq!(
                changelog.unwrap(),
                "Entity 'Alice' description changed from 'A character' to 'An AI'"
            );
        }
        _ => panic!("expected an update"),
    }
    assert!(matches!(
        upsert_entity("Alice", "same", &Some((7, "same".to_string()))),
        EntityUpsert::Update { entity_id: 7, changelog: None }
    ));
}

#[test]
fn db_test_default_path() {
    let path = default_path("/home/x/.local/share/shore", "shore");
    assert!(std::path::Path::new(&path).ends_with("shore/shore/memory/memory.db"));
}

#[test]
fn vectorstore_test_default_path() {
    let path = vectorstore::default_path("/home/x/.local/share/shore", "test-char");
    assert!(std::path::Path::new(&path).ends_with("shore/test-char/memory/vectorstore"));
}

#[test]
fn test_dimension_mismatch_returns_error() {
    let v = |id: &str, len: usize| VectorLen { entry_id: id.to_string(), len };
    let err = check_dimensions(&vec![v("e0", 4), v("e1", 3)], 4).unwrap_err();
    assert!(err.contains("3 dimensions"));
    assert!(err.contains("expected 4"));
    assert_eq!(err, "embedding for 'e1' has 3 dimensions, expected 4");
    assert!(check_dimensions(&vec![v("e0", 4)], 4).is_ok());
    assert!(check_dimensions(&vec![], -1).is_ok());
    assert!(check_dimensions(&vec![v("e0", 0)], -1).unwrap_err().ends_with("expected -1"));
}

#[test]
fn vectors_are_found_by_their_entries() {
    assert_eq!(entry_predicate("e1"), "entry_id = 'e1'");
    assert_eq!(entries_filter(&vec![]), None);
    assert_eq!(
        entries_filter(&vec!["a".to_string(), "b".to_string()]).unwrap(),
        "entry_id IN ('a', 'b')"
    );
    assert_eq!(embed_url("http://x"), "http://x/v1/embed");
}

#[test]
fn test_entry_not_found() {
    let e = mirror_entry_at(None, "x".to_string(), "a.md", "c", "r", "n");
    let table = vec![e];
    assert_eq!(find_entry(&table, "x"), Some(0));
    assert_eq!(find_entry(&table, "nonexistent"), None);
}

#[test]
fn tool_arguments_are_read_by_name() {
    let field = |name: &str, text: Option<&str>| InputField {
        name: name.to_string(),
        text: text.map(|t| t.to_string()),
        signed: Some(-1),
        unsigned: None,
        real_bits: Some(0.5f64.to_bits()),
    };
    let args = ToolInput { fields: vec![field("a", Some("x")), field("b", None)], raw: "r".to_string() };
    assert_eq!(args.text("a"), Some("x".to_string()));
    assert_eq!(args.text("b"), None);
    assert_eq!(args.text_or("c", "d"), "d");
    assert_eq!(args.signed("b"), Some(-1));
    assert_eq!(args.unsigned("b"), None);
    assert_eq!(args.real_bits("a"), Some(0.5f64.to_bits()));
    let blocks = vec![
        ContentBlock::Text { text: "t".to_string() },
        ContentBlock::ToolUse { id: "1".to_string(), name: "n".to_string(), input: args.copied() },
    ];
    let calls = extract_tool_uses(&blocks);
    assert_eq!(calls.len(), 1);
    assert_eq!(calls[0].name, "n");
    assert_eq!(calls[0].input.raw, "r");
    assert_eq!(calls[0].copied().id, "1");
}
