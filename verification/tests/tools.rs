use shore_daemon::memory::agent::tool_handlers::{
    create_entry_at, created_reply, entity_reply, execute_tool, failure_reply, flag_reply, found_ids,
    handle_create_entry, handle_create_flag, handle_merge_entity, handle_query_db,
    handle_resolve_flag, handle_search_entries, handle_semantic_search, handle_supersede_entry,
    handle_update_entity, handle_update_entry, infer_topic_key, merge_changelog, merge_names,
    merged_reply, required_entry_id, resolved_confidence, resolved_reply, sanitize_fts_query,
    superseded_reply, update_entry_at, updated_reply, Tool, ToolFailure,
};
use shore_daemon::memory::agent::tool_schemas::{is_write_tool, tool_definitions};
use shore_daemon::memory::agent::types::{InputField, ToolInput};
use shore_daemon::memory::db::Entry;

fn text(name: &str, value: &str) -> InputField {
    InputField {
        name: name.to_string(),
        text: Some(value.to_string()),
        signed: None,
        unsigned: None,
        real_bits: None,
    }
}

fn number(name: &str, value: i64) -> InputField {
    InputField {
        name: name.to_string(),
        text: None,
        signed: Some(value),
        unsigned: if value >= 0 { Some(value as u64) } else { None },
        real_bits: Some((value as f64).to_bits()),
    }
}

fn real_number(name: &str, value: f64) -> InputField {
    InputField {
        name: name.to_string(),
        text: None,
        signed: None,
        unsigned: None,
        real_bits: Some(value.to_bits()),
    }
}

fn input(fields: Vec<InputField>) -> ToolInput {
    ToolInput { fields, raw: "{}".to_string() }
}

fn make_entry(id: &str, summary: &str) -> Entry {
    let now = "2026-01-01T00:00:00+00:00";
    Entry {
        id: id.to_string(),
        memory_type: "semantic".to_string(),
        source: "agent".to_string(),
        reason: "test".to_string(),
        status: "active".to_string(),
        confidence_bits: 0.9f64.to_bits(),
        summary_text: summary.to_string(),
        topic_tags: "test".to_string(),
        topic_key: "test".to_string(),
        start_timestamp: now.to_string(),
        end_timestamp: now.to_string(),
        message_count: 0,
        source_entry_ids: String::new(),
        related_entry_ids: String::new(),
        superseded_by: String::new(),
        created_at: now.to_string(),
        updated_at: now.to_string(),
        entry_type: String::new(),
        image_path: String::new(),
        collated_at: String::new(),
        file_path: String::new(),
    }
}

#[test]
fn search_entries_empty_query_error() {
    let result = handle_search_entries(&input(vec![text("query", "")]));
    assert!(result.is_err());
    assert!(result.unwrap_err().contains("empty"));
}

#[test]
fn search_entries_no_results() {
    let search = handle_search_entries(&input(vec![text("query", "nonexistent")])).unwrap();
    assert_eq!(search.fts_query, "nonexistent");
    assert_eq!(search.status, Some("active".to_string()));
    assert_eq!(search.limit, 20);
}

#[test]
fn search_entries_status_filter() {
    let all = handle_search_entries(&input(vec![text("query", "tea"), text("status", "all")])).unwrap();
    assert_eq!(all.status, None);
    let old = handle_search_entries(&input(vec![text("query", "tea"), text("status", "superseded")]))
        .unwrap();
    assert_eq!(old.status, Some("superseded".to_string()));
    assert_eq!(
        handle_search_entries(&input(vec![text("query", "the is a")])).unwrap_err(),
        "Error: query produced no searchable terms"
    );
}

#[test]
fn sanitize_simple_keywords() {
    assert_eq!(sanitize_fts_query("gemini live"), "gemini OR live");
}

#[test]
fn sanitize_strips_stop_words() {
    let result = sanitize_fts_query("ren trying voice or video chat with qifei");
    assert_eq!(result, "ren OR voice OR video OR chat OR qifei");
}

#[test]
fn sanitize_strips_fts_operators() {
    assert_eq!(sanitize_fts_query("cats AND dogs"), "cats OR dogs");
    assert_eq!(sanitize_fts_query("NOT bad"), "bad");
}

#[test]
fn sanitize_preserves_quoted_phrases() {
    let q = r#""gemini live" voice"#;
    assert_eq!(sanitize_fts_query(q), q);
}

#[test]
fn sanitize_all_stop_words_returns_empty() {
    assert_eq!(sanitize_fts_query("the is a"), "");
}

#[test]
fn sanitize_natural_language_query() {
    let result = sanitize_fts_query(
        "ren trying voice or video chat with qifei, streaming video, voice interaction",
    );
    assert!(result.contains("voice"));
    assert!(result.contains("video"));
    assert!(result.contains("qifei"));
    assert!(result.contains("streaming"));
    assert!(result.contains("interaction"));
    assert!(!result.contains("trying"));
    assert!(!result.contains("with"));
    for part in result.split(" OR ") {
        assert!(!part.is_empty());
    }
}

#[test]
fn sanitize_handles_punctuation() {
    assert_eq!(sanitize_fts_query("hello, world!"), "hello OR world");
}

#[test]
fn sanitize_keeps_letters_of_other_scripts() {
    assert_eq!(sanitize_fts_query("Über-Café THE Near"), "Über OR Café");
    assert_eq!(sanitize_fts_query("don't snake_case"), "don't OR snake_case");
}

#[test]
fn sanitized_queries_stay_as_they_are() {
    for raw in ["what is the tea-time of Bob?", "tea", "", "a OR b AND c", "Über-Café THE Near"] {
        let once = sanitize_fts_query(raw);
        assert_eq!(sanitize_fts_query(&once), once);
    }
}

#[test]
fn semantic_search_limits() {
    let s = handle_semantic_search(&input(vec![text("query", "  tea ")]), true).unwrap();
    assert_eq!((s.query.as_str(), s.top_k, s.fetch_k), ("tea", 10, 30));
    let s = handle_semantic_search(&input(vec![text("query", "tea"), number("top_k", 99)]), true).unwrap();
    assert_eq!((s.top_k, s.fetch_k), (50, 150));
    let s = handle_semantic_search(&input(vec![text("query", "tea"), number("top_k", 3)]), true).unwrap();
    assert_eq!((s.top_k, s.fetch_k), (3, 9));
    assert_eq!(
        handle_semantic_search(&input(vec![text("query", " ")]), true).unwrap_err(),
        "Error: empty search query"
    );
    assert_eq!(
        handle_semantic_search(&input(vec![text("query", "tea")]), false).unwrap_err(),
        "Semantic search unavailable: no embedding model configured. Use search_entries instead."
    );
}

#[test]
fn found_ids_are_distinct() {
    let a = vec!["e1".to_string(), "e2".to_string()];
    let b = vec!["e2".to_string(), "e3".to_string()];
    assert_eq!(found_ids(&a, &b), vec!["e1", "e2", "e3"]);
    assert!(found_ids(&vec![], &vec![]).is_empty());
}

#[test]
fn query_db_select_works() {
    let sql = "SELECT id, summary_text FROM entries WHERE id = 'e1'";
    assert_eq!(handle_query_db(&input(vec![text("sql", sql)])).unwrap(), sql);
    assert_eq!(
        handle_query_db(&input(vec![text("sql", "  select 1  ")])).unwrap(),
        "select 1"
    );
}

#[test]
fn query_db_blocks_delete() {
    let result = handle_query_db(&input(vec![text("sql", "DELETE FROM entries")]));
    assert!(result.is_err());
    assert!(result.unwrap_err().contains("SELECT"));
}

#[test]
fn query_db_empty_sql_error() {
    let result = handle_query_db(&input(vec![text("sql", "")]));
    assert!(result.is_err());
}

#[test]
fn create_entry_generates_id() {
    let args = input(vec![
        text("summary_text", "Alice likes chocolate"),
        text("topic_tags", "food, preferences"),
        text("reason", "test"),
    ]);
    let created = handle_create_entry(&args).unwrap();
    let reply = created_reply(&created.entry.id);
    assert!(reply.starts_with("Created entry "));
    assert!(created.entry.id.ends_with("_0"));
    assert_eq!(created.entry.summary_text, "Alice likes chocolate");
    assert_eq!(created.entry.source, "agent");
    assert_eq!(f64::from_bits(created.entry.confidence_bits), 0.9);
    assert_eq!(created.entry.topic_key, "food");
    assert_eq!(created.entry.created_at, created.entry.updated_at);
    let made = chrono::DateTime::parse_from_rfc3339(&created.entry.created_at).unwrap();
    assert_eq!(created.entry.id, format!("{}_0", made.format("%Y%m%d_%H%M%S")));

    let at = create_entry_at(&args, "20260101_000000", "2026-01-01T00:00:00+00:00").unwrap();
    assert_eq!(at.entry.id, "20260101_000000_0");
    assert_eq!(at.entry.start_timestamp, "2026-01-01T00:00:00+00:00");
    assert_eq!(at.reason, "test");
    assert_eq!(at.entry.memory_type, "semantic");
}

#[test]
fn create_entry_empty_summary_error() {
    let result = handle_create_entry(&input(vec![text("summary_text", ""), text("reason", "test")]));
    assert!(result.is_err());
}

#[test]
fn update_entry_partial_update() {
    let args = input(vec![
        text("entry_id", "e1"),
        text("summary_text", "Alice loves dark chocolate"),
        text("reason", "correction"),
    ]);
    assert_eq!(required_entry_id(&args).unwrap(), "e1");
    let update = handle_update_entry(&args, "e1", Some(make_entry("e1", "Alice likes chocolate"))).unwrap();
    assert_eq!(updated_reply("e1", 1).unwrap(), "Updated e1");
    assert_eq!(update.entry.summary_text, "Alice loves dark chocolate");
    assert_eq!(f64::from_bits(update.entry.confidence_bits), 0.9);
    assert_eq!(update.reason, "correction");
    assert!(chrono::DateTime::parse_from_rfc3339(&update.entry.updated_at).is_ok());
}

#[test]
fn update_entry_not_found() {
    let args = input(vec![
        text("entry_id", "nonexistent"),
        text("summary_text", "whatever"),
        text("reason", "test"),
    ]);
    let result = handle_update_entry(&args, "nonexistent", None);
    assert!(result.is_err());
    assert!(result.unwrap_err().contains("not found"));
    assert_eq!(updated_reply("e7", 0).unwrap_err(), "Entry e7 not found");
}

#[test]
fn update_entry_no_fields_error() {
    let args = input(vec![text("entry_id", "e1"), text("reason", "test")]);
    let result = handle_update_entry(&args, "e1", Some(make_entry("e1", "test")));
    assert!(result.is_err());
    assert!(result.unwrap_err().contains("no fields"));
    assert_eq!(
        required_entry_id(&input(vec![])).unwrap_err(),
        "Error: entry_id required"
    );
}

#[test]
fn update_entry_changes_what_is_given() {
    let args = input(vec![real_number("confidence", 0.25), text("memory_type", "episodic"), text("topic_tags", "x")]);
    let u = update_entry_at(&args, "e1", Some(make_entry("e1", "fact")), "later").unwrap();
    assert_eq!(f64::from_bits(u.entry.confidence_bits), 0.25);
    assert_eq!(u.entry.memory_type, "episodic");
    assert_eq!(u.entry.topic_tags, "x");
    assert_eq!(u.entry.summary_text, "fact");
    assert_eq!(u.entry.updated_at, "later");
    assert_eq!(u.entry.created_at, "2026-01-01T00:00:00+00:00");
}

#[test]
fn supersede_entry_marks_old() {
    let args = input(vec![
        text("entry_id", "e1"),
        text("superseded_by", "e2"),
        text("reason", "correction"),
    ]);
    let s = handle_supersede_entry(&args).unwrap();
    assert_eq!(s.entry_id, "e1");
    assert_eq!(s.superseded_by, "e2");
    assert_eq!(superseded_reply("e1", 1).unwrap(), "Superseded e1");
    assert_eq!(superseded_reply("e1", 0).unwrap_err(), "Entry e1 not found");
    assert_eq!(handle_supersede_entry(&input(vec![])).unwrap_err(), "Error: entry_id required");
}

#[test]
fn update_entity_creates_new() {
    let u = handle_update_entity(&input(vec![
        text("name", "Alice"),
        text("type", "person"),
        text("description", "A friend"),
    ]))
    .unwrap();
    assert_eq!(u.name, "Alice");
    assert_eq!(u.entity_type, "person");
    assert_eq!(u.changelog, "Memory agent updated entity 'Alice'");
    assert!(entity_reply("Alice", 3).contains("Updated entity 'Alice'"));
    assert_eq!(entity_reply("Alice", 3), "Updated entity 'Alice' (id=3)");
    assert_eq!(handle_update_entity(&input(vec![text("name", " ")])).unwrap_err(), "Error: name required");
}

#[test]
fn merge_entity_reassigns_links() {
    let args = input(vec![text("from_name", "Rosa"), text("to_name", "Rosa Do")]);
    let (from, to) = merge_names(&args).unwrap();
    let (a, b) = handle_merge_entity(&from, Some(1), &to, Some(2)).unwrap();
    assert_eq!((a, b), (1, 2));
    let reply = merged_reply(&from, &to, 0);
    assert!(reply.contains("Merged 'Rosa' into 'Rosa Do'"));
    assert_eq!(reply, "Merged 'Rosa' into 'Rosa Do': 0 entries re-linked");
    assert_eq!(
        merge_changelog("Rosa", 1, "Rosa Do", 2, 5),
        "Merged 'Rosa' (id=1) into 'Rosa Do' (id=2), re-linked 5 entries"
    );
}

#[test]
fn merge_entity_not_found() {
    let result = handle_merge_entity("Nonexistent", None, "Rosa Do", Some(1));
    assert!(result.is_err());
    assert!(result.unwrap_err().contains("not found"));
    assert_eq!(
        handle_merge_entity("Rosa", Some(1), "Nobody", None).unwrap_err(),
        "Error: entity 'Nobody' not found"
    );
    assert_eq!(
        handle_merge_entity("Rosa", Some(1), "rosa", Some(1)).unwrap_err(),
        "Error: 'Rosa' and 'rosa' are the same entity"
    );
    assert_eq!(
        merge_names(&input(vec![text("from_name", "x")])).unwrap_err(),
        "Error: from_name and to_name required"
    );
}

#[test]
fn resolve_flag_boosts_confidence() {
    let f = handle_resolve_flag(&input(vec![
        number("flag_id", 4),
        text("resolution", "confirmed correct"),
    ]))
    .unwrap();
    assert_eq!(f.flag_id, 4);
    assert_eq!(f.changelog, "Resolved flag 4: confirmed correct");
    assert!(resolved_reply(f.flag_id).contains("Resolved flag 4"));
    assert!((f64::from_bits(resolved_confidence(0.5f64.to_bits())) - 0.8).abs() < 0.001);
    assert_eq!(handle_resolve_flag(&input(vec![])).unwrap_err(), "Error: flag_id required");
}

#[test]
fn resolve_flag_preserves_high_confidence() {
    assert!((f64::from_bits(resolved_confidence(0.9f64.to_bits())) - 0.9).abs() < 0.001);
    assert_eq!(f64::from_bits(resolved_confidence(1.5f64.to_bits())), 1.0);
}

#[test]
fn create_flag_works() {
    let f = handle_create_flag(&input(vec![
        text("entry_id", "e1"),
        text("flag_type", "contradiction"),
        text("reason", "conflicts with something"),
    ]))
    .unwrap();
    let reply = flag_reply(1, &f.flag_type, &f.entry_id);
    assert!(reply.contains("Created flag"));
    assert!(reply.contains("contradiction"));
    assert!(reply.contains("e1"));
    assert_eq!(flag_reply(-9223372036854775808, "stale", "e2"), "Created flag -9223372036854775808 (stale) on e2");
    assert_eq!(
        handle_create_flag(&input(vec![text("entry_id", "e1")])).unwrap_err(),
        "Error: entry_id and flag_type required"
    );
}

#[test]
fn topic_key_from_tags() {
    assert_eq!(infer_topic_key("food, preferences", "whatever"), "food");
}

#[test]
fn topic_key_from_summary_fallback() {
    assert_eq!(infer_topic_key("", "Alice likes dark chocolate"), "alice_likes_dark");
}

#[test]
fn topic_key_is_cleaned() {
    assert_eq!(infer_topic_key(" , Board Games!, x", "whatever"), "board_games");
    assert_eq!(infer_topic_key("", "Hi, you"), "hi_you");
}

#[test]
fn tool_definitions_returns_9_tools() {
    let tools = tool_definitions();
    assert_eq!(tools.len(), 9);
    let names: Vec<&str> = tools.iter().map(|t| t.name.as_str()).collect();
    assert!(names.contains(&"search_entries"));
    assert!(names.contains(&"query_db"));
    assert!(names.contains(&"create_entry"));
    assert!(names.contains(&"update_entry"));
    assert!(names.contains(&"supersede_entry"));
    assert!(names.contains(&"update_entity"));
    assert!(names.contains(&"merge_entity"));
    assert!(names.contains(&"resolve_flag"));
    assert!(names.contains(&"create_flag"));
    for tool in &tools {
        assert!(execute_tool(&tool.name).is_ok());
        for required in &tool.required {
            assert!(tool.properties.iter().any(|p| &p.name == required));
        }
    }
}

#[test]
fn write_tools_classification() {
    assert!(is_write_tool("create_entry"));
    assert!(is_write_tool("update_entry"));
    assert!(is_write_tool("supersede_entry"));
    assert!(is_write_tool("merge_entity"));
    assert!(is_write_tool("resolve_flag"));
    assert!(!is_write_tool("search_entries"));
    assert!(!is_write_tool("query_db"));
}

#[test]
fn tools_are_found_by_name() {
    assert_eq!(execute_tool("search_entries").unwrap(), Tool::SearchEntries);
    assert_eq!(execute_tool("semantic_search").unwrap(), Tool::SemanticSearch);
    assert_eq!(execute_tool("merge_entity").unwrap(), Tool::MergeEntity);
    assert_eq!(execute_tool("drop_table").unwrap_err(), "Unknown tool: drop_table");
    assert_eq!(failure_reply(ToolFailure::Db, "locked"), "DB error: locked");
    assert_eq!(failure_reply(ToolFailure::Search, "x"), "Search error: x");
    assert_eq!(failure_reply(ToolFailure::Sql, "x"), "SQL error: x");
    assert_eq!(failure_reply(ToolFailure::Json, "x"), "JSON error: x");
    assert_eq!(failure_reply(ToolFailure::Bm25Init, "x"), "BM25 init error: x");
    assert_eq!(failure_reply(ToolFailure::Embedding, "x"), "Embedding error: x");
    assert_eq!(failure_reply(ToolFailure::VectorSearch, "x"), "Vector search error: x");
}
