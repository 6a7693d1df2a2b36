use shore_daemon::memory::compaction::background::{
    collates_after_compaction, compaction_answer, completion_notice, notification_title, record_lines,
    to_conversation_message, StoredMessage,
};
use shore_daemon::memory::compaction::entries::{
    extract_all_xml_tags, parse_compaction_response, DEFAULT_ENTRY_PROMPT,
};
use shore_daemon::memory::compaction::parser::{extract_xml_tag, DEFAULT_COMPACT_PROMPT};
use shore_daemon::memory::compaction::types::{
    CompactedEntry, CompactionConfig, CompactionError, CompactionOutcome, ConversationMessage,
};
use shore_daemon::memory::compaction::{
    can_fill, compaction_changelog, CompactionManager, CompactionPlan, CompactionStep,
};
use shore_daemon::memory::agent_llm::ContentBlock;
use shore_daemon::memory::db::Entry;

fn message(role: &str, content: &str, timestamp: &str, is_tool_result_only: bool) -> ConversationMessage {
    ConversationMessage {
        role: role.to_string(),
        content: content.to_string(),
        timestamp: timestamp.to_string(),
        is_tool_result_only,
    }
}

fn make_messages(count: usize) -> Vec<ConversationMessage> {
    (0..count)
        .map(|i| {
            let role = if i % 2 == 0 { "user" } else { "assistant" };
            message(role, &format!("Message {i}"), &format!("2026-03-25T10:00:{i:02}Z"), false)
        })
        .collect()
}

fn make_xml_response() -> String {
    r#"<recap>
The assistant had a pleasant conversation with the user about their day and preferences.
They discussed daily activities and the user's beverage preferences.
</recap>

<entry>
<summary>
- User discussed their day
- They mentioned having a busy morning
</summary>
<topic_tags>daily, personal</topic_tags>
<memory_type>episodic</memory_type>
</entry>

<entry>
<summary>
- User prefers tea over coffee
- This is a stable preference
</summary>
<topic_tags>preference, food</topic_tags>
<memory_type>semantic</memory_type>
</entry>"#
        .to_string()
}

fn make_config_with_keep(keep_recent_turns: usize) -> CompactionConfig {
    CompactionConfig { keep_recent_turns, ..Default::default() }
}

fn plan(keep: usize, count: usize, template: &str) -> CompactionPlan {
    let mgr = CompactionManager::new(make_config_with_keep(keep));
    mgr.compact(&make_messages(count), false, template, None, "TestChar", "TestUser").unwrap()
}

fn parsed() -> (Option<String>, Vec<CompactedEntry>) {
    parse_compaction_response(&make_xml_response()).unwrap()
}

fn ids(entries: &[Entry]) -> Vec<String> {
    entries.iter().map(|e| e.id.clone()).collect()
}

#[test]
fn compaction_test_extract_xml_tag() {
    let text = "before <recap>hello world</recap> after";
    assert_eq!(extract_xml_tag(text, "recap"), Some("hello world".to_string()));
}

#[test]
fn compaction_test_extract_xml_tag_not_found() {
    assert_eq!(extract_xml_tag("no tags here", "recap"), None);
}

#[test]
fn compaction_test_extract_xml_tag_empty() {
    assert_eq!(extract_xml_tag("<recap></recap>", "recap"), None);
}

#[test]
fn compaction_test_extract_xml_tag_with_whitespace() {
    let text = "<recap>\n  trimmed content  \n</recap>";
    assert_eq!(extract_xml_tag(text, "recap"), Some("trimmed content".to_string()));
}

#[test]
fn test_extract_all_xml_tags() {
    let text = "<entry>first</entry> middle <entry>second</entry>";
    let results = extract_all_xml_tags(text, "entry");
    assert_eq!(results, vec!["first", "second"]);
}

#[test]
fn compaction_test_parse_compaction_response() {
    let raw = make_xml_response();
    let (recap, entries) = parse_compaction_response(&raw).unwrap();

    assert!(recap.is_some());
    assert!(recap.unwrap().contains("pleasant conversation"));
    assert_eq!(entries.len(), 2);
    assert!(entries[0].summary_text.contains("User discussed their day"));
    assert_eq!(entries[0].memory_type, "episodic");
    assert_eq!(entries[0].topic_tags, "daily, personal");
    assert!(entries[1].summary_text.contains("User prefers tea"));
    assert_eq!(entries[1].memory_type, "semantic");
    assert_eq!(entries[1].topic_key, "preference");
    assert_eq!(f64::from_bits(entries[1].confidence_bits), 0.9);
}

#[test]
fn test_parse_compaction_response_no_entries() {
    let raw = "<recap>Just a recap</recap>";
    let result = parse_compaction_response(raw);
    assert!(matches!(result, Err(CompactionError::Parse(_))));
}

#[test]
fn test_parse_compaction_response_no_recap() {
    let raw = r#"<entry>
<summary>- Something happened</summary>
<topic_tags>test</topic_tags>
<memory_type>episodic</memory_type>
</entry>"#;
    let (recap, entries) = parse_compaction_response(raw).unwrap();
    assert!(recap.is_none());
    assert_eq!(entries.len(), 1);
}

#[test]
fn compaction_test_build_prompt_no_recap() {
    let messages = vec![
        message("user", "Hello!", "2026-03-25T10:00:00Z", false),
        message("assistant", "Hi there!", "2026-03-25T10:00:01Z", false),
    ];
    let prompt =
        CompactionManager::build_prompt("Template:\n{{conversation}}", &messages, None, "Char", "User");
    assert!(prompt.contains("[2026-03-25T10:00:00Z] user: Hello!"));
    assert!(prompt.contains("[2026-03-25T10:00:01Z] assistant: Hi there!"));
    assert!(!prompt.contains("{{conversation}}"));
}

#[test]
fn compaction_test_build_prompt_with_recap() {
    let messages = make_messages(2);
    let template = "Before\n{{#if recap}}RECAP: {{recap}}{{/if}}\nAfter\n{{conversation}}";
    let prompt =
        CompactionManager::build_prompt(template, &messages, Some("Previous events."), "Char", "User");
    assert!(prompt.contains("RECAP: Previous events."));
    assert!(!prompt.contains("{{#if recap}}"));
    assert!(!prompt.contains("{{/if}}"));
}

#[test]
fn compaction_test_build_prompt_recap_stripped_when_none() {
    let messages = make_messages(2);
    let template = "Before\n{{#if recap}}RECAP: {{recap}}{{/if}}\nAfter\n{{conversation}}";
    let prompt = CompactionManager::build_prompt(template, &messages, None, "Char", "User");
    assert!(!prompt.contains("RECAP"));
    assert!(!prompt.contains("{{#if recap}}"));
    assert!(prompt.contains("Before"));
    assert!(prompt.contains("After"));
}

#[test]
fn compaction_test_should_force_compact() {
    let mgr = CompactionManager::new(CompactionConfig {
        max_turns: 60,
        min_turns: 20,
        keep_recent_turns: 2,
        ..Default::default()
    });
    assert!(!mgr.should_force_compact(0));
    assert!(!mgr.should_force_compact(19));
    assert!(!mgr.should_force_compact(59));
    assert!(mgr.should_force_compact(60));
    assert!(mgr.should_force_compact(100));
}

#[test]
fn compaction_test_should_force_compact_disabled() {
    let mgr = CompactionManager::new(CompactionConfig { max_turns: 0, ..Default::default() });
    assert!(!mgr.should_force_compact(1000));
}

#[test]
fn compaction_test_has_enough_turns() {
    let mgr = CompactionManager::new(CompactionConfig {
        min_turns: 20,
        keep_recent_turns: 2,
        ..Default::default()
    });
    assert!(!mgr.has_enough_turns(0));
    assert!(!mgr.has_enough_turns(19));
    assert!(mgr.has_enough_turns(20));
    assert!(mgr.has_enough_turns(100));
}

#[test]
fn compaction_test_find_turn_split_skips_tool_result_messages() {
    let messages = vec![
        message("user", "Hello", "t0", false),
        message("assistant", "", "t1", false),
        message("user", "tool output here", "t2", true),
        message("assistant", "Based on the tool result...", "t3", false),
        message("user", "Thanks!", "t4", false),
        message("assistant", "You're welcome!", "t5", false),
    ];
    assert_eq!(CompactionManager::find_turn_split(&messages, 1), 4);
    assert_eq!(CompactionManager::find_turn_split(&messages, 2), 0);
}

#[test]
fn compaction_test_find_turn_split_all_tool_results_returns_zero() {
    let messages = vec![
        message("user", "tool output", "t0", true),
        message("assistant", "response", "t1", false),
    ];
    assert_eq!(CompactionManager::find_turn_split(&messages, 1), 0);
}

#[test]
fn compaction_test_compact_creates_entries() {
    let plan = plan(2, 10, DEFAULT_ENTRY_PROMPT);
    let (recap, compacted) = parsed();
    let entries = plan.new_entries(&compacted);
    let r = plan.result("conv-1", "new-conv-1".to_string(), ids(&entries), &recap);
    assert_eq!(r.entries_created.len(), 2);
    assert_eq!(r.conversation_id, "conv-1");
    assert_eq!(r.new_conversation_id, "new-conv-1");
    assert_eq!(r.message_count, 6);
    assert_eq!(r.retained_count, 4);
    assert!(r.recap_generated);
    assert_ne!(r.entries_created[0], r.entries_created[1]);
    for entry in &entries {
        assert_eq!(entry.reason, "compaction");
        assert_eq!(entry.source, "summary");
        assert_eq!(entry.status, "active");
        assert_eq!(entry.message_count, 6);
    }
}

#[test]
fn compaction_test_compact_indexes_to_vector_store() {
    let plan = plan(2, 10, DEFAULT_ENTRY_PROMPT);
    let entries = plan.new_entries(&parsed().1);
    assert_eq!(entries.len(), 2);
    assert!(entries[0].summary_text.contains("User discussed their day"));
    assert!(entries[1].summary_text.contains("User prefers tea"));
}

#[test]
fn compaction_test_compact_records_changelog() {
    let plan = plan(2, 10, DEFAULT_ENTRY_PROMPT);
    let entries = plan.new_entries(&parsed().1);
    let logs: Vec<String> = entries.iter().map(|e| compaction_changelog("conv-1", &e.id)).collect();
    assert_eq!(logs.len(), 2);
    assert!(logs.iter().all(|l| l.contains("conv-1")));
    assert!(logs[0].ends_with(&entries[0].id));
}

#[test]
fn compaction_test_compact_archives_with_retention() {
    let plan = plan(3, 10, DEFAULT_ENTRY_PROMPT);
    let (recap, _) = parsed();
    let r = plan.result("old-conv", "new-conv-2".to_string(), vec![], &recap);
    assert_eq!(r.new_conversation_id, "new-conv-2");
    assert_eq!(r.retained_count, 6);
    let params = plan.retention(recap, "content".to_string());
    assert_eq!(params.keep_last_n, 6);
    assert_eq!(params.active_content, "content");
}

#[test]
fn compaction_test_private_conversation_skips_compaction() {
    let mgr = CompactionManager::new(CompactionConfig::default());
    let result = mgr.compact(&make_messages(10), true, DEFAULT_ENTRY_PROMPT, None, "TestChar", "TestUser");
    assert!(matches!(result, Err(CompactionError::PrivateConversation)));
}

#[test]
fn compaction_test_compact_dry_run() {
    let plan = plan(2, 10, DEFAULT_ENTRY_PROMPT);
    let (recap, compacted) = parsed();
    let r = plan.dry_run(recap, compacted);
    assert_eq!(r.would_create_entries, 2);
    assert_eq!(r.message_count, 6);
    assert_eq!(r.retained_count, 4);
    assert_eq!(r.entries_preview.len(), 2);
    assert!(r.recap_preview.is_some());
}

#[test]
fn compaction_test_compact_empty_messages() {
    let mgr = CompactionManager::new(CompactionConfig::default());
    let result = mgr.compact(&[], false, DEFAULT_ENTRY_PROMPT, None, "TestChar", "TestUser");
    assert!(matches!(result, Err(CompactionError::InsufficientMessages)));
}

#[test]
fn compaction_test_compact_fewer_than_keep_recent_turns() {
    let mgr = CompactionManager::new(make_config_with_keep(10));
    let result = mgr.compact(&make_messages(5), false, DEFAULT_ENTRY_PROMPT, None, "TestChar", "TestUser");
    assert!(matches!(result, Err(CompactionError::InsufficientMessages)));
}

#[test]
fn mod_test_build_prompt_no_recap() {
    let messages = vec![
        message("user", "Hello!", "2026-03-25T10:00:00Z", false),
        message("assistant", "Hi there!", "2026-03-25T10:00:01Z", false),
    ];
    let prompt =
        CompactionManager::build_prompt("Template:\n{{conversation}}", &messages, None, "Char", "User");
    assert!(prompt.contains("[2026-03-25T10:00:00Z] user: Hello!"));
    assert!(prompt.contains("[2026-03-25T10:00:01Z] assistant: Hi there!"));
    assert!(!prompt.contains("{{conversation}}"));
}

#[test]
fn mod_test_build_prompt_with_recap() {
    let messages = make_messages(2);
    let template = "Before\n{{#if recap}}RECAP: {{recap}}{{/if}}\nAfter\n{{conversation}}";
    let prompt =
        CompactionManager::build_prompt(template, &messages, Some("Previous events."), "Char", "User");
    assert!(prompt.contains("RECAP: Previous events."));
    assert!(!prompt.contains("{{#if recap}}"));
    assert!(!prompt.contains("{{/if}}"));
}

#[test]
fn mod_test_build_prompt_recap_stripped_when_none() {
    let messages = make_messages(2);
    let template = "Before\n{{#if recap}}RECAP: {{recap}}{{/if}}\nAfter\n{{conversation}}";
    let prompt = CompactionManager::build_prompt(template, &messages, None, "Char", "User");
    assert!(!prompt.contains("RECAP"));
    assert!(!prompt.contains("{{#if recap}}"));
    assert!(prompt.contains("Before"));
    assert!(prompt.contains("After"));
}

#[test]
fn mod_test_should_force_compact() {
    let mgr = CompactionManager::new(CompactionConfig {
        max_turns: 60,
        min_turns: 20,
        keep_recent_turns: 2,
        ..Default::default()
    });
    assert!(!mgr.should_force_compact(0));
    assert!(!mgr.should_force_compact(19));
    assert!(!mgr.should_force_compact(59));
    assert!(mgr.should_force_compact(60));
    assert!(mgr.should_force_compact(100));
}

#[test]
fn mod_test_should_force_compact_disabled() {
    let mgr = CompactionManager::new(CompactionConfig { max_turns: 0, ..Default::default() });
    assert!(!mgr.should_force_compact(1000));
}

#[test]
fn mod_test_has_enough_turns() {
    let mgr = CompactionManager::new(CompactionConfig {
        min_turns: 20,
        keep_recent_turns: 2,
        ..Default::default()
    });
    assert!(!mgr.has_enough_turns(0));
    assert!(!mgr.has_enough_turns(19));
    assert!(mgr.has_enough_turns(20));
    assert!(mgr.has_enough_turns(100));
}

#[test]
fn mod_test_find_turn_split_skips_tool_result_messages() {
    let messages = vec![
        message("user", "Hello", "t0", false),
        message("assistant", "", "t1", false),
        message("user", "tool output here", "t2", true),
        message("assistant", "Based on the tool result...", "t3", false),
        message("user", "Thanks!", "t4", false),
        message("assistant", "You're welcome!", "t5", false),
    ];
    assert_eq!(CompactionManager::find_turn_split(&messages, 1), 4);
    assert_eq!(CompactionManager::find_turn_split(&messages, 2), 0);
}

#[test]
fn mod_test_find_turn_split_all_tool_results_returns_zero() {
    let messages = vec![
        message("user", "tool output", "t0", true),
        message("assistant", "response", "t1", false),
    ];
    assert_eq!(CompactionManager::find_turn_split(&messages, 1), 0);
}

#[test]
fn mod_test_compact_creates_entries() {
    let plan = plan(2, 10, DEFAULT_COMPACT_PROMPT);
    let (recap, compacted) = parsed();
    let entries = plan.new_entries(&compacted);
    let r = plan.result("conv-1", "new-conv-1".to_string(), ids(&entries), &recap);
    assert_eq!(r.entries_created.len(), 2);
    assert_eq!(r.conversation_id, "conv-1");
    assert_eq!(r.new_conversation_id, "new-conv-1");
    assert_eq!(r.message_count, 6);
    assert_eq!(r.retained_count, 4);
    assert!(r.recap_generated);
    assert_ne!(r.entries_created[0], r.entries_created[1]);
    for entry in &entries {
        assert_eq!(entry.reason, "compaction");
        assert_eq!(entry.source, "summary");
        assert_eq!(entry.status, "active");
        assert_eq!(entry.message_count, 6);
    }
}

#[test]
fn mod_test_compact_indexes_to_vector_store() {
    let plan = plan(2, 10, DEFAULT_COMPACT_PROMPT);
    let entries = plan.new_entries(&parsed().1);
    assert_eq!(entries.len(), 2);
    assert!(entries[0].summary_text.contains("User discussed their day"));
    assert!(entries[1].summary_text.contains("User prefers tea"));
}

#[test]
fn mod_test_compact_records_changelog() {
    let plan = plan(2, 10, DEFAULT_COMPACT_PROMPT);
    let entries = plan.new_entries(&parsed().1);
    let logs: Vec<String> = entries.iter().map(|e| compaction_changelog("conv-1", &e.id)).collect();
    assert_eq!(logs.len(), 2);
    assert!(logs.iter().all(|l| l.contains("conv-1")));
    assert!(logs[0].ends_with(&entries[0].id));
}

#[test]
fn mod_test_compact_archives_with_retention() {
    let plan = plan(3, 10, DEFAULT_COMPACT_PROMPT);
    let (recap, _) = parsed();
    let r = plan.result("old-conv", "new-conv-2".to_string(), vec![], &recap);
    assert_eq!(r.new_conversation_id, "new-conv-2");
    assert_eq!(r.retained_count, 6);
    let params = plan.retention(recap, "content".to_string());
    assert_eq!(params.keep_last_n, 6);
    assert_eq!(params.active_content, "content");
}

#[test]
fn mod_test_private_conversation_skips_compaction() {
    let mgr = CompactionManager::new(CompactionConfig::default());
    let result = mgr.compact(&make_messages(10), true, DEFAULT_COMPACT_PROMPT, None, "TestChar", "TestUser");
    assert!(matches!(result, Err(CompactionError::PrivateConversation)));
}

#[test]
fn mod_test_compact_dry_run() {
    let plan = plan(2, 10, DEFAULT_COMPACT_PROMPT);
    let (recap, compacted) = parsed();
    let r = plan.dry_run(recap, compacted);
    assert_eq!(r.would_create_entries, 2);
    assert_eq!(r.message_count, 6);
    assert_eq!(r.retained_count, 4);
    assert_eq!(r.entries_preview.len(), 2);
    assert!(r.recap_preview.is_some());
}

#[test]
fn mod_test_compact_empty_messages() {
    let mgr = CompactionManager::new(CompactionConfig::default());
    let result = mgr.compact(&[], false, DEFAULT_COMPACT_PROMPT, None, "TestChar", "TestUser");
    assert!(matches!(result, Err(CompactionError::InsufficientMessages)));
}

#[test]
fn mod_test_compact_fewer_than_keep_recent_turns() {
    let mgr = CompactionManager::new(make_config_with_keep(10));
    let result = mgr.compact(&make_messages(5), false, DEFAULT_COMPACT_PROMPT, None, "TestChar", "TestUser");
    assert!(matches!(result, Err(CompactionError::InsufficientMessages)));
}

#[test]
fn idle_time_is_counted_in_seconds() {
    let mgr = CompactionManager::new(CompactionConfig { idle_trigger_minutes: 5, ..Default::default() });
    assert_eq!(mgr.idle_seconds(), 300);
    assert_eq!(CompactionManager::new(CompactionConfig::default()).idle_seconds(), 1800);
}

#[test]
fn compaction_prompt_holds_only_the_compacted_messages() {
    let plan = plan(2, 10, "{{char}}/{{user}}:{{conversation}}");
    assert_eq!(plan.split_at, 6);
    assert_eq!(plan.retained, 4);
    assert_eq!(plan.start_timestamp, "2026-03-25T10:00:00Z");
    assert_eq!(plan.end_timestamp, "2026-03-25T10:00:05Z");
    assert!(plan.prompt.starts_with("TestChar/TestUser:[2026-03-25T10:00:00Z] user: Message 0\n"));
    assert!(plan.prompt.ends_with("[2026-03-25T10:00:05Z] assistant: Message 5\n"));
}

#[test]
fn no_turn_is_kept_on_request() {
    let messages = make_messages(4);
    assert_eq!(CompactionManager::find_turn_split(&messages, 0), 4);
    assert_eq!(CompactionManager::find_turn_split(&messages, 1), 2);
    assert_eq!(CompactionManager::find_turn_split(&[], 0), 0);
    let all = plan(0, 4, "{{conversation}}");
    assert_eq!((all.split_at, all.retained, all.retained_turns), (4, 0, 0));
    assert!(all.prompt.contains("Message 3"));
    assert_eq!(all.end_timestamp, "2026-03-25T10:00:03Z");
    let none = CompactionManager::new(make_config_with_keep(0));
    assert!(matches!(
        none.compact(&[], false, "t", None, "c", "u"),
        Err(CompactionError::InsufficientMessages)
    ));
}

#[test]
fn templates_with_a_reversed_block_take_no_recap() {
    let messages = make_messages(2);
    let reversed = "{{/if}} {{#if recap}}{{recap}}";
    assert!(!can_fill(reversed, &messages, Some("r")));
    assert!(can_fill(reversed, &messages, Some("")));
    assert!(can_fill(reversed, &messages, None));
    assert!(can_fill("{{#if recap}}{{/if}}", &messages, Some("r")));
    assert!(can_fill("{{/if}}", &messages, Some("r")));
    let quoting = vec![message("user", "{{/if}}", "t", false)];
    assert!(!can_fill("{{conversation}}{{#if recap}}{{/if}}", &quoting, Some("r")));
}

#[test]
fn background_compactions_report_kept_turns() {
    let plan = plan(2, 10, "{{conversation}}");
    let done = plan.result("c", "n".to_string(), vec!["e".to_string()], &None);
    let outcome = CompactionOutcome::Compacted(done);
    assert_eq!(compaction_answer(10, Some(&outcome)), 2);
    assert_eq!(compaction_answer(0, Some(&outcome)), 0);
    assert_eq!(compaction_answer(0, None), 0);
    match plan.on_summary(&make_xml_response(), true) {
        Ok(CompactionStep::DryRun(d)) => {
            assert_eq!(compaction_answer(10, Some(&CompactionOutcome::DryRun(d))), 0)
        }
        _ => panic!("expected a trial run"),
    }
}

#[test]
fn entries_made_by_compaction() {
    let plan = plan(2, 10, "{{conversation}}");
    let compacted = parsed().1;
    let e = plan.entry_at(&compacted[0], "20260101_000000_0".to_string(), "2026-01-01T00:00:00+00:00");
    assert_eq!(e.id, "20260101_000000_0");
    assert_eq!(e.memory_type, "episodic");
    assert_eq!(e.start_timestamp, "2026-03-25T10:00:00Z");
    assert_eq!(e.end_timestamp, "2026-03-25T10:00:05Z");
    assert_eq!(e.created_at, "2026-01-01T00:00:00+00:00");
    assert_eq!(e.topic_key, "daily");
    assert_eq!(
        compaction_changelog("c", "e"),
        "Compacted conversation c into entry e"
    );
}

#[test]
fn answers_lead_to_the_next_step() {
    let plan = plan(2, 10, "{{conversation}}");
    match plan.on_summary(&make_xml_response(), false) {
        Ok(CompactionStep::Store { entries, recap }) => {
            assert_eq!(entries.len(), 2);
            assert!(entries[0].id.ends_with("_0"));
            assert!(entries[1].id.ends_with("_1"));
            assert_eq!(entries[1].topic_key, "preference");
            assert!(recap.unwrap().starts_with("The assistant"));
        }
        _ => panic!("expected entries to store"),
    }
    match plan.on_summary(&make_xml_response(), true) {
        Ok(CompactionStep::DryRun(d)) => assert_eq!(d.would_create_entries, 2),
        _ => panic!("expected a trial run"),
    }
    match plan.on_summary("<recap>r</recap>", true) {
        Err(CompactionError::Parse(e)) => assert_eq!(e, "no <entry> blocks found in LLM response"),
        _ => panic!("expected an error"),
    }
}

#[test]
fn entry_blocks_without_summary() {
    let raw = "<entry><topic_tags>a</topic_tags></entry><entry><summary>s</summary></entry>";
    let (_, entries) = parse_compaction_response(raw).unwrap();
    assert_eq!(entries.len(), 2);
    assert_eq!(entries[0].summary_text, "");
    assert_eq!(entries[0].topic_key, "a");
    assert_eq!(entries[1].summary_text, "s");
    assert_eq!(entries[1].topic_tags, "");
    assert_eq!(entries[1].memory_type, "episodic");
}

#[test]
fn stored_messages_are_read() {
    assert_eq!(record_lines("  {\"a\":1}\n\n \n{\"b\":2}\r\n"), vec!["{\"a\":1}", "{\"b\":2}"]);
    let result = || ContentBlock::ToolResult {
        tool_use_id: "t".to_string(),
        content: "c".to_string(),
        is_error: false,
    };
    let stored = |role: &str, blocks: Vec<ContentBlock>| StoredMessage {
        role: role.to_string(),
        content: "text".to_string(),
        timestamp: "t0".to_string(),
        content_blocks: blocks,
    };
    let m = to_conversation_message(&stored("User", vec![result(), result()]));
    assert_eq!(m.role, "user");
    assert!(m.is_tool_result_only);
    assert!(CompactionManager::is_tool_loop_message(&m));
    assert!(!to_conversation_message(&stored("Assistant", vec![result()])).is_tool_result_only);
    assert!(!to_conversation_message(&stored("User", vec![])).is_tool_result_only);
    let mixed = vec![result(), ContentBlock::Text { text: "x".to_string() }];
    assert!(!to_conversation_message(&stored("User", mixed)).is_tool_result_only);
}

#[test]
fn finished_compactions_are_announced() {
    assert_eq!(notification_title("Alice"), "Shore — Alice");
    assert_eq!(completion_notice(2, 16), "Compaction complete: 2 entries from 16 messages");
    assert!(collates_after_compaction(true, true));
    assert!(!collates_after_compaction(true, false));
    assert!(!collates_after_compaction(false, true));
}

#[test]
fn compaction_errors_are_shown_with_their_kind() {
    assert_eq!(CompactionError::Llm("x".to_string()).message(), "llm: x");
    assert_eq!(CompactionError::Db("x".to_string()).message(), "db: x");
    assert_eq!(CompactionError::Parse("x".to_string()).message(), "parse: x");
    assert_eq!(CompactionError::PrivateConversation.message(), "private conversation: skipped");
    assert_eq!(CompactionError::InsufficientMessages.message(), "insufficient messages");
    assert_eq!(CompactionError::Indexing("x".to_string()).message(), "indexing: x");
    assert_eq!(CompactionError::ConversationManager("x".to_string()).message(), "conversation: x");
}
