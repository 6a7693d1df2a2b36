use shore_daemon::memory::agent;
use shore_daemon::memory::agent::prompt::{render_system_prompt, render_template};
use shore_daemon::memory::agent::types::{AgentError, AgentMode, CallerIdentity};
use shore_daemon::memory::agent::{assemble_result, MemoryAgent, RagHit};
use shore_daemon::memory::agent_llm::{
    response_text, AgentLlmError, AgentLlmResponse, AgentMessage, ContentBlock,
};
use shore_daemon::memory::agent::tool_loop::LoopStep;
use shore_daemon::memory::db::Entry;
use shore_daemon::memory::retrieval_agent;
use shore_daemon::memory::retrieval_agent::entry_id_at;

fn make_entry(id: &str, summary: &str) -> Entry {
    let now = "2026-01-01T00:00:00+00:00";
    Entry {
        id: id.to_string(),
        memory_type: "semantic".to_string(),
        source: "agent".to_string(),
        reason: "tool_call".to_string(),
        status: "active".to_string(),
        confidence_bits: 0.9f64.to_bits(),
        summary_text: summary.to_string(),
        topic_tags: "test".to_string(),
        topic_key: "test".to_string(),
        start_timestamp: now.to_string(),
        end_timestamp: now.to_string(),
        message_count: 0,
        source_entry_ids: String::new(),
        related_entry_ids: String::new(),
        superseded_by: String::new(),
        created_at: now.to_string(),
        updated_at: now.to_string(),
        entry_type: String::new(),
        image_path: String::new(),
        collated_at: String::new(),
        file_path: String::new(),
    }
}

// Retrieval agent.

#[test]
fn agent_test_caller_identity_char_mode() {
    let agent = retrieval_agent::MemoryAgent::one_shot(CallerIdentity::Char, "Alice");
    assert_eq!(agent.caller(), CallerIdentity::Char);
    assert_eq!(agent.caller_name(), "Alice");
    assert_eq!(agent.mode(), AgentMode::OneShot);
}

#[test]
fn agent_test_caller_identity_user_mode() {
    let agent = retrieval_agent::MemoryAgent::interactive(CallerIdentity::User, "Bob");
    assert_eq!(agent.caller(), CallerIdentity::User);
    assert_eq!(agent.caller_name(), "Bob");
    assert_eq!(agent.mode(), AgentMode::Interactive);
}

#[test]
fn agent_test_pronoun_resolution_char_caller() {
    let agent = retrieval_agent::MemoryAgent::one_shot(CallerIdentity::Char, "Alice");
    assert_eq!(
        agent.query("What do I like to eat?").unwrap().query,
        "What do Alice like to eat?"
    );
    let resolved = agent::resolve_pronouns("What do I like to eat?", CallerIdentity::Char, "Alice");
    assert_eq!(resolved, "What do Alice like to eat?");
}

#[test]
fn agent_test_pronoun_resolution_user_caller() {
    let agent = retrieval_agent::MemoryAgent::one_shot(CallerIdentity::User, "Bob");
    assert_eq!(
        agent.query("What do I like to eat?").unwrap().query,
        "What do Bob like to eat?"
    );
    let resolved = agent::resolve_pronouns("What do I like to eat?", CallerIdentity::User, "Bob");
    assert_eq!(resolved, "What do Bob like to eat?");
}

#[test]
fn agent_test_pronoun_resolution_my() {
    let agent = retrieval_agent::MemoryAgent::one_shot(CallerIdentity::Char, "Alice");
    assert_eq!(agent.query("my favorite color").unwrap().query, "Alice's favorite color");
    let resolved = agent::resolve_pronouns("my favorite color", CallerIdentity::Char, "Alice");
    assert_eq!(resolved, "Alice's favorite color");
}

#[test]
fn agent_test_pronoun_resolution_me() {
    let agent = retrieval_agent::MemoryAgent::one_shot(CallerIdentity::User, "Bob");
    assert_eq!(agent.query("tell me about me.").unwrap().query, "tell Bob about Bob.");
    let resolved = agent::resolve_pronouns("tell me about me.", CallerIdentity::User, "Bob");
    assert_eq!(resolved, "tell Bob about Bob.");
}

#[test]
fn agent_test_pronoun_resolution_no_pronouns() {
    let agent = retrieval_agent::MemoryAgent::one_shot(CallerIdentity::Char, "Alice");
    assert_eq!(agent.query("What does Alice like?").unwrap().query, "What does Alice like?");
    let resolved = agent::resolve_pronouns("What does Alice like?", CallerIdentity::Char, "Alice");
    assert_eq!(resolved, "What does Alice like?");
}

#[test]
fn pronouns_inside_words_stay() {
    for query in ["AI is new", "Tammy was here", "army tanks", "the theme is", "WIFI works", "dummyself"] {
        assert_eq!(agent::resolve_pronouns(query, CallerIdentity::User, "Bob"), query);
    }
    let resolved = agent::resolve_pronouns("AI and I agree, my army", CallerIdentity::User, "Bob");
    assert_eq!(resolved, "AI and Bob agree, Bob's army");
}

#[test]
fn agent_test_pronoun_resolution_myself() {
    let agent = retrieval_agent::MemoryAgent::one_shot(CallerIdentity::User, "Bob");
    assert_eq!(agent.query("things about myself").unwrap().query, "things about Bob");
    let resolved = agent::resolve_pronouns("things about myself", CallerIdentity::User, "Bob");
    assert_eq!(resolved, "things about Bob");
}

#[test]
fn test_one_shot_query_returns_results() {
    let hits = vec![
        RagHit { entry_id: "e1".to_string(), score_bits: 0.95f64.to_bits() },
        RagHit { entry_id: "e2".to_string(), score_bits: 0.7f64.to_bits() },
    ];
    let found = vec![
        Some(make_entry("e1", "Alice likes chocolate")),
        Some(make_entry("e2", "Alice dislikes rain")),
    ];
    let agent = retrieval_agent::MemoryAgent::one_shot(CallerIdentity::Char, "Alice");
    let retrieval = agent.query("What do I like?").unwrap();
    assert_eq!(retrieval.top_k, 32);
    let result = assemble_result("What do I like?", retrieval.query, &hits, &found);
    assert_eq!(result.entries.len(), 2);
    assert_eq!(result.entries[0].entry_id, "e1");
    assert_eq!(result.entries[0].summary_text, "Alice likes chocolate");
    assert_eq!(f64::from_bits(result.entries[0].relevance_bits), 0.95);
    assert_eq!(result.entries[1].entry_id, "e2");
    assert_eq!(result.query_text, "What do I like?");
    assert!(result.resolved_query.contains("Alice"));
}

#[test]
fn test_one_shot_query_resolves_pronouns_before_rag() {
    let agent = retrieval_agent::MemoryAgent::one_shot(CallerIdentity::Char, "Alice");
    let retrieval = agent.query("my favorite food").unwrap();
    assert_eq!(retrieval.query, "Alice's favorite food");
}

#[test]
fn test_one_shot_empty_results() {
    let agent = retrieval_agent::MemoryAgent::one_shot(CallerIdentity::User, "Bob");
    let retrieval = agent.query("something obscure").unwrap();
    let result = assemble_result("something obscure", retrieval.query, &vec![], &vec![]);
    assert!(result.entries.is_empty());
}

#[test]
fn test_one_shot_missing_entry_skipped() {
    let hits = vec![RagHit { entry_id: "nonexistent".to_string(), score_bits: 0.8f64.to_bits() }];
    let agent = retrieval_agent::MemoryAgent::one_shot(CallerIdentity::Char, "Alice");
    let retrieval = agent.query("anything").unwrap();
    let result = assemble_result("anything", retrieval.query, &hits, &vec![None]);
    assert!(result.entries.is_empty());
}

#[test]
fn test_interactive_mode_returns_error() {
    let agent = retrieval_agent::MemoryAgent::interactive(CallerIdentity::User, "Bob");
    let result = agent.query("anything");
    assert!(matches!(result, Err(retrieval_agent::AgentError::InteractiveNotImplemented)));
    assert_eq!(
        retrieval_agent::AgentError::InteractiveNotImplemented.message(),
        "interactive mode not yet implemented"
    );
}

#[test]
fn test_create_entry_indexes_to_vector_store() {
    let agent = retrieval_agent::MemoryAgent::one_shot(CallerIdentity::Char, "Alice");
    let entry = make_entry("e1", "Alice likes chocolate");
    let write = agent.create_entry(&entry);
    let result = write.result(true);
    assert_eq!(result.entry_id, "e1");
    assert_eq!(result.operation, "create");
    assert!(result.indexed);
    assert_eq!(write.entry_id, "e1");
    assert_eq!(write.index_text, "Alice likes chocolate");
    assert_eq!(write.changelog_operation, "agent_create");
    assert_eq!(write.changelog_text, "Memory agent created entry e1");
}

#[test]
fn test_update_entry_reindexes() {
    let agent = retrieval_agent::MemoryAgent::one_shot(CallerIdentity::Char, "Alice");
    let mut updated = make_entry("e1", "Alice likes chocolate");
    updated.summary_text = "Alice loves dark chocolate".to_string();
    let write = agent.update_entry(&updated);
    let result = write.result(true);
    assert_eq!(result.operation, "update");
    assert!(result.indexed);
    assert_eq!(write.index_text, "Alice loves dark chocolate");
    assert_eq!(write.changelog_operation, "agent_update");
}

#[test]
fn test_supersede_entry_creates_and_marks_old() {
    let agent = retrieval_agent::MemoryAgent::one_shot(CallerIdentity::Char, "Alice");
    let new_entry = make_entry("new_e", "Alice prefers dark chocolate");
    let write = agent.supersede_entry("old_e", &new_entry);
    let result = write.result(true);
    assert_eq!(result.entry_id, "new_e");
    assert_eq!(result.operation, "supersede");
    assert!(result.indexed);
    assert_eq!(write.entry_id, "new_e");
    assert_eq!(write.changelog_operation, "agent_supersede");
    assert_eq!(write.changelog_text, "Memory agent superseded entry old_e with new_e");
}

#[test]
fn entry_ids_carry_the_stamp_and_the_number() {
    assert_eq!(entry_id_at("20250101_120000", 7), "20250101_120000_7");
    let id = retrieval_agent::MemoryAgent::generate_entry_id(12);
    let parts: Vec<&str> = id.split('_').collect();
    assert_eq!(parts.len(), 3);
    assert_eq!(parts[0].len(), 8);
    assert_eq!(parts[1].len(), 6);
    assert_eq!(parts[2], "12");
    assert!(parts.iter().all(|p| p.chars().all(|c| c.is_ascii_digit())));
}

// Agent with a system prompt.

#[test]
fn mod_test_caller_identity_char_mode() {
    let agent = MemoryAgent::one_shot(CallerIdentity::Char, "Alice", "Bob");
    assert_eq!(agent.caller(), CallerIdentity::Char);
    assert_eq!(agent.caller_name(), "Alice");
    assert_eq!(agent.mode(), AgentMode::OneShot);
    assert!(agent.system_prompt.contains("Alice's memory system"));
}

#[test]
fn mod_test_caller_identity_user_mode() {
    let agent = MemoryAgent::interactive(CallerIdentity::User, "Bob", "Alice");
    assert_eq!(agent.caller(), CallerIdentity::User);
    assert_eq!(agent.caller_name(), "Bob");
    assert_eq!(agent.mode(), AgentMode::Interactive);
    assert!(agent.system_prompt.contains("Alice's memory system"));
    assert!(agent.system_prompt.contains("knowledge about Bob"));
}

#[test]
fn mod_test_pronoun_resolution_char_caller() {
    let resolved = agent::resolve_pronouns("What do I like to eat?", CallerIdentity::Char, "Alice");
    assert_eq!(resolved, "What do Alice like to eat?");
}

#[test]
fn mod_test_pronoun_resolution_user_caller() {
    let resolved = agent::resolve_pronouns("What do I like to eat?", CallerIdentity::User, "Bob");
    assert_eq!(resolved, "What do Bob like to eat?");
}

#[test]
fn mod_test_pronoun_resolution_my() {
    let resolved = agent::resolve_pronouns("my favorite color", CallerIdentity::Char, "Alice");
    assert_eq!(resolved, "Alice's favorite color");
}

#[test]
fn mod_test_pronoun_resolution_me() {
    let resolved = agent::resolve_pronouns("tell me about me.", CallerIdentity::User, "Bob");
    assert_eq!(resolved, "tell Bob about Bob.");
}

#[test]
fn mod_test_pronoun_resolution_no_pronouns() {
    let resolved = agent::resolve_pronouns("What does Alice like?", CallerIdentity::Char, "Alice");
    assert_eq!(resolved, "What does Alice like?");
}

#[test]
fn mod_test_pronoun_resolution_myself() {
    let resolved = agent::resolve_pronouns("things about myself", CallerIdentity::User, "Bob");
    assert_eq!(resolved, "things about Bob");
}

#[test]
fn test_ask_returns_text() {
    let agent = MemoryAgent::one_shot(CallerIdentity::Char, "Alice", "Bob");
    let run = agent.ask("What do I know about chocolate?");
    assert_eq!(run.conversation.len(), 1);
    assert!(
        matches!(&run.conversation[0], AgentMessage::User(t) if t == "What do I know about chocolate?")
    );
    let step = run.on_response(AgentLlmResponse {
        text: "No relevant memories found.".to_string(),
        content_blocks: vec![ContentBlock::Text { text: "No relevant memories found.".to_string() }],
        finish_reason: "end_turn".to_string(),
    });
    match step {
        LoopStep::Finished { text, mutations } => {
            assert_eq!(text, "No relevant memories found.");
            assert!(mutations.is_empty());
        }
        LoopStep::RunTools(_) => panic!("expected a final answer"),
    }
}

#[test]
fn queries_are_kept_in_the_history() {
    let agent = MemoryAgent::one_shot(CallerIdentity::User, "Bob", "Alice");
    let mut history: Vec<AgentMessage> = Vec::new();
    agent.run_query("Forget the tea entry", &mut history);
    assert_eq!(history.len(), 1);
    let mutations = vec!["Superseded e1".to_string(), "Updated e2".to_string()];
    let summary = agent.finish_query("Done.".to_string(), &mutations, &mut history);
    assert_eq!(summary, "Superseded e1; Updated e2");
    assert_eq!(history.len(), 2);
    assert!(matches!(&history[1], AgentMessage::Assistant(t) if t == "Done."));
    assert_eq!(agent.finish_query("Nothing.".to_string(), &vec![], &mut history), "");
}

#[test]
fn retrieval_is_refused_in_interactive_mode() {
    let agent = MemoryAgent::interactive(CallerIdentity::User, "Bob", "Alice");
    match agent.query("anything") {
        Err(AgentError::Llm(e)) => {
            assert_eq!(e, "legacy query() not available in interactive mode")
        }
        _ => panic!("expected an error"),
    }
    let one_shot = MemoryAgent::one_shot(CallerIdentity::User, "Bob", "Alice");
    assert_eq!(one_shot.query("my cat").unwrap(), "Bob's cat");
}

#[test]
fn agent_errors_are_shown_with_their_kind() {
    assert_eq!(AgentError::Db("x".to_string()).message(), "db: x");
    assert_eq!(AgentError::Rag("x".to_string()).message(), "rag: x");
    assert_eq!(AgentError::Indexing("x".to_string()).message(), "indexing: x");
    assert_eq!(AgentError::Llm("x".to_string()).message(), "llm: x");
    assert_eq!(AgentError::MaxIterations.message(), "agent loop reached maximum iterations");
    assert_eq!(AgentLlmError::Transport("x".to_string()).message(), "llm transport: x");
    assert_eq!(AgentLlmError::MockExhausted.message(), "mock: no more canned responses");
    assert_eq!(retrieval_agent::AgentError::Db("x".to_string()).message(), "db: x");
    assert_eq!(retrieval_agent::AgentError::Rag("x".to_string()).message(), "rag: x");
    assert_eq!(retrieval_agent::AgentError::Indexing("x".to_string()).message(), "indexing: x");
}

#[test]
fn response_text_joins_text_blocks() {
    assert_eq!(response_text("plain", &vec![]), "plain");
    let blocks = vec![
        ContentBlock::Text { text: "a".to_string() },
        ContentBlock::Thinking { thinking: "hm".to_string() },
        ContentBlock::Text { text: "b".to_string() },
    ];
    assert_eq!(response_text("ignored", &blocks), "ab");
}

// Prompt.

#[test]
fn prompt_substitution() {
    let prompt = render_system_prompt("Alice", "Bob");
    assert!(prompt.contains("Alice's memory system"));
    assert!(prompt.contains("knowledge about Bob"));
    assert!(!prompt.contains("{{char}}"));
    assert!(!prompt.contains("{{user}}"));
}

#[test]
fn prompt_contains_all_tools() {
    let prompt = render_system_prompt("A", "B");
    assert!(prompt.contains("search_entries"));
    assert!(prompt.contains("query_db"));
    assert!(prompt.contains("create_entry"));
    assert!(prompt.contains("update_entry"));
    assert!(prompt.contains("supersede_entry"));
    assert!(prompt.contains("update_entity"));
    assert!(prompt.contains("merge_entity"));
    assert!(prompt.contains("resolve_flag"));
    assert!(prompt.contains("create_flag"));
}

#[test]
fn prompt_date_and_time_are_filled_in() {
    assert_eq!(
        render_template("{{char}}/{{user}} {{date}} {{time}}", "A", "B", "2026-01-02", "03:04"),
        "A/B 2026-01-02 03:04"
    );
    let dated = render_system_prompt("{{date}}", "{{time}}");
    assert!(!dated.contains("{{date}}"));
    assert!(!dated.contains("{{time}}"));
    let date = dated.strip_prefix("You are a memory management agent for ").unwrap();
    let date = &date[..date.find("'s memory").unwrap()];
    assert!(chrono::NaiveDate::parse_from_str(date, "%Y-%m-%d").is_ok());
    let time = &dated[dated.find("knowledge about ").unwrap() + 16..];
    assert!(chrono::NaiveTime::parse_from_str(&time[..5], "%H:%M").is_ok());
}
