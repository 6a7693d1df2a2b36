use shore_daemon::memory::agent::tool_loop::{
    describe_mutation, is_denied, AgentLoop, LoopStep, ToolTurn, TurnEnd, DENIED_MESSAGE,
    MAX_ITERATIONS,
};
use shore_daemon::memory::agent::types::{InputField, ToolInput};
use shore_daemon::memory::agent_llm::{AgentLlmResponse, AgentMessage, ContentBlock};

fn field(name: &str, value: &str) -> InputField {
    InputField {
        name: name.to_string(),
        text: Some(value.to_string()),
        signed: None,
        unsigned: None,
        real_bits: None,
    }
}

fn args(fields: Vec<InputField>) -> ToolInput {
    ToolInput { fields, raw: "{\"x\":1}".to_string() }
}

fn call(id: &str, name: &str, fields: Vec<InputField>) -> ContentBlock {
    ContentBlock::ToolUse { id: id.to_string(), name: name.to_string(), input: args(fields) }
}

fn tools(blocks: Vec<ContentBlock>) -> AgentLlmResponse {
    AgentLlmResponse {
        text: String::new(),
        content_blocks: blocks,
        finish_reason: "tool_use".to_string(),
    }
}

fn answer(text: &str) -> AgentLlmResponse {
    AgentLlmResponse {
        text: text.to_string(),
        content_blocks: vec![ContentBlock::Text { text: text.to_string() }],
        finish_reason: "end_turn".to_string(),
    }
}

fn start(question: &str) -> AgentLoop {
    AgentLoop::start(vec![AgentMessage::User(question.to_string())])
}

fn run_tools(step: LoopStep) -> ToolTurn {
    match step {
        LoopStep::RunTools(turn) => turn,
        LoopStep::Finished { .. } => panic!("expected tool requests"),
    }
}

fn next(end: TurnEnd) -> AgentLoop {
    match end {
        TurnEnd::AskModel(state) => state,
        TurnEnd::Finished { .. } => panic!("expected another turn"),
    }
}

fn finished(step: LoopStep) -> (String, Vec<String>) {
    match step {
        LoopStep::Finished { text, mutations } => (text, mutations),
        LoopStep::RunTools(_) => panic!("expected a final answer"),
    }
}

#[test]
fn text_only_response() {
    let (text, mutations) = finished(start("What do I know?").on_response(answer("I found nothing relevant.")));
    assert_eq!(text, "I found nothing relevant.");
    assert!(mutations.is_empty());
}

#[test]
fn read_tool_then_text() {
    let turn = run_tools(
        start("What about chocolate?")
            .on_response(tools(vec![call("tu_1", "search_entries", vec![field("query", "chocolate")])])),
    );
    assert_eq!(turn.reads.len(), 1);
    assert!(turn.writes.is_empty());
    let state = next(turn.finish(vec!["No results.".to_string()], &vec![], vec![]));
    assert_eq!(state.conversation.len(), 3);
    match &state.conversation[2] {
        AgentMessage::ToolResults(results) => {
            assert_eq!(results.len(), 1);
            assert_eq!(results[0].tool_use_id, "tu_1");
            assert_eq!(results[0].content, "No results.");
            assert!(!results[0].is_error);
        }
        _ => panic!("expected tool results"),
    }
    let (text, mutations) = finished(state.on_response(answer("No memories about chocolate found.")));
    assert_eq!(text, "No memories about chocolate found.");
    assert!(mutations.is_empty());
}

#[test]
fn write_tool_auto_confirmed() {
    let turn = run_tools(start("Remember: Alice likes chocolate").on_response(tools(vec![call(
        "tu_1",
        "create_entry",
        vec![
            field("summary_text", "Alice likes chocolate"),
            field("topic_tags", "food"),
            field("reason", "user said so"),
        ],
    )])));
    assert_eq!(turn.accepted_writes(&vec![]).len(), 1);
    let state = next(turn.finish(vec![], &vec![], vec![Ok("Created entry 20260101_000000_0".to_string())]));
    let (text, mutations) = finished(state.on_response(answer("I've saved that memory.")));
    assert_eq!(text, "I've saved that memory.");
    assert_eq!(mutations.len(), 1);
    assert!(mutations[0].starts_with("Created entry "));
}

#[test]
fn write_tool_denied() {
    let turn = run_tools(start("Save something").on_response(tools(vec![call(
        "tu_1",
        "create_entry",
        vec![field("summary_text", "Should not be saved"), field("reason", "test")],
    )])));
    let proposed = turn.proposals();
    assert_eq!(proposed.len(), 1);
    assert_eq!(proposed[0].tool_use_id, "tu_1");
    assert_eq!(proposed[0].tool_name, "create_entry");
    assert_eq!(proposed[0].description, "Create entry: Should not be saved");
    let denied = vec!["tu_1".to_string()];
    assert!(turn.accepted_writes(&denied).is_empty());
    let state = next(turn.finish(vec![], &denied, vec![]));
    match &state.conversation[2] {
        AgentMessage::ToolResults(results) => {
            assert!(results[0].is_error);
            assert!(results[0].content.contains("DENIED"));
            assert_eq!(results[0].content, DENIED_MESSAGE);
        }
        _ => panic!("expected tool results"),
    }
    let (text, mutations) = finished(state.on_response(answer("Understood, I won't save that.")));
    assert_eq!(text, "Understood, I won't save that.");
    assert!(mutations.is_empty());
}

#[test]
fn mixed_read_write_in_one_turn() {
    let turn = run_tools(start("test").on_response(tools(vec![
        call("tu_read", "search_entries", vec![field("query", "chocolate")]),
        call(
            "tu_write",
            "create_entry",
            vec![field("summary_text", "New fact about chocolate"), field("reason", "test")],
        ),
    ])));
    assert_eq!(turn.reads[0].id, "tu_read");
    assert_eq!(turn.writes[0].id, "tu_write");
    let state = next(turn.finish(
        vec!["No results.".to_string()],
        &vec![],
        vec![Ok("Created entry x".to_string())],
    ));
    match &state.conversation[2] {
        AgentMessage::ToolResults(results) => {
            assert_eq!(results.len(), 2);
            assert_eq!(results[0].tool_use_id, "tu_read");
            assert_eq!(results[1].tool_use_id, "tu_write");
        }
        _ => panic!("expected tool results"),
    }
    let (text, mutations) = finished(state.on_response(answer("Done.")));
    assert_eq!(text, "Done.");
    assert_eq!(mutations.len(), 1);
}

#[test]
fn reads_are_answered_before_writes() {
    let turn = run_tools(start("test").on_response(tools(vec![
        call("tu_write", "create_entry", vec![field("summary_text", "s"), field("reason", "r")]),
        call("tu_read", "search_entries", vec![field("query", "q")]),
    ])));
    let reads = vec!["No results.".to_string()];
    let state = next(turn.finish(reads, &vec![], vec![Ok("Created entry x".to_string())]));
    match &state.conversation[2] {
        AgentMessage::ToolResults(results) => {
            assert_eq!(results[0].tool_use_id, "tu_read");
            assert_eq!(results[1].tool_use_id, "tu_write");
        }
        _ => panic!("expected tool results"),
    }
}

#[test]
fn max_iterations_reached() {
    let mut state = start("loop test");
    for i in 0..MAX_ITERATIONS {
        let turn = run_tools(state.on_response(tools(vec![call(
            &format!("tu_{i}"),
            "search_entries",
            vec![field("query", "loop forever")],
        )])));
        match turn.finish(vec!["No results.".to_string()], &vec![], vec![]) {
            TurnEnd::AskModel(s) => {
                assert!(i + 1 < MAX_ITERATIONS);
                state = s;
            }
            TurnEnd::Finished { text, mutations } => {
                assert_eq!(i + 1, MAX_ITERATIONS);
                assert_eq!(MAX_ITERATIONS, 40);
                assert_eq!(text, "Agent loop reached maximum iterations.");
                assert!(mutations.is_empty());
                return;
            }
        }
    }
    panic!("the loop did not end");
}

#[test]
fn failed_writes_are_not_recorded() {
    let turn = run_tools(start("x").on_response(tools(vec![
        call("a", "update_entry", vec![field("entry_id", "e9")]),
        call("b", "supersede_entry", vec![field("entry_id", "e1")]),
        call("c", "create_flag", vec![]),
    ])));
    let denied = vec!["b".to_string()];
    let outcomes = vec![
        Err("Entry e9 not found".to_string()),
        Ok("Created flag 1 (stale) on e1".to_string()),
    ];
    let state = next(turn.finish(vec![], &denied, outcomes));
    assert_eq!(state.mutations, vec!["Created flag 1 (stale) on e1"]);
    match &state.conversation[2] {
        AgentMessage::ToolResults(results) => {
            assert_eq!(results[0].content, "Entry e9 not found");
            assert!(!results[0].is_error);
            assert!(results[1].is_error);
            assert_eq!(results[2].content, "Created flag 1 (stale) on e1");
        }
        _ => panic!("expected tool results"),
    }
    assert!(is_denied(&denied, "b"));
    assert!(!is_denied(&denied, "a"));
}

#[test]
fn proposed_writes_are_described() {
    let long = "x".repeat(81);
    assert_eq!(
        describe_mutation("create_entry", &args(vec![field("summary_text", &long)])),
        format!("Create entry: {}...", "x".repeat(80))
    );
    let exact = "é".repeat(40);
    assert_eq!(
        describe_mutation("create_entry", &args(vec![field("summary_text", &exact)])),
        format!("Create entry: {exact}")
    );
    let accented = "é".repeat(41);
    assert_eq!(
        describe_mutation("create_entry", &args(vec![field("summary_text", &accented)])),
        format!("Create entry: {}...", "é".repeat(40))
    );
    assert_eq!(describe_mutation("update_entry", &args(vec![field("entry_id", "e1")])), "Update entry e1");
    assert_eq!(describe_mutation("supersede_entry", &args(vec![])), "Supersede entry ?");
    assert_eq!(describe_mutation("update_entity", &args(vec![field("name", "Rosa")])), "Update entity 'Rosa'");
    assert_eq!(
        describe_mutation("merge_entity", &args(vec![field("from_name", "A"), field("to_name", "B")])),
        "Merge entity 'A' → 'B'"
    );
    let flag = ToolInput {
        fields: vec![InputField {
            name: "flag_id".to_string(),
            text: None,
            signed: Some(-3),
            unsigned: None,
            real_bits: None,
        }],
        raw: String::new(),
    };
    assert_eq!(describe_mutation("resolve_flag", &flag), "Resolve flag #-3");
    assert_eq!(describe_mutation("resolve_flag", &args(vec![])), "Resolve flag #?");
    assert_eq!(
        describe_mutation("create_flag", &args(vec![field("flag_type", "stale"), field("entry_id", "e1")])),
        "Create stale flag on e1"
    );
    assert_eq!(describe_mutation("other", &args(vec![])), "other: {\"x\":1}");
}
