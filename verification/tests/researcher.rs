use shore_daemon::memory::agent::types::{InputField, ToolInput};
use shore_daemon::memory::agent_llm::{AgentLlmResponse, AgentMessage, ContentBlock};
use shore_daemon::memory::memory_llm::{
    on_error, on_response, MemoryLlmError, MemoryLlmResponse, RetryDecision, RetryStep,
};
use shore_daemon::memory::researcher::{
    ask_memory_agent_tool, conclude, is_refusal, MemoryResearcher, ResearchEnd, ResearchSession,
    ResearchStep, ResearchTurn, MAX_RESEARCHER_ITERATIONS, NO_RESULTS,
};

fn ask(id: &str, question: &str) -> ContentBlock {
    ContentBlock::ToolUse {
        id: id.to_string(),
        name: "ask_memory_agent".to_string(),
        input: ToolInput {
            fields: vec![InputField {
                name: "question".to_string(),
                text: Some(question.to_string()),
                signed: None,
                unsigned: None,
                real_bits: None,
            }],
            raw: String::new(),
        },
    }
}

fn tools(blocks: Vec<ContentBlock>) -> AgentLlmResponse {
    AgentLlmResponse {
        text: String::new(),
        content_blocks: blocks,
        finish_reason: "tool_use".to_string(),
    }
}

fn text(t: &str) -> AgentLlmResponse {
    AgentLlmResponse {
        text: t.to_string(),
        content_blocks: vec![ContentBlock::Text { text: t.to_string() }],
        finish_reason: "end_turn".to_string(),
    }
}

fn turn(step: ResearchStep) -> ResearchTurn {
    match step {
        ResearchStep::AskAgent(t) => t,
        ResearchStep::Finished(_) => panic!("expected questions"),
    }
}

fn again(end: ResearchEnd) -> ResearchSession {
    match end {
        ResearchEnd::AskModel(s) => s,
        ResearchEnd::Finished(_) => panic!("expected another turn"),
    }
}

fn done(step: ResearchStep) -> String {
    match step {
        ResearchStep::Finished(t) => t,
        ResearchStep::AskAgent(_) => panic!("expected an answer"),
    }
}

#[test]
fn single_query_synthesis() {
    let researcher = MemoryResearcher::new(String::new(), String::new());
    let session = researcher.research("What does Alice like?");
    assert!(matches!(&session.messages[0], AgentMessage::User(t) if t == "What does Alice like?"));
    let t = turn(session.on_response(tools(vec![ask("tu_1", "What does Alice like?")])));
    assert_eq!(t.questions(), vec!["What does Alice like?"]);
    let session = again(t.finish(vec![Ok("Alice likes chocolate according to entry e1.".to_string())]));
    assert_eq!(session.messages.len(), 3);
    let result = done(session.on_response(text(
        "Based on the memory database, Alice likes chocolate (entry e1).",
    )));
    assert!(result.contains("chocolate"));
}

#[test]
fn multiple_queries_synthesis() {
    let researcher = MemoryResearcher::new(String::new(), String::new());
    let session = researcher.research("What food does Alice like?");
    let t = turn(session.on_response(tools(vec![ask("tu_1", "What food does Alice like?")])));
    let session = again(t.finish(vec![Ok("Alice likes chocolate.".to_string())]));
    let t = turn(session.on_response(tools(vec![ask("tu_2", "Tell me more about Alice and chocolate")])));
    let session = again(t.finish(vec![Ok("Alice prefers dark chocolate from Belgium.".to_string())]));
    assert_eq!(session.iterations, 2);
    let result = done(session.on_response(text("Alice likes dark chocolate, especially from Belgium.")));
    assert!(result.contains("dark chocolate"));
    assert!(result.contains("Belgium"));
}

#[test]
fn refusal_falls_back_to_raw() {
    let researcher = MemoryResearcher::new(String::new(), String::new());
    let session = researcher.research("test");
    let t = turn(session.on_response(tools(vec![ask("tu_1", "test query")])));
    let session = again(t.finish(vec![Ok("Raw agent output about the topic.".to_string())]));
    let result = done(session.on_response(text("I can't assist with that request.")));
    assert!(result.contains("Raw agent output"));
}

#[test]
fn immediate_text_response() {
    let researcher = MemoryResearcher::new(String::new(), String::new());
    let result = done(
        researcher
            .research("test")
            .on_response(text("I don't need to query the database for this.")),
    );
    assert_eq!(result, "I don't need to query the database for this.");
}

#[test]
fn test_refusal_detection() {
    assert!(is_refusal("I can't assist with that request."));
    assert!(is_refusal("As an AI, I cannot do that."));
    assert!(is_refusal("I'm not able to help with this."));
    assert!(!is_refusal("Here are the search results."));
    assert!(!is_refusal("No relevant memories found."));
}

#[test]
fn test_context_prepended() {
    let researcher = MemoryResearcher::new(
        "Alice is a kind person".to_string(),
        "Bob is the user".to_string(),
    );
    assert!(!researcher.char_definition.is_empty());
    assert!(!researcher.user_description.is_empty());
    assert_eq!(
        researcher.first_message("Who am I?"),
        "<character>\nAlice is a kind person\n</character>\n<user>\nBob is the user\n</user>\n\nWho am I?"
    );
}

#[test]
fn refusal_in_the_middle_ends_the_research() {
    let researcher = MemoryResearcher::new(String::new(), "Bob".to_string());
    assert_eq!(researcher.first_message("x"), "<user>\nBob\n</user>\n\nx");
    let refusing = AgentLlmResponse {
        text: "I am unable to continue".to_string(),
        content_blocks: vec![ask("tu_1", "q")],
        finish_reason: "tool_use".to_string(),
    };
    assert_eq!(done(researcher.research("x").on_response(refusing)), NO_RESULTS);
}

#[test]
fn unknown_tools_and_errors_are_reported() {
    let researcher = MemoryResearcher::new(String::new(), String::new());
    let other = ContentBlock::ToolUse {
        id: "u".to_string(),
        name: "browse".to_string(),
        input: ToolInput { fields: vec![], raw: String::new() },
    };
    let t = turn(researcher.research("x").on_response(tools(vec![ask("a", "q1"), other, ask("b", "q2")])));
    assert_eq!(t.questions(), vec!["q1", "q2"]);
    let session = again(t.finish(vec![Err("llm: down".to_string()), Ok("fine".to_string())]));
    assert_eq!(
        session.outputs,
        vec!["Error: llm: down", "Error: unknown tool 'browse'.", "fine"]
    );
    assert_eq!(
        done(session.on_response(text("  "))),
        "Error: llm: down\n\nError: unknown tool 'browse'.\n\nfine"
    );
}

#[test]
fn research_ends_after_its_last_turn() {
    let researcher = MemoryResearcher::new(String::new(), String::new());
    let mut session = researcher.research("x");
    for i in 0..MAX_RESEARCHER_ITERATIONS {
        let t = turn(session.on_response(tools(vec![ask("a", "q")])));
        match t.finish(vec![Ok(NO_RESULTS.to_string())]) {
            ResearchEnd::AskModel(s) => session = s,
            ResearchEnd::Finished(answer) => {
                assert_eq!(i + 1, MAX_RESEARCHER_ITERATIONS);
                assert_eq!(answer, NO_RESULTS);
                return;
            }
        }
    }
    panic!("the research did not end");
}

#[test]
fn useless_outputs_are_left_out() {
    let outputs = vec!["".to_string(), NO_RESULTS.to_string(), "a".to_string(), "b".to_string()];
    assert_eq!(conclude("", &outputs), "a\n\nb");
    assert_eq!(conclude(" trimmed ", &outputs), "trimmed");
    assert_eq!(conclude("", &vec![NO_RESULTS.to_string()]), NO_RESULTS);
    assert_eq!(ask_memory_agent_tool().required, vec!["question"]);
}

fn response(text: &str, finish_reason: &str) -> MemoryLlmResponse {
    MemoryLlmResponse {
        text: text.to_string(),
        content_blocks: vec![],
        finish_reason: finish_reason.to_string(),
    }
}

#[test]
fn unusable_responses_are_asked_for_again() {
    assert!(matches!(
        on_response(0, response(" ", "end_turn")),
        RetryStep::RetryAfter { delay_ms: 500, attempt: 1 }
    ));
    assert!(matches!(
        on_response(1, response("text", "content_filter")),
        RetryStep::RetryAfter { delay_ms: 1000, attempt: 2 }
    ));
    assert!(matches!(on_response(2, response("", "refusal")), RetryStep::Accept(_)));
    assert!(matches!(on_response(0, response("text", "end_turn")), RetryStep::Accept(_)));
    assert!(matches!(
        on_error(1, "503", RetryDecision::Retry),
        RetryStep::RetryAfter { delay_ms: 1000, attempt: 2 }
    ));
    match on_error(0, "bad key", RetryDecision::Fail) {
        RetryStep::GiveUp(e) => assert_eq!(e.message(), "llm transport: bad key"),
        _ => panic!("expected an error"),
    }
    assert!(matches!(on_error(0, "x", RetryDecision::FallbackModel), RetryStep::GiveUp(_)));
    assert_eq!(MemoryLlmError::MockExhausted.message(), "mock: no more canned responses");
}
