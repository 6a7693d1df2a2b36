//! What a language model sends back to the memory agent, and the conversation it is sent.
use crate::memory::agent::types::{calls_view, ToolCall, ToolCallView, ToolInput, ToolResult};
use crate::text::compose::cat2;
use crate::text::split::{join_texts, joined, texts};
use vstd::prelude::*;

verus! {

broadcast use vstd::string::group_string_axioms;

/// Errors from agent model calls.
#[derive(Debug)]
pub enum AgentLlmError {
    /// Transport or API error.
    Transport(String),
    /// No more canned responses.
    MockExhausted,
}

impl AgentLlmError {
    /// The text that is shown for the error.
    pub open spec fn text(&self) -> Seq<char> {
        match self {
            AgentLlmError::Transport(e) => "llm transport: "@ + e@,
            AgentLlmError::MockExhausted => "mock: no more canned responses"@,
        }
    }

    /// The text that is shown for the error.
    pub fn message(&self) -> (r: String)
        ensures
            r@ == self.text(),
    {
        match self {
            AgentLlmError::Transport(e) => cat2("llm transport: ", e.as_str()),
            AgentLlmError::MockExhausted => "mock: no more canned responses".to_owned(),
        }
    }
}

/// One block of a model's message.
#[derive(Debug)]
pub enum ContentBlock {
    /// Plain text.
    Text {
        /// The text.
        text: String,
    },
    /// A request to run a tool.
    ToolUse {
        /// Identifies the request.
        id: String,
        /// The tool's name.
        name: String,
        /// The tool's arguments.
        input: ToolInput,
    },
    /// The model's reasoning.
    Thinking {
        /// The reasoning text.
        thinking: String,
    },
    /// What a tool returned.
    ToolResult {
        /// The request that is answered.
        tool_use_id: String,
        /// The answer.
        content: String,
        /// Whether the answer reports a failure.
        is_error: bool,
    },
}

/// One message of a conversation with a model.
#[derive(Debug)]
pub enum AgentMessage {
    /// Plain text from the user.
    User(String),
    /// Plain text from the model.
    Assistant(String),
    /// A structured message of the model.
    AssistantBlocks(Vec<ContentBlock>),
    /// The answers to the model's tool requests.
    ToolResults(Vec<ToolResult>),
}

/// A model's response.
#[derive(Debug)]
pub struct AgentLlmResponse {
    /// The text blocks in a row.
    pub text: String,
    /// All blocks.
    pub content_blocks: Vec<ContentBlock>,
    /// Why the model stopped.
    pub finish_reason: String,
}

/// The texts of the text blocks, in order.
pub open spec fn text_blocks(blocks: Seq<ContentBlock>) -> Seq<Seq<char>>
    decreases blocks.len(),
{
    if blocks.len() == 0 {
        Seq::empty()
    } else {
        let t = text_blocks(blocks.drop_last());
        match blocks.last() {
            ContentBlock::Text { text } => t.push(text@),
            _ => t,
        }
    }
}

/// The tool requests among the blocks, in order.
pub open spec fn tool_uses(blocks: Seq<ContentBlock>) -> Seq<ToolCallView>
    decreases blocks.len(),
{
    if blocks.len() == 0 {
        Seq::empty()
    } else {
        let t = tool_uses(blocks.drop_last());
        match blocks.last() {
            ContentBlock::ToolUse { id, name, input } => t.push(
                ToolCallView { id: id@, name: name@, input: input@ },
            ),
            _ => t,
        }
    }
}

/// The text of a response: its text blocks in a row, or the content field where there are no blocks.
pub fn response_text(content: &str, blocks: &Vec<ContentBlock>) -> (r: String)
    ensures
        r@ == if blocks@.len() == 0 {
            content@
        } else {
            joined(text_blocks(blocks@), ""@)
        },
{
    if blocks.len() == 0 {
        return content.to_owned();
    }
    let mut parts: Vec<String> = Vec::new();
    let mut i: usize = 0;
    proof {
        assert(texts(parts@) =~= text_blocks(blocks@.take(0)));
    }
    while i < blocks.len()
        invariant
            i <= blocks.len(),
            texts(parts@) == text_blocks(blocks@.take(i as int)),
        decreases blocks.len() - i,
    {
        proof {
            assert(blocks@.take(i + 1).drop_last() =~= blocks@.take(i as int));
        }
        match &blocks[i] {
            ContentBlock::Text { text } => {
                let t = text.clone();
                proof {
                    crate::text::split::lemma_texts_push(parts@, t);
                }
                parts.push(t);
            },
            _ => {},
        }
        i += 1;
    }
    proof {
        assert(blocks@.take(i as int) =~= blocks@);
    }
    join_texts(&parts, "")
}

/// The tool requests among the blocks, in order.
pub fn extract_tool_uses(blocks: &Vec<ContentBlock>) -> (r: Vec<ToolCall>)
    ensures
        calls_view(r@) == tool_uses(blocks@),
{
    let mut out: Vec<ToolCall> = Vec::new();
    let mut i: usize = 0;
    proof {
        assert(calls_view(out@) =~= tool_uses(blocks@.take(0)));
    }
    while i < blocks.len()
        invariant
            i <= blocks.len(),
            calls_view(out@) == tool_uses(blocks@.take(i as int)),
        decreases blocks.len() - i,
    {
        proof {
            assert(blocks@.take(i + 1).drop_last() =~= blocks@.take(i as int));
        }
        match &blocks[i] {
            ContentBlock::ToolUse { id, name, input } => {
                let call = ToolCall { id: id.clone(), name: name.clone(), input: input.copied() };
                proof {
                    assert(calls_view(out@.push(call)) =~= calls_view(out@).push(call@));
                }
                out.push(call);
            },
            _ => {},
        }
        i += 1;
    }
    proof {
        assert(blocks@.take(i as int) =~= blocks@);
    }
    out
}

}
