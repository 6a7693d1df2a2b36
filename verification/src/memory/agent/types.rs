//! Types shared across the memory agent.
use crate::text::compose::{cat2, clone_option, option_text, same_text};
use vstd::prelude::*;

verus! {

broadcast use vstd::string::group_string_axioms;

/// Who is calling the memory agent.
#[derive(Debug, Clone, Copy, PartialEq, Eq, Structural)]
pub enum CallerIdentity {
    /// The character, by a tool call during generation: "I", "me" and "my" mean the character.
    Char,
    /// The user, in a memory shell: "I", "me" and "my" mean the user.
    User,
}

/// How the memory agent is run.
#[derive(Debug, Clone, Copy, PartialEq, Eq, Structural)]
pub enum AgentMode {
    /// One request, one result.
    OneShot,
    /// An interactive memory shell.
    Interactive,
}

/// Errors of the memory agent.
#[derive(Debug)]
pub enum AgentError {
    /// The memory database failed.
    Db(String),
    /// Retrieval failed.
    Rag(String),
    /// Indexing failed.
    Indexing(String),
    /// The language model failed.
    Llm(String),
    /// The tool loop ran out of turns.
    MaxIterations,
}

impl AgentError {
    /// The text that is shown for the error.
    pub open spec fn text(&self) -> Seq<char> {
        match self {
            AgentError::Db(e) => "db: "@ + e@,
            AgentError::Rag(e) => "rag: "@ + e@,
            AgentError::Indexing(e) => "indexing: "@ + e@,
            AgentError::Llm(e) => "llm: "@ + e@,
            AgentError::MaxIterations => "agent loop reached maximum iterations"@,
        }
    }

    /// The text that is shown for the error.
    pub fn message(&self) -> (r: String)
        ensures
            r@ == self.text(),
    {
        match self {
            AgentError::Db(e) => cat2("db: ", e.as_str()),
            AgentError::Rag(e) => cat2("rag: ", e.as_str()),
            AgentError::Indexing(e) => cat2("indexing: ", e.as_str()),
            AgentError::Llm(e) => cat2("llm: ", e.as_str()),
            AgentError::MaxIterations => "agent loop reached maximum iterations".to_owned(),
        }
    }
}

/// The result of one tool call.
#[derive(Debug)]
pub struct ToolResult {
    /// The request that is answered.
    pub tool_use_id: String,
    /// The answer.
    pub content: String,
    /// Whether the answer reports a failure.
    pub is_error: bool,
}

/// A tool result as plain text.
pub struct ToolResultView {
    pub tool_use_id: Seq<char>,
    pub content: Seq<char>,
    pub is_error: bool,
}

impl View for ToolResult {
    type V = ToolResultView;

    open spec fn view(&self) -> ToolResultView {
        ToolResultView {
            tool_use_id: self.tool_use_id@,
            content: self.content@,
            is_error: self.is_error,
        }
    }
}

/// One argument of a tool call, as far as it can be read as each type.
#[derive(Debug)]
pub struct InputField {
    /// The argument's name.
    pub name: String,
    /// Its value where it is a string.
    pub text: Option<String>,
    /// Its value where it is an integer that fits `i64`.
    pub signed: Option<i64>,
    /// Its value where it is an integer that fits `u64`.
    pub unsigned: Option<u64>,
    /// The bits of its value as a double, where it is a number.
    pub real_bits: Option<u64>,
}

/// The arguments of a tool call.
#[derive(Debug)]
pub struct ToolInput {
    /// The arguments by name.
    pub fields: Vec<InputField>,
    /// The arguments as they were written.
    pub raw: String,
}

/// One argument as plain values.
pub struct InputFieldView {
    pub name: Seq<char>,
    pub text: Option<Seq<char>>,
    pub signed: Option<i64>,
    pub unsigned: Option<u64>,
    pub real_bits: Option<u64>,
}

impl View for InputField {
    type V = InputFieldView;

    open spec fn view(&self) -> InputFieldView {
        InputFieldView {
            name: self.name@,
            text: option_text(self.text),
            signed: self.signed,
            unsigned: self.unsigned,
            real_bits: self.real_bits,
        }
    }
}

/// Tool arguments as plain values.
pub struct ToolInputView {
    pub fields: Seq<InputFieldView>,
    pub raw: Seq<char>,
}

impl View for ToolInput {
    type V = ToolInputView;

    open spec fn view(&self) -> ToolInputView {
        ToolInputView {
            fields: Seq::new(self.fields@.len(), |i: int| self.fields@[i]@),
            raw: self.raw@,
        }
    }
}

impl ToolInputView {
    /// The first argument called `name`.
    pub open spec fn field(self, name: Seq<char>) -> Option<InputFieldView>
        decreases self.fields.len(),
    {
        if self.fields.len() == 0 {
            None
        } else if self.fields[0].name == name {
            Some(self.fields[0])
        } else {
            (ToolInputView { fields: self.fields.skip(1), raw: self.raw }).field(name)
        }
    }

    /// The argument `name` read as a string.
    pub open spec fn text(self, name: Seq<char>) -> Option<Seq<char>> {
        match self.field(name) {
            Some(f) => f.text,
            None => None,
        }
    }

    /// The argument `name` read as a string, with a default.
    pub open spec fn text_or(self, name: Seq<char>, default: Seq<char>) -> Seq<char> {
        match self.text(name) {
            Some(t) => t,
            None => default,
        }
    }

    /// The argument `name` read as an `i64`.
    pub open spec fn signed(self, name: Seq<char>) -> Option<i64> {
        match self.field(name) {
            Some(f) => f.signed,
            None => None,
        }
    }

    /// The argument `name` read as a `u64`.
    pub open spec fn unsigned(self, name: Seq<char>) -> Option<u64> {
        match self.field(name) {
            Some(f) => f.unsigned,
            None => None,
        }
    }

    /// The bits of the argument `name` read as a double.
    pub open spec fn real_bits(self, name: Seq<char>) -> Option<u64> {
        match self.field(name) {
            Some(f) => f.real_bits,
            None => None,
        }
    }
}

impl ToolInput {
    fn position(&self, name: &str) -> (r: Option<usize>)
        ensures
            match r {
                Some(i) => i < self.fields@.len() && self@.field(name@) == Some(
                    self.fields@[i as int]@,
                ),
                None => self@.field(name@) is None,
            },
    {
        let mut i: usize = 0;
        let ghost all = self@.fields;
        proof {
            assert(all.skip(0) =~= all);
        }
        while i < self.fields.len()
            invariant
                i <= self.fields.len(),
                all == self@.fields,
                self@.field(name@) == (ToolInputView {
                    fields: all.skip(i as int),
                    raw: self@.raw,
                }).field(name@),
            decreases self.fields.len() - i,
        {
            proof {
                assert(all.skip(i as int)[0] == self.fields@[i as int]@);
                assert(all.skip(i as int).skip(1) =~= all.skip(i + 1));
            }
            if same_text(self.fields[i].name.as_str(), name) {
                return Some(i);
            }
            i += 1;
        }
        None
    }

    /// The argument `name` read as a string.
    pub fn text(&self, name: &str) -> (r: Option<String>)
        ensures
            option_text(r) == self@.text(name@),
    {
        match self.position(name) {
            Some(i) => clone_option(&self.fields[i].text),
            None => None,
        }
    }

    /// The argument `name` read as a string, or `default`.
    pub fn text_or(&self, name: &str, default: &str) -> (r: String)
        ensures
            r@ == self@.text_or(name@, default@),
    {
        match self.text(name) {
            Some(t) => t,
            None => default.to_owned(),
        }
    }

    /// The argument `name` read as an `i64`.
    pub fn signed(&self, name: &str) -> (r: Option<i64>)
        ensures
            r == self@.signed(name@),
    {
        match self.position(name) {
            Some(i) => self.fields[i].signed,
            None => None,
        }
    }

    /// The argument `name` read as a `u64`.
    pub fn unsigned(&self, name: &str) -> (r: Option<u64>)
        ensures
            r == self@.unsigned(name@),
    {
        match self.position(name) {
            Some(i) => self.fields[i].unsigned,
            None => None,
        }
    }

    /// The bits of the argument `name` read as a double.
    pub fn real_bits(&self, name: &str) -> (r: Option<u64>)
        ensures
            r == self@.real_bits(name@),
    {
        match self.position(name) {
            Some(i) => self.fields[i].real_bits,
            None => None,
        }
    }

    /// A copy with the same arguments.
    pub fn copied(&self) -> (r: ToolInput)
        ensures
            r@ == self@,
    {
        let mut fields: Vec<InputField> = Vec::new();
        let mut i: usize = 0;
        while i < self.fields.len()
            invariant
                i <= self.fields.len(),
                fields.len() == i,
                forall|k: int| 0 <= k < i ==> #[trigger] fields@[k]@ == self.fields@[k]@,
            decreases self.fields.len() - i,
        {
            let f = &self.fields[i];
            fields.push(
                InputField {
                    name: f.name.clone(),
                    text: clone_option(&f.text),
                    signed: f.signed,
                    unsigned: f.unsigned,
                    real_bits: f.real_bits,
                },
            );
            i += 1;
        }
        let r = ToolInput { fields, raw: self.raw.clone() };
        assert(r@.fields =~= self@.fields);
        r
    }
}

/// A model's request to run a tool.
#[derive(Debug)]
pub struct ToolCall {
    /// Identifies the request.
    pub id: String,
    /// The tool's name.
    pub name: String,
    /// The tool's arguments.
    pub input: ToolInput,
}

/// A tool request as plain values.
pub struct ToolCallView {
    pub id: Seq<char>,
    pub name: Seq<char>,
    pub input: ToolInputView,
}

impl View for ToolCall {
    type V = ToolCallView;

    open spec fn view(&self) -> ToolCallView {
        ToolCallView { id: self.id@, name: self.name@, input: self.input@ }
    }
}

/// The requests as plain values.
pub open spec fn calls_view(calls: Seq<ToolCall>) -> Seq<ToolCallView> {
    Seq::new(calls.len(), |i: int| calls[i]@)
}

impl ToolCall {
    /// A copy of the request.
    pub fn copied(&self) -> (r: ToolCall)
        ensures
            r@ == self@,
    {
        ToolCall { id: self.id.clone(), name: self.name.clone(), input: self.input.copied() }
    }
}

/// A write that is shown to the user before it is carried out.
#[derive(Debug)]
pub struct ProposedOperation {
    /// The request.
    pub tool_use_id: String,
    /// The tool's name.
    pub tool_name: String,
    /// The tool's arguments.
    pub args: ToolInput,
    /// What the user is shown.
    pub description: String,
}

}
