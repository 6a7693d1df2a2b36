//! The memory researcher: a cheap model puts questions to the memory agent and sums up what it learns.
use crate::memory::agent::tool_schemas::{
    described, described_property, ToolDefinition, ToolDefinitionView,
};
use crate::memory::agent::types::{calls_view, ToolCall, ToolCallView, ToolResult, ToolResultView};
use crate::memory::agent::tool_loop::{extends_conversation, results_view};
use crate::memory::agent_llm::{
    extract_tool_uses, tool_uses, AgentLlmResponse, AgentMessage, ContentBlock,
};
use crate::text::compose::{cat2, cat3, same_text};
use crate::text::search::{
    containing_survives_framing, contains, contains_text, ends_with, occurs_at, the_middle_is_contained,
};
use crate::text::split::{join_texts, joined, lemma_texts_push, texts};
use crate::text::trim::{lowercase, strip_start, to_lowercase, trim_text, trimmed, CharClass};
use vstd::prelude::*;

verus! {

broadcast use vstd::string::group_string_axioms;

/// How often the researching model is asked.
pub const MAX_RESEARCHER_ITERATIONS: usize = 15;

/// The answer when nothing was found.
pub const NO_RESULTS: &'static str = "No relevant memories found.";

/// The name of the one tool of the researcher.
pub const ASK_TOOL: &'static str = "ask_memory_agent";

/// What the tool does.
pub const ASK_TOOL_DESCRIPTION: &'static str = "Query the memory database in natural language. The memory agent can search, browse, create, update, and supersede memory entries. Ask it anything about the stored memories.";

/// What the tool's argument means.
pub const ASK_QUESTION_DESCRIPTION: &'static str = "Your question or request for the memory database";

/// The system prompt of the researching model.
pub const RESEARCHER_SYSTEM_PROMPT: &'static str = "You are a memory research agent. You have access to a memory database through a natural-language query tool. Your job is to fulfill the primary character's memory request by querying the database, chasing leads, cross-referencing results, and returning a clear synthesis.

SEARCH PHASE:
- Ask focused questions to find relevant memories.
- If initial results mention related people, events, or topics, ask follow-up questions to find those too.
- For requests about current state or latest info, verify there isn't a newer entry that supersedes older ones.
- Stop when results are repeating or you've covered the topic.

SAVE/UPDATE REQUESTS:
When the request is to save or update a memory, do BOTH of these:
1. **Search first** — look up existing memories on the same topic before saving. This lets the memory agent deduplicate or update existing entries instead of blindly creating new ones.
2. **Pass the save/update through** to the memory agent.

RESPONSE PHASE:
Return a plain-text synthesis of what you found. Include entry IDs so the caller can reference specific memories.
- For pure lookups: synthesize the results.
- For save/update requests: confirm what was done AND include any related prior context on the topic that the caller might find useful. The caller does not automatically see what's already in memory, so surfacing related existing knowledge helps them stay informed without having to issue a separate lookup.
- If nothing relevant was found, say so clearly.

PRONOUN RULES:
In your synthesis, always refer to the <character> and <user> by name, never as \"you\". The primary character (your caller) will read your response and inject it into a roleplay conversation — ambiguous \"you\" causes confusion between the character and the user.";

/// The text, in lower case, holds one of the phrases by which models refuse.
pub open spec fn refuses(text: Seq<char>) -> bool {
    let lower = lowercase(text);
    ||| contains(lower, "i can't assist"@)
    ||| contains(lower, "i cannot assist"@)
    ||| contains(lower, "i'm not able to"@)
    ||| contains(lower, "i am not able to"@)
    ||| contains(lower, "i can't help with"@)
    ||| contains(lower, "i cannot help with"@)
    ||| contains(lower, "i'm unable to"@)
    ||| contains(lower, "i am unable to"@)
    ||| contains(lower, "as an ai"@)
    ||| contains(lower, "as a language model"@)
}

/// Whether the text is a refusal.
pub fn is_refusal(text: &str) -> (r: bool)
    ensures
        r == refuses(text@),
{
    let lower = to_lowercase(text);
    let l = lower.as_str();
    contains_text(l, "i can't assist") || contains_text(l, "i cannot assist") || contains_text(
        l,
        "i'm not able to",
    ) || contains_text(l, "i am not able to") || contains_text(l, "i can't help with")
        || contains_text(l, "i cannot help with") || contains_text(l, "i'm unable to")
        || contains_text(l, "i am unable to") || contains_text(l, "as an ai") || contains_text(
        l,
        "as a language model",
    )
}

/// The answers worth handing on: neither empty nor the report that nothing was found.
pub open spec fn useful(outputs: Seq<Seq<char>>) -> Seq<Seq<char>> {
    outputs.filter(|t: Seq<char>| t.len() > 0 && t != NO_RESULTS@)
}

/// The final answer: the model's last text, unless it is blank or a refusal; in that case what the
/// memory agent said, or the report that nothing was found.
pub open spec fn final_answer(last_text: Seq<char>, outputs: Seq<Seq<char>>) -> Seq<char> {
    let t = trimmed(last_text);
    if t.len() > 0 && !refuses(t) {
        t
    } else if useful(outputs).len() == 0 {
        NO_RESULTS@
    } else {
        joined(useful(outputs), "\n\n"@)
    }
}

fn keep_useful(outputs: &Vec<String>) -> (r: Vec<String>)
    ensures
        texts(r@) == useful(texts(outputs@)),
{
    let mut out: Vec<String> = Vec::new();
    let ghost all = texts(outputs@);
    let mut i: usize = 0;
    proof {
        reveal(Seq::filter);
        assert(texts(out@) =~= useful(all.take(0)));
    }
    while i < outputs.len()
        invariant
            i <= outputs.len(),
            all == texts(outputs@),
            texts(out@) == useful(all.take(i as int)),
        decreases outputs.len() - i,
    {
        proof {
            reveal(Seq::filter);
            assert(all.take(i + 1).drop_last() =~= all.take(i as int));
            assert(all.take(i + 1).last() == outputs@[i as int]@);
        }
        if !outputs[i].as_str().is_empty() && !same_text(outputs[i].as_str(), NO_RESULTS) {
            let t = outputs[i].clone();
            proof {
                lemma_texts_push(out@, t);
            }
            out.push(t);
        }
        i += 1;
    }
    proof {
        assert(all.take(i as int) =~= all);
    }
    out
}

/// The final answer from the model's last text and what the memory agent said.
pub fn conclude(last_text: &str, outputs: &Vec<String>) -> (r: String)
    ensures
        r@ == final_answer(last_text@, texts(outputs@)),
{
    let t = trim_text(last_text);
    if !t.as_str().is_empty() && !is_refusal(t.as_str()) {
        return t;
    }
    let parts = keep_useful(outputs);
    proof {
        assert(texts(parts@).len() == parts@.len());
    }
    if parts.len() == 0 {
        NO_RESULTS.to_owned()
    } else {
        join_texts(&parts, "\n\n")
    }
}

/// The requests that go to the memory agent.
pub open spec fn ask_calls(calls: Seq<ToolCallView>) -> Seq<ToolCallView> {
    calls.filter(|c: ToolCallView| c.name == ASK_TOOL@)
}

/// What is answered to the request number `i`: the memory agent's answer or error, or that there is no
/// such tool.
pub open spec fn output_of(
    calls: Seq<ToolCallView>,
    answers: Seq<Result<String, String>>,
    i: int,
) -> Seq<char> {
    if calls[i].name == ASK_TOOL@ {
        match answers[ask_calls(calls.take(i)).len() as int] {
            Ok(t) => t@,
            Err(e) => "Error: "@ + e@,
        }
    } else {
        "Error: unknown tool '"@ + calls[i].name + "'."@
    }
}

/// What is answered to all requests, in order.
pub open spec fn outputs_of(
    calls: Seq<ToolCallView>,
    answers: Seq<Result<String, String>>,
) -> Seq<Seq<char>> {
    Seq::new(calls.len(), |i: int| output_of(calls, answers, i))
}

/// The answers as tool results.
pub open spec fn answer_results(calls: Seq<ToolCallView>, outputs: Seq<Seq<char>>) -> Seq<
    ToolResultView,
> {
    Seq::new(
        calls.len(),
        |i: int|
            ToolResultView { tool_use_id: calls[i].id, content: outputs[i], is_error: false },
    )
}

/// The state of a research while the model is to be asked.
#[derive(Debug)]
pub struct ResearchSession {
    /// What the model is sent.
    pub messages: Vec<AgentMessage>,
    /// What the memory agent has said so far.
    pub outputs: Vec<String>,
    /// How often the model has been asked.
    pub iterations: usize,
}

/// A turn in which the model asked questions.
#[derive(Debug)]
pub struct ResearchTurn {
    /// The research before this turn.
    pub state: ResearchSession,
    /// The model's message.
    pub blocks: Vec<ContentBlock>,
    /// The model's text.
    pub text: String,
    /// The model's tool requests.
    pub calls: Vec<ToolCall>,
}

/// What is to be done after the model has answered.
#[derive(Debug)]
pub enum ResearchStep {
    /// The research is over.
    Finished(String),
    /// Questions are to be put to the memory agent.
    AskAgent(ResearchTurn),
}

/// What is to be done after the questions have been answered.
#[derive(Debug)]
pub enum ResearchEnd {
    /// The model is to be asked again.
    AskModel(ResearchSession),
    /// The research is over.
    Finished(String),
}

/// The cheap-model tier that drives the memory agent.
#[derive(Debug)]
pub struct MemoryResearcher {
    /// Who the character is.
    pub char_definition: String,
    /// Who the user is.
    pub user_description: String,
}

/// The context that precedes a request.
pub open spec fn context_parts(char_definition: Seq<char>, user_description: Seq<char>) -> Seq<
    Seq<char>,
> {
    let a = if char_definition.len() > 0 {
        seq!["<character>\n"@ + char_definition + "\n</character>"@]
    } else {
        Seq::empty()
    };
    if user_description.len() > 0 {
        a.push("<user>\n"@ + user_description + "\n</user>"@)
    } else {
        a
    }
}

/// The first message of a research: the context, where there is any, and the request.
pub open spec fn opening(
    char_definition: Seq<char>,
    user_description: Seq<char>,
    request: Seq<char>,
) -> Seq<char> {
    let parts = context_parts(char_definition, user_description);
    if parts.len() == 0 {
        request
    } else {
        joined(parts, "\n"@) + "\n\n"@ + request
    }
}

impl MemoryResearcher {
    /// A researcher for a character and a user.
    pub fn new(char_definition: String, user_description: String) -> (r: MemoryResearcher)
        ensures
            r.char_definition == char_definition,
            r.user_description == user_description,
    {
        MemoryResearcher { char_definition, user_description }
    }

    /// The first message of a research.
    pub fn first_message(&self, request: &str) -> (r: String)
        ensures
            r@ == opening(self.char_definition@, self.user_description@, request@),
    {
        let mut parts: Vec<String> = Vec::new();
        proof {
            assert(texts(parts@) =~= Seq::<Seq<char>>::empty());
        }
        if !self.char_definition.as_str().is_empty() {
            let t = cat3("<character>\n", self.char_definition.as_str(), "\n</character>");
            proof {
                lemma_texts_push(parts@, t);
                assert(texts(parts@).push(t@) =~= seq![t@]);
            }
            parts.push(t);
        }
        if !self.user_description.as_str().is_empty() {
            let t = cat3("<user>\n", self.user_description.as_str(), "\n</user>");
            proof {
                lemma_texts_push(parts@, t);
            }
            parts.push(t);
        }
        proof {
            assert(texts(parts@) == context_parts(self.char_definition@, self.user_description@));
            assert(texts(parts@).len() == parts@.len());
        }
        if parts.len() == 0 {
            request.to_owned()
        } else {
            cat3(join_texts(&parts, "\n").as_str(), "\n\n", request)
        }
    }

    /// Starts a research.
    pub fn research(&self, request: &str) -> (r: ResearchSession)
        ensures
            r.wf(),
            r.iterations == 0,
            r.outputs@.len() == 0,
            r.messages@.len() == 1,
            r.messages@[0] is User,
            r.messages@[0]->User_0@ == opening(
                self.char_definition@,
                self.user_description@,
                request@,
            ),
    {
        let first = self.first_message(request);
        ResearchSession {
            messages: vec![AgentMessage::User(first)],
            outputs: Vec::new(),
            iterations: 0,
        }
    }
}

/// What follows on the model's answer.
pub open spec fn research_step(
    state: ResearchSession,
    response: AgentLlmResponse,
    step: ResearchStep,
) -> bool {
    match step {
        ResearchStep::Finished(text) => {
            &&& tool_uses(response.content_blocks@).len() == 0 || (response.text@.len() > 0 && refuses(
                response.text@,
            ))
            &&& text@ == final_answer(response.text@, texts(state.outputs@))
        },
        ResearchStep::AskAgent(turn) => {
            &&& tool_uses(response.content_blocks@).len() > 0
            &&& response.text@.len() == 0 || !refuses(response.text@)
            &&& turn.state == state
            &&& turn.blocks == response.content_blocks
            &&& turn.text == response.text
            &&& calls_view(turn.calls@) == tool_uses(response.content_blocks@)
        },
    }
}

/// What follows on the memory agent's answers.
pub open spec fn research_end(
    turn: ResearchTurn,
    answers: Seq<Result<String, String>>,
    end: ResearchEnd,
) -> bool {
    let calls = calls_view(turn.calls@);
    let outputs = texts(turn.state.outputs@) + outputs_of(calls, answers);
    match end {
        ResearchEnd::AskModel(next) => {
            &&& turn.state.iterations + 1 < MAX_RESEARCHER_ITERATIONS
            &&& next.wf()
            &&& next.iterations == turn.state.iterations + 1
            &&& texts(next.outputs@) == outputs
            &&& extends_conversation(
                turn.state.messages@,
                next.messages@,
                turn.blocks,
                answer_results(calls, outputs_of(calls, answers)),
            )
        },
        ResearchEnd::Finished(text) => {
            &&& turn.state.iterations + 1 == MAX_RESEARCHER_ITERATIONS
            &&& text@ == final_answer(turn.text@, outputs)
        },
    }
}

impl ResearchSession {
    /// The model may still be asked.
    pub open spec fn wf(&self) -> bool {
        self.iterations < MAX_RESEARCHER_ITERATIONS
    }

    /// Takes the model's answer. The research is over where it asks nothing or refuses; otherwise its
    /// questions go to the memory agent.
    pub fn on_response(self, response: AgentLlmResponse) -> (r: ResearchStep)
        ensures
            research_step(self, response, r),
    {
        let calls = extract_tool_uses(&response.content_blocks);
        proof {
            assert(calls_view(calls@).len() == calls@.len());
        }
        if calls.len() == 0 || (!response.text.as_str().is_empty() && is_refusal(
            response.text.as_str(),
        )) {
            return ResearchStep::Finished(conclude(response.text.as_str(), &self.outputs));
        }
        ResearchStep::AskAgent(
            ResearchTurn {
                state: self,
                blocks: response.content_blocks,
                text: response.text,
                calls,
            },
        )
    }
}

proof fn lemma_ask_step(calls: Seq<ToolCallView>, i: int)
    requires
        0 <= i < calls.len(),
    ensures
        ask_calls(calls.take(i + 1)) == if calls[i].name == ASK_TOOL@ {
            ask_calls(calls.take(i)).push(calls[i])
        } else {
            ask_calls(calls.take(i))
        },
{
    reveal(Seq::filter);
    assert(calls.take(i + 1).drop_last() =~= calls.take(i));
    assert(calls.take(i + 1).last() == calls[i]);
}

proof fn lemma_ask_prefix(calls: Seq<ToolCallView>, i: int)
    requires
        0 <= i <= calls.len(),
    ensures
        ask_calls(calls.take(i)).len() <= ask_calls(calls).len(),
    decreases calls.len() - i,
{
    if i < calls.len() {
        lemma_ask_step(calls, i);
        lemma_ask_prefix(calls, i + 1);
    } else {
        assert(calls.take(i) =~= calls);
    }
}

/// The questions of the requests that go to the memory agent.
pub open spec fn questions_of(calls: Seq<ToolCallView>) -> Seq<Seq<char>> {
    Seq::new(
        ask_calls(calls).len(),
        |i: int| ask_calls(calls)[i].input.text_or("question"@, ""@),
    )
}

impl ResearchTurn {
    /// The questions to put to the memory agent, in order.
    pub fn questions(&self) -> (r: Vec<String>)
        ensures
            texts(r@) == questions_of(calls_view(self.calls@)),
    {
        let mut out: Vec<String> = Vec::new();
        let ghost all = calls_view(self.calls@);
        let mut i: usize = 0;
        proof {
            reveal(Seq::filter);
            assert(texts(out@) =~= questions_of(all.take(0)));
        }
        while i < self.calls.len()
            invariant
                i <= self.calls.len(),
                all == calls_view(self.calls@),
                texts(out@) == questions_of(all.take(i as int)),
            decreases self.calls.len() - i,
        {
            proof {
                lemma_ask_step(all, i as int);
            }
            if same_text(self.calls[i].name.as_str(), ASK_TOOL) {
                let q = self.calls[i].input.text_or("question", "");
                proof {
                    lemma_texts_push(out@, q);
                    assert(questions_of(all.take(i + 1)) =~= questions_of(all.take(i as int)).push(
                        q@,
                    ));
                }
                out.push(q);
            }
            i += 1;
        }
        proof {
            assert(all.take(i as int) =~= all);
        }
        out
    }

    fn answer(&self, answers: &Vec<Result<String, String>>) -> (r: Vec<String>)
        requires
            answers@.len() == ask_calls(calls_view(self.calls@)).len(),
        ensures
            texts(r@) == outputs_of(calls_view(self.calls@), answers@),
    {
        let mut out: Vec<String> = Vec::new();
        let ghost all = calls_view(self.calls@);
        let ghost want = outputs_of(all, answers@);
        let mut i: usize = 0;
        let mut used: usize = 0;
        proof {
            reveal(Seq::filter);
            assert(ask_calls(all.take(0)) =~= Seq::<ToolCallView>::empty());
        }
        while i < self.calls.len()
            invariant
                i <= self.calls.len(),
                all == calls_view(self.calls@),
                want == outputs_of(all, answers@),
                answers@.len() == ask_calls(all).len(),
                used == ask_calls(all.take(i as int)).len(),
                out.len() == i,
                forall|k: int| 0 <= k < i ==> #[trigger] out@[k]@ == want[k],
            decreases self.calls.len() - i,
        {
            proof {
                lemma_ask_step(all, i as int);
                lemma_ask_prefix(all, i + 1);
            }
            if same_text(self.calls[i].name.as_str(), ASK_TOOL) {
                let t = match &answers[used] {
                    Ok(t) => t.clone(),
                    Err(e) => cat2("Error: ", e.as_str()),
                };
                out.push(t);
                used += 1;
            } else {
                out.push(cat3("Error: unknown tool '", self.calls[i].name.as_str(), "'."));
            }
            i += 1;
        }
        assert(texts(out@) =~= want);
        out
    }

    /// Takes the memory agent's answers, one for each question. They go to the model and are kept; the
    /// research ends where the model has been asked often enough.
    pub fn finish(self, answers: Vec<Result<String, String>>) -> (r: ResearchEnd)
        requires
            self.state.wf(),
            answers@.len() == ask_calls(calls_view(self.calls@)).len(),
        ensures
            research_end(self, answers@, r),
    {
        let mut new_outputs = self.answer(&answers);
        let ghost calls = calls_view(self.calls@);
        let ghost fresh = texts(new_outputs@);
        assert(fresh.len() == new_outputs@.len());
        let mut results: Vec<ToolResult> = Vec::new();
        let mut i: usize = 0;
        while i < self.calls.len()
            invariant
                i <= self.calls.len(),
                calls == calls_view(self.calls@),
                new_outputs@.len() == self.calls@.len(),
                fresh == texts(new_outputs@),
                results.len() == i,
                forall|k: int|
                    0 <= k < i ==> #[trigger] results@[k]@ == answer_results(calls, fresh)[k],
            decreases self.calls.len() - i,
        {
            results.push(
                ToolResult {
                    tool_use_id: self.calls[i].id.clone(),
                    content: new_outputs[i].clone(),
                    is_error: false,
                },
            );
            i += 1;
        }
        assert(results_view(results@) =~= answer_results(calls, fresh));
        let mut state = self.state;
        state.outputs.append(&mut new_outputs);
        assert(texts(state.outputs@) =~= texts(self.state.outputs@) + fresh);
        state.iterations = state.iterations + 1;
        if state.iterations == MAX_RESEARCHER_ITERATIONS {
            return ResearchEnd::Finished(conclude(self.text.as_str(), &state.outputs));
        }
        state.messages.push(AgentMessage::AssistantBlocks(self.blocks));
        state.messages.push(AgentMessage::ToolResults(results));
        proof {
            let n = self.state.messages@.len() as int;
            assert(state.messages@.take(n) =~= self.state.messages@);
        }
        ResearchEnd::AskModel(state)
    }
}

/// The one tool of the researcher.
pub fn ask_memory_agent_tool() -> (r: ToolDefinition)
    ensures
        r@ == (ToolDefinitionView {
            name: ASK_TOOL@,
            description: ASK_TOOL_DESCRIPTION@,
            properties: seq![described("question"@, "string"@, ASK_QUESTION_DESCRIPTION@)],
            required: seq!["question"@],
        }),
{
    let r = ToolDefinition {
        name: ASK_TOOL.to_owned(),
        description: ASK_TOOL_DESCRIPTION.to_owned(),
        properties: vec![described_property("question", "string", ASK_QUESTION_DESCRIPTION)],
        required: vec!["question".to_owned()],
    };
    assert(r@.properties =~= seq![described("question"@, "string"@, ASK_QUESTION_DESCRIPTION@)]);
    assert(r@.required =~= seq!["question"@]);
    r
}

/// A research always has an answer, and never answers with a blank or a refusing text of the model.
pub proof fn research_answers_something(last_text: Seq<char>, outputs: Seq<Seq<char>>)
    ensures
        final_answer(last_text, outputs).len() > 0,
        refuses(trimmed(last_text)) || trimmed(last_text).len() == 0 ==> final_answer(
            last_text,
            outputs,
        ) == final_answer(Seq::empty(), outputs),
{
    reveal_strlit("No relevant memories found.");
    let p = useful(outputs);
    if p.len() > 0 {
        outputs.lemma_filter_pred(|t: Seq<char>| t.len() > 0 && t != NO_RESULTS@, p.len() - 1);
        assert(p[p.len() - 1].len() > 0);
        assert(joined(p, "\n\n"@).len() >= p.last().len());
    }
    crate::text::trim::lemma_strip_start_shape(Seq::empty(), CharClass::Space);
    crate::text::trim::lemma_strip_end_shape(
        strip_start(Seq::empty(), CharClass::Space),
        CharClass::Space,
    );
    assert(trimmed(Seq::empty()).len() == 0);
}

/// A phrase by which models refuse.
pub open spec fn is_refusing_phrase(p: Seq<char>) -> bool {
    ||| p == "i can't assist"@ || p == "i cannot assist"@
    ||| p == "i'm not able to"@ || p == "i am not able to"@
    ||| p == "i can't help with"@ || p == "i cannot help with"@
    ||| p == "i'm unable to"@ || p == "i am unable to"@
    ||| p == "as an ai"@ || p == "as a language model"@
}

/// A text refuses just when it holds one of the phrases, in capitals or not.
pub proof fn refusals_are_told_by_their_phrases(text: Seq<char>, phrase: Seq<char>)
    ensures
        is_refusing_phrase(phrase) && contains(lowercase(text), phrase) ==> refuses(text),
        refuses(text) ==> exists|p: Seq<char>| #[trigger]
            is_refusing_phrase(p) && contains(lowercase(text), p),
{
    if refuses(text) {
        let l = lowercase(text);
        let p = if contains(l, "i can't assist"@) {
            "i can't assist"@
        } else if contains(l, "i cannot assist"@) {
            "i cannot assist"@
        } else if contains(l, "i'm not able to"@) {
            "i'm not able to"@
        } else if contains(l, "i am not able to"@) {
            "i am not able to"@
        } else if contains(l, "i can't help with"@) {
            "i can't help with"@
        } else if contains(l, "i cannot help with"@) {
            "i cannot help with"@
        } else if contains(l, "i'm unable to"@) {
            "i'm unable to"@
        } else if contains(l, "i am unable to"@) {
            "i am unable to"@
        } else if contains(l, "as an ai"@) {
            "as an ai"@
        } else {
            "as a language model"@
        };
        assert(is_refusing_phrase(p) && contains(l, p));
    }
}

proof fn lemma_joined_holds(parts: Seq<Seq<char>>, sep: Seq<char>, k: int)
    requires
        0 <= k < parts.len(),
    ensures
        contains(joined(parts, sep), parts[k]),
    decreases parts.len(),
{
    let e = Seq::<char>::empty();
    let x = parts[k];
    if parts.len() == 1 {
        assert(e + x + e =~= x);
        the_middle_is_contained(e, x, e);
    } else {
        let t = joined(parts.drop_last(), sep);
        if k < parts.len() - 1 {
            lemma_joined_holds(parts.drop_last(), sep, k);
            containing_survives_framing(e, t, sep + parts.last(), x);
            assert(e + t + (sep + parts.last()) =~= t + sep + parts.last());
        } else {
            the_middle_is_contained(t + sep, x, e);
            assert(t + sep + x + e =~= t + sep + x);
        }
    }
}

/// The model's own text is the answer where it says something and does not refuse. Otherwise the answer holds
/// everything that the memory agent said, or says that nothing was found where that was all it said.
pub proof fn answers_hand_on_what_was_found(last_text: Seq<char>, outputs: Seq<Seq<char>>, k: int)
    ensures
        trimmed(last_text).len() > 0 && !refuses(trimmed(last_text)) ==> final_answer(last_text, outputs)
            == trimmed(last_text),
        (trimmed(last_text).len() == 0 || refuses(trimmed(last_text))) && 0 <= k < outputs.len()
            && outputs[k].len() > 0 && outputs[k] != NO_RESULTS@ ==> contains(
            final_answer(last_text, outputs),
            outputs[k],
        ),
        (trimmed(last_text).len() == 0 || refuses(trimmed(last_text))) && (forall|i: int|
            0 <= i < outputs.len() ==> (#[trigger] outputs[i]).len() == 0 || outputs[i] == NO_RESULTS@)
            ==> final_answer(last_text, outputs) == "No relevant memories found."@,
{
    let p = |t: Seq<char>| t.len() > 0 && t != NO_RESULTS@;
    let u = useful(outputs);
    if 0 <= k < outputs.len() && outputs[k].len() > 0 && outputs[k] != NO_RESULTS@ {
        outputs.lemma_filter_contains(p, k);
        let i = choose|i: int| 0 <= i < u.len() && u[i] == outputs[k];
        lemma_joined_holds(u, "\n\n"@, i);
    }
    if forall|i: int| 0 <= i < outputs.len() ==> (#[trigger] outputs[i]).len() == 0 || outputs[i]
        == NO_RESULTS@ {
        if u.len() > 0 {
            outputs.lemma_filter_pred(p, 0);
            assert(u.contains(u[0]));
            outputs.lemma_filter_contains_rev(p, u[0]);
            let i = choose|i: int| 0 <= i < outputs.len() && outputs[i] == u[0];
            assert(outputs[i].len() == 0 || outputs[i] == NO_RESULTS@);
        }
    }
}

/// The questions go to the memory agent in their order, and each answer or error goes back to the request
/// that asked; another tool is named as unknown and uses up no answer.
pub proof fn questions_get_their_answers(
    calls: Seq<ToolCallView>,
    answers: Seq<Result<String, String>>,
    i: int,
)
    requires
        0 <= i < calls.len(),
    ensures
        outputs_of(calls, answers).len() == calls.len(),
        ({
            let k = calls.take(i).filter(|c: ToolCallView| c.name == "ask_memory_agent"@).len() as int;
            if calls[i].name == "ask_memory_agent"@ {
                &&& k < questions_of(calls).len()
                &&& questions_of(calls)[k] == calls[i].input.text_or("question"@, ""@)
                &&& match answers[k] {
                    Ok(t) => outputs_of(calls, answers)[i] == t@,
                    Err(e) => outputs_of(calls, answers)[i] == "Error: "@ + e@,
                }
            } else {
                contains(outputs_of(calls, answers)[i], calls[i].name)
            }
        }),
        answer_results(calls, outputs_of(calls, answers))[i].tool_use_id == calls[i].id,
        answer_results(calls, outputs_of(calls, answers))[i].content == outputs_of(calls, answers)[i],
{
    let p = |c: ToolCallView| c.name == "ask_memory_agent"@;
    let k = ask_calls(calls.take(i)).len() as int;
    if calls[i].name == ASK_TOOL@ {
        lemma_ask_step(calls, i);
        lemma_ask_at(calls, i + 1);
        assert(ask_calls(calls.take(i + 1))[k] == calls[i]);
    } else {
        the_middle_is_contained("Error: unknown tool '"@, calls[i].name, "'."@);
    }
}

proof fn lemma_ask_at(calls: Seq<ToolCallView>, n: int)
    requires
        0 <= n <= calls.len(),
    ensures
        ask_calls(calls.take(n)).len() <= ask_calls(calls).len(),
        forall|k: int|
            0 <= k < ask_calls(calls.take(n)).len() ==> #[trigger] ask_calls(calls.take(n))[k]
                == ask_calls(calls)[k],
    decreases calls.len() - n,
{
    if n < calls.len() {
        lemma_ask_step(calls, n);
        lemma_ask_at(calls, n + 1);
        assert forall|k: int| 0 <= k < ask_calls(calls.take(n)).len() implies #[trigger] ask_calls(
            calls.take(n),
        )[k] == ask_calls(calls)[k] by {
            assert(ask_calls(calls.take(n + 1))[k] == ask_calls(calls.take(n))[k]);
        }
    } else {
        assert(calls.take(n) =~= calls);
    }
}

/// A research begins with the request, behind what is known of the character and the user.
pub proof fn research_begins_with_the_request(
    char_definition: Seq<char>,
    user_description: Seq<char>,
    request: Seq<char>,
)
    ensures
        ends_with(opening(char_definition, user_description, request), request),
        contains(opening(char_definition, user_description, request), char_definition),
        contains(opening(char_definition, user_description, request), user_description),
        char_definition.len() == 0 && user_description.len() == 0 ==> opening(
            char_definition,
            user_description,
            request,
        ) == request,
{
    let o = opening(char_definition, user_description, request);
    let parts = context_parts(char_definition, user_description);
    let e = Seq::<char>::empty();
    assert(o.subrange(o.len() - request.len(), o.len() as int) =~= request);
    let c = "<character>\n"@ + char_definition + "\n</character>"@;
    let u = "<user>\n"@ + user_description + "\n</user>"@;
    if char_definition.len() > 0 {
        assert(parts[0] == c);
        lemma_joined_holds(parts, "\n"@, 0);
        the_middle_is_contained("<character>\n"@, char_definition, "\n</character>"@);
        lemma_contains_transitive(joined(parts, "\n"@), c, char_definition);
        containing_survives_framing(e, joined(parts, "\n"@), "\n\n"@ + request, char_definition);
        assert(e + joined(parts, "\n"@) + ("\n\n"@ + request) =~= o);
    } else {
        assert(char_definition =~= e);
        assert(e + e + o =~= o);
        the_middle_is_contained(e, e, o);
    }
    if user_description.len() > 0 {
        let k = parts.len() - 1;
        assert(parts[k] == u);
        lemma_joined_holds(parts, "\n"@, k);
        the_middle_is_contained("<user>\n"@, user_description, "\n</user>"@);
        lemma_contains_transitive(joined(parts, "\n"@), u, user_description);
        containing_survives_framing(e, joined(parts, "\n"@), "\n\n"@ + request, user_description);
        assert(e + joined(parts, "\n"@) + ("\n\n"@ + request) =~= o);
    } else {
        assert(user_description =~= e);
        assert(e + e + o =~= o);
        the_middle_is_contained(e, e, o);
    }
}

proof fn lemma_contains_transitive(s: Seq<char>, part: Seq<char>, pat: Seq<char>)
    requires
        contains(s, part),
        contains(part, pat),
    ensures
        contains(s, pat),
{
    let i = choose|i: int| #[trigger] occurs_at(s, part, i);
    let (a, b) = (s.take(i), s.skip(i + part.len()));
    assert(s =~= a + part + b);
    containing_survives_framing(a, part, b, pat);
}

/// A research ends when the model asks nothing more or refuses; otherwise its questions are asked.
pub proof fn research_goes_on_while_there_are_questions(
    state: ResearchSession,
    response: AgentLlmResponse,
    step: ResearchStep,
)
    requires
        research_step(state, response, step),
    ensures
        tool_uses(response.content_blocks@).len() == 0 ==> step is Finished,
        response.text@.len() > 0 && refuses(response.text@) ==> step is Finished,
        tool_uses(response.content_blocks@).len() > 0 && (response.text@.len() == 0 || !refuses(
            response.text@,
        )) ==> step is AskAgent && calls_view(step->AskAgent_0.calls@) == tool_uses(
            response.content_blocks@,
        ) && step->AskAgent_0.state == state,
        step is Finished ==> step->Finished_0@ == final_answer(response.text@, texts(state.outputs@)),
{
}

/// What the memory agent said is kept and goes back to the model, behind all that was said before; after the
/// fifteenth turn the research ends with what was found.
pub proof fn findings_are_kept(
    turn: ResearchTurn,
    answers: Seq<Result<String, String>>,
    end: ResearchEnd,
    i: int,
)
    requires
        research_end(turn, answers, end),
        turn.state.iterations < 15,
    ensures
        (end is Finished) == (turn.state.iterations == 14),
        end is Finished ==> end->Finished_0@ == final_answer(
            turn.text@,
            texts(turn.state.outputs@) + outputs_of(calls_view(turn.calls@), answers),
        ),
        end is AskModel ==> {
            let next = end->AskModel_0;
            let n = turn.state.messages@.len() as int;
            let o = turn.state.outputs@.len() as int;
            &&& next.iterations == turn.state.iterations + 1
            &&& next.messages@.len() == n + 2
            &&& 0 <= i < n ==> next.messages@[i] == turn.state.messages@[i]
            &&& next.messages@[n + 1] is ToolResults
            &&& next.outputs@.len() == o + turn.calls@.len()
            &&& 0 <= i < o ==> next.outputs@[i]@ == turn.state.outputs@[i]@
            &&& 0 <= i < turn.calls@.len() ==> next.outputs@[o + i]@ == outputs_of(
                calls_view(turn.calls@),
                answers,
            )[i]
        },
{
    if end is AskModel {
        let next = end->AskModel_0;
        let n = turn.state.messages@.len() as int;
        let o = turn.state.outputs@.len() as int;
        let t = texts(next.outputs@);
        if 0 <= i < n {
            assert(next.messages@.take(n)[i] == next.messages@[i]);
        }
        assert(t.len() == next.outputs@.len());
        if 0 <= i < o {
            assert(t[i] == next.outputs@[i]@);
        }
        if 0 <= i < turn.calls@.len() {
            assert(t[o + i] == next.outputs@[o + i]@);
        }
    }
}

}
