//! The inner loop of the memory agent: the model asks for tools, reads run at once, writes run after
//! confirmation, and the results go back to the model until it answers in text.
use crate::memory::agent::tool_schemas::{is_write_name, is_write_tool};
use crate::memory::agent::types::{
    calls_view, ProposedOperation, ToolCall, ToolCallView, ToolInput, ToolInputView, ToolResult,
    ToolResultView,
};
use crate::memory::agent_llm::{
    extract_tool_uses, tool_uses, AgentLlmResponse, AgentMessage, ContentBlock,
};
use crate::memory::collation_impls::{can_truncate, truncate_raw, truncated};
use crate::text::compose::{byte_count, byte_len, cat2, cat3, cat4, cat5, same_text};
use crate::text::number::{decimal, decimal_text};
use crate::text::split::texts;
use vstd::prelude::*;
use vstd::string::*;

verus! {

broadcast use vstd::string::group_string_axioms;

/// How often the model is asked before the loop gives up.
pub const MAX_ITERATIONS: usize = 40;

/// What the model is told of a write that the user turned down.
pub const DENIED_MESSAGE: &'static str = "DENIED: The user explicitly rejected this operation. Do NOT retry it. Acknowledge the denial and either ask what they want instead or move on.";

/// The answer when the loop gives up.
pub const MAX_ITERATIONS_MESSAGE: &'static str = "Agent loop reached maximum iterations.";

/// The decimal numeral of a signed number.
pub open spec fn signed_decimal(n: i64) -> Seq<char> {
    if n < 0 {
        "-"@ + decimal((-n) as nat)
    } else {
        decimal(n as nat)
    }
}

/// The decimal numeral of a signed number.
pub fn signed_decimal_text(n: i64) -> (r: String)
    ensures
        r@ == signed_decimal(n),
{
    if n < 0 {
        let m: u64 = if n == i64::MIN {
            9223372036854775808u64
        } else {
            (-n) as u64
        };
        cat2("-", decimal_text(m).as_str())
    } else {
        decimal_text(n as u64)
    }
}

/// The text, cut at byte 80 if it is longer.
pub open spec fn cut(s: Seq<char>) -> Seq<char> {
    if byte_len(s) > 80 {
        truncated(s, 80) + "..."@
    } else {
        s
    }
}

/// What the user is shown of a proposed write.
pub open spec fn mutation_text(tool_name: Seq<char>, input: ToolInputView) -> Seq<char> {
    if tool_name == "create_entry"@ {
        "Create entry: "@ + cut(input.text_or("summary_text"@, ""@))
    } else if tool_name == "update_entry"@ {
        "Update entry "@ + input.text_or("entry_id"@, "?"@)
    } else if tool_name == "supersede_entry"@ {
        "Supersede entry "@ + input.text_or("entry_id"@, "?"@)
    } else if tool_name == "update_entity"@ {
        "Update entity '"@ + input.text_or("name"@, "?"@) + "'"@
    } else if tool_name == "merge_entity"@ {
        "Merge entity '"@ + input.text_or("from_name"@, "?"@) + "' → '"@ + input.text_or(
            "to_name"@,
            "?"@,
        ) + "'"@
    } else if tool_name == "resolve_flag"@ {
        "Resolve flag #"@ + match input.signed("flag_id"@) {
            Some(n) => signed_decimal(n),
            None => "?"@,
        }
    } else if tool_name == "create_flag"@ {
        "Create "@ + input.text_or("flag_type"@, "?"@) + " flag on "@ + input.text_or(
            "entry_id"@,
            "?"@,
        )
    } else {
        tool_name + ": "@ + input.raw
    }
}

/// The description can be made: a long entry text can be cut.
pub open spec fn describable(tool_name: Seq<char>, input: ToolInputView) -> bool {
    tool_name == "create_entry"@ ==> can_truncate(input.text_or("summary_text"@, ""@), 80)
}

fn cut_text(s: &str) -> (r: String)
    requires
        can_truncate(s@, 80),
    ensures
        r@ == cut(s@),
{
    if byte_count(s) > 80 {
        cat2(truncate_raw(s, 80), "...")
    } else {
        s.to_owned()
    }
}

/// What the user is shown of a proposed write.
pub fn describe_mutation(tool_name: &str, input: &ToolInput) -> (r: String)
    requires
        describable(tool_name@, input@),
    ensures
        r@ == mutation_text(tool_name@, input@),
{
    if same_text(tool_name, "create_entry") {
        let text = input.text_or("summary_text", "");
        let short = cut_text(text.as_str());
        cat2("Create entry: ", short.as_str())
    } else if same_text(tool_name, "update_entry") {
        let eid = input.text_or("entry_id", "?");
        cat2("Update entry ", eid.as_str())
    } else if same_text(tool_name, "supersede_entry") {
        let eid = input.text_or("entry_id", "?");
        cat2("Supersede entry ", eid.as_str())
    } else if same_text(tool_name, "update_entity") {
        let name = input.text_or("name", "?");
        cat3("Update entity '", name.as_str(), "'")
    } else if same_text(tool_name, "merge_entity") {
        let from = input.text_or("from_name", "?");
        let to = input.text_or("to_name", "?");
        cat5("Merge entity '", from.as_str(), "' → '", to.as_str(), "'")
    } else if same_text(tool_name, "resolve_flag") {
        let fid = match input.signed("flag_id") {
            Some(n) => signed_decimal_text(n),
            None => "?".to_owned(),
        };
        cat2("Resolve flag #", fid.as_str())
    } else if same_text(tool_name, "create_flag") {
        let ftype = input.text_or("flag_type", "?");
        let eid = input.text_or("entry_id", "?");
        cat4("Create ", ftype.as_str(), " flag on ", eid.as_str())
    } else {
        cat3(tool_name, ": ", input.raw.as_str())
    }
}

/// The requests that only read.
pub open spec fn read_calls(calls: Seq<ToolCallView>) -> Seq<ToolCallView> {
    calls.filter(|c: ToolCallView| !is_write_name(c.name))
}

/// The requests that change the memory.
pub open spec fn write_calls(calls: Seq<ToolCallView>) -> Seq<ToolCallView> {
    calls.filter(|c: ToolCallView| is_write_name(c.name))
}

/// `id` is one of the denied requests.
pub open spec fn is_denied_id(denied: Seq<String>, id: Seq<char>) -> bool {
    texts(denied).contains(id)
}

/// The requests that were not denied.
pub open spec fn accepted(writes: Seq<ToolCallView>, denied: Seq<String>) -> Seq<ToolCallView> {
    writes.filter(|c: ToolCallView| !is_denied_id(denied, c.id))
}

/// What a tool said, whether it succeeded or not.
pub open spec fn outcome_text(outcome: Result<String, String>) -> Seq<char> {
    match outcome {
        Ok(s) => s@,
        Err(e) => e@,
    }
}

/// The results of the reads.
pub open spec fn read_results(reads: Seq<ToolCallView>, outputs: Seq<Seq<char>>) -> Seq<
    ToolResultView,
> {
    Seq::new(
        reads.len(),
        |i: int|
            ToolResultView { tool_use_id: reads[i].id, content: outputs[i], is_error: false },
    )
}

/// The results of the writes: a denied one gets the denial, any other what its tool said.
pub open spec fn write_results(
    writes: Seq<ToolCallView>,
    denied: Seq<String>,
    outcomes: Seq<Result<String, String>>,
) -> Seq<ToolResultView> {
    Seq::new(
        writes.len(),
        |i: int|
            if is_denied_id(denied, writes[i].id) {
                ToolResultView {
                    tool_use_id: writes[i].id,
                    content: DENIED_MESSAGE@,
                    is_error: true,
                }
            } else {
                ToolResultView {
                    tool_use_id: writes[i].id,
                    content: outcome_text(outcomes[accepted(writes.take(i), denied).len() as int]),
                    is_error: false,
                }
            },
    )
}

/// The texts of the successful outcomes, in order.
pub open spec fn successes(outcomes: Seq<Result<String, String>>) -> Seq<Seq<char>>
    decreases outcomes.len(),
{
    if outcomes.len() == 0 {
        Seq::empty()
    } else {
        let t = successes(outcomes.drop_last());
        match outcomes.last() {
            Ok(s) => t.push(s@),
            Err(_) => t,
        }
    }
}

/// The results as plain values.
pub open spec fn results_view(results: Seq<ToolResult>) -> Seq<ToolResultView> {
    Seq::new(results.len(), |i: int| results[i]@)
}

/// The state of the loop while the model is to be asked.
#[derive(Debug)]
pub struct AgentLoop {
    /// What the model is sent.
    pub conversation: Vec<AgentMessage>,
    /// Descriptions of the writes that succeeded.
    pub mutations: Vec<String>,
    /// How often the model has answered with tool requests.
    pub turns: usize,
}

/// A turn in which the model asked for tools.
#[derive(Debug)]
pub struct ToolTurn {
    /// The loop before this turn.
    pub state: AgentLoop,
    /// The model's message.
    pub blocks: Vec<ContentBlock>,
    /// Requests that run at once.
    pub reads: Vec<ToolCall>,
    /// Requests that run after confirmation.
    pub writes: Vec<ToolCall>,
}

/// What is to be done after the model has answered.
#[derive(Debug)]
pub enum LoopStep {
    /// The loop is over.
    Finished {
        /// The answer.
        text: String,
        /// Descriptions of the writes that succeeded.
        mutations: Vec<String>,
    },
    /// Tools are to be run.
    RunTools(ToolTurn),
}

/// What is to be done after the tools have run.
#[derive(Debug)]
pub enum TurnEnd {
    /// The model is to be asked again.
    AskModel(AgentLoop),
    /// The loop is over.
    Finished {
        /// The answer.
        text: String,
        /// Descriptions of the writes that succeeded.
        mutations: Vec<String>,
    },
}

/// Whether the request `id` was denied.
pub fn is_denied(denied: &Vec<String>, id: &str) -> (r: bool)
    ensures
        r == is_denied_id(denied@, id@),
{
    let mut i: usize = 0;
    while i < denied.len()
        invariant
            i <= denied.len(),
            forall|k: int| 0 <= k < i ==> denied@[k]@ != id@,
        decreases denied.len() - i,
    {
        if same_text(denied[i].as_str(), id) {
            assert(texts(denied@)[i as int] == id@);
            return true;
        }
        i += 1;
    }
    assert(!texts(denied@).contains(id@));
    false
}

/// What follows on the model's answer.
pub open spec fn answer_step(state: AgentLoop, response: AgentLlmResponse, step: LoopStep) -> bool {
    match step {
        LoopStep::Finished { text, mutations } => {
            &&& tool_uses(response.content_blocks@).len() == 0
            &&& text == response.text
            &&& mutations == state.mutations
        },
        LoopStep::RunTools(turn) => {
            &&& tool_uses(response.content_blocks@).len() > 0
            &&& turn.state == state
            &&& turn.blocks == response.content_blocks
            &&& calls_view(turn.reads@) == read_calls(tool_uses(response.content_blocks@))
            &&& calls_view(turn.writes@) == write_calls(tool_uses(response.content_blocks@))
        },
    }
}

/// What follows on what the tools returned.
pub open spec fn turn_step(
    turn: ToolTurn,
    read_outputs: Seq<Seq<char>>,
    denied: Seq<String>,
    outcomes: Seq<Result<String, String>>,
    end: TurnEnd,
) -> bool {
    match end {
        TurnEnd::AskModel(next) => {
            &&& turn.state.turns + 1 < MAX_ITERATIONS
            &&& next.wf()
            &&& next.turns == turn.state.turns + 1
            &&& texts(next.mutations@) == texts(turn.state.mutations@) + successes(outcomes)
            &&& extends_conversation(
                turn.state.conversation@,
                next.conversation@,
                turn.blocks,
                read_results(calls_view(turn.reads@), read_outputs) + write_results(
                    calls_view(turn.writes@),
                    denied,
                    outcomes,
                ),
            )
        },
        TurnEnd::Finished { text, mutations } => {
            &&& turn.state.turns + 1 == MAX_ITERATIONS
            &&& text@ == MAX_ITERATIONS_MESSAGE@
            &&& texts(mutations@) == texts(turn.state.mutations@) + successes(outcomes)
        },
    }
}

/// The operations are what the user is asked to confirm: one for each write, in order.
pub open spec fn are_proposals(writes: Seq<ToolCall>, r: Seq<ProposedOperation>) -> bool {
    &&& r.len() == writes.len()
    &&& forall|i: int|
        0 <= i < r.len() ==> {
            &&& (#[trigger] r[i]).tool_use_id@ == writes[i].id@
            &&& r[i].tool_name@ == writes[i].name@
            &&& r[i].args@ == writes[i].input@
            &&& r[i].description@ == mutation_text(writes[i].name@, writes[i].input@)
        }
}

impl AgentLoop {
    /// The model may still be asked.
    pub open spec fn wf(&self) -> bool {
        self.turns < MAX_ITERATIONS
    }

    /// The loop at its start.
    pub fn start(messages: Vec<AgentMessage>) -> (r: AgentLoop)
        ensures
            r.wf(),
            r.conversation == messages,
            r.mutations@.len() == 0,
            r.turns == 0,
    {
        AgentLoop { conversation: messages, mutations: Vec::new(), turns: 0 }
    }

    /// Takes the model's answer. Without tool requests it is the final answer; otherwise the requests
    /// are told apart into those that only read and those that write.
    pub fn on_response(self, response: AgentLlmResponse) -> (r: LoopStep)
        ensures
            answer_step(self, response, r),
    {
        let calls = extract_tool_uses(&response.content_blocks);
        if calls.len() == 0 {
            return LoopStep::Finished { text: response.text, mutations: self.mutations };
        }
        let (reads, writes) = classify(&calls);
        LoopStep::RunTools(
            ToolTurn { state: self, blocks: response.content_blocks, reads, writes },
        )
    }
}

/// Tells reads and writes apart.
pub fn classify(calls: &Vec<ToolCall>) -> (r: (Vec<ToolCall>, Vec<ToolCall>))
    ensures
        calls_view(r.0@) == read_calls(calls_view(calls@)),
        calls_view(r.1@) == write_calls(calls_view(calls@)),
{
    let mut reads: Vec<ToolCall> = Vec::new();
    let mut writes: Vec<ToolCall> = Vec::new();
    let ghost all = calls_view(calls@);
    let mut i: usize = 0;
    proof {
        reveal(Seq::filter);
        assert(calls_view(reads@) =~= read_calls(all.take(0)));
        assert(calls_view(writes@) =~= write_calls(all.take(0)));
    }
    while i < calls.len()
        invariant
            i <= calls.len(),
            all == calls_view(calls@),
            calls_view(reads@) == read_calls(all.take(i as int)),
            calls_view(writes@) == write_calls(all.take(i as int)),
        decreases calls.len() - i,
    {
        let c = calls[i].copied();
        proof {
            reveal(Seq::filter);
            assert(all.take(i + 1).drop_last() =~= all.take(i as int));
            assert(all.take(i + 1).last() == c@);
        }
        if is_write_tool(calls[i].name.as_str()) {
            proof {
                assert(calls_view(writes@.push(c)) =~= calls_view(writes@).push(c@));
            }
            writes.push(c);
        } else {
            proof {
                assert(calls_view(reads@.push(c)) =~= calls_view(reads@).push(c@));
            }
            reads.push(c);
        }
        i += 1;
    }
    proof {
        assert(all.take(i as int) =~= all);
    }
    (reads, writes)
}

/// Of the first `i + 1` writes one more is accepted than of the first `i`, or the write is denied.
proof fn lemma_accepted_step(writes: Seq<ToolCallView>, denied: Seq<String>, i: int)
    requires
        0 <= i < writes.len(),
    ensures
        accepted(writes.take(i + 1), denied) == if is_denied_id(denied, writes[i].id) {
            accepted(writes.take(i), denied)
        } else {
            accepted(writes.take(i), denied).push(writes[i])
        },
{
    reveal(Seq::filter);
    assert(writes.take(i + 1).drop_last() =~= writes.take(i));
    assert(writes.take(i + 1).last() == writes[i]);
}

/// No more writes are accepted of a prefix than of the whole.
proof fn lemma_accepted_prefix(writes: Seq<ToolCallView>, denied: Seq<String>, i: int)
    requires
        0 <= i <= writes.len(),
    ensures
        accepted(writes.take(i), denied).len() <= accepted(writes, denied).len(),
    decreases writes.len() - i,
{
    if i < writes.len() {
        lemma_accepted_step(writes, denied, i);
        lemma_accepted_prefix(writes, denied, i + 1);
    } else {
        assert(writes.take(i) =~= writes);
    }
}

impl ToolTurn {
    /// What the user is asked to confirm: one operation for each write, in order.
    pub fn proposals(&self) -> (r: Vec<ProposedOperation>)
        requires
            forall|i: int|
                0 <= i < self.writes@.len() ==> describable(
                    (#[trigger] self.writes@[i]).name@,
                    self.writes@[i].input@,
                ),
        ensures
            are_proposals(self.writes@, r@),
    {
        let mut out: Vec<ProposedOperation> = Vec::new();
        let mut i: usize = 0;
        while i < self.writes.len()
            invariant
                i <= self.writes.len(),
                out.len() == i,
                forall|k: int|
                    0 <= k < self.writes@.len() ==> describable(
                        (#[trigger] self.writes@[k]).name@,
                        self.writes@[k].input@,
                    ),
                forall|k: int|
                    0 <= k < i ==> {
                        &&& (#[trigger] out@[k]).tool_use_id@ == self.writes@[k].id@
                        &&& out@[k].tool_name@ == self.writes@[k].name@
                        &&& out@[k].args@ == self.writes@[k].input@
                        &&& out@[k].description@ == mutation_text(
                            self.writes@[k].name@,
                            self.writes@[k].input@,
                        )
                    },
            decreases self.writes.len() - i,
        {
            let w = &self.writes[i];
            assert(describable(self.writes@[i as int].name@, self.writes@[i as int].input@));
            let description = describe_mutation(w.name.as_str(), &w.input);
            out.push(
                ProposedOperation {
                    tool_use_id: w.id.clone(),
                    tool_name: w.name.clone(),
                    args: w.input.copied(),
                    description,
                },
            );
            i += 1;
        }
        out
    }

    /// The writes that are to be carried out, in order.
    pub fn accepted_writes(&self, denied: &Vec<String>) -> (r: Vec<ToolCall>)
        ensures
            calls_view(r@) == accepted(calls_view(self.writes@), denied@),
    {
        let mut out: Vec<ToolCall> = Vec::new();
        let ghost all = calls_view(self.writes@);
        let mut i: usize = 0;
        proof {
            reveal(Seq::filter);
            assert(calls_view(out@) =~= accepted(all.take(0), denied@));
        }
        while i < self.writes.len()
            invariant
                i <= self.writes.len(),
                all == calls_view(self.writes@),
                calls_view(out@) == accepted(all.take(i as int), denied@),
            decreases self.writes.len() - i,
        {
            proof {
                lemma_accepted_step(all, denied@, i as int);
            }
            if !is_denied(denied, self.writes[i].id.as_str()) {
                let c = self.writes[i].copied();
                proof {
                    assert(calls_view(out@.push(c)) =~= calls_view(out@).push(c@));
                }
                out.push(c);
            }
            i += 1;
        }
        proof {
            assert(all.take(i as int) =~= all);
        }
        out
    }

    fn collect_reads(&self, outputs: &Vec<String>) -> (r: Vec<ToolResult>)
        requires
            outputs@.len() == self.reads@.len(),
        ensures
            results_view(r@) == read_results(calls_view(self.reads@), texts(outputs@)),
    {
        let mut out: Vec<ToolResult> = Vec::new();
        let ghost want = read_results(calls_view(self.reads@), texts(outputs@));
        let mut i: usize = 0;
        while i < self.reads.len()
            invariant
                i <= self.reads.len(),
                outputs@.len() == self.reads@.len(),
                want == read_results(calls_view(self.reads@), texts(outputs@)),
                out.len() == i,
                forall|k: int| 0 <= k < i ==> #[trigger] out@[k]@ == want[k],
            decreases self.reads.len() - i,
        {
            out.push(
                ToolResult {
                    tool_use_id: self.reads[i].id.clone(),
                    content: outputs[i].clone(),
                    is_error: false,
                },
            );
            i += 1;
        }
        assert(results_view(out@) =~= want);
        out
    }

    fn collect_writes(
        &self,
        denied: &Vec<String>,
        outcomes: &Vec<Result<String, String>>,
    ) -> (r: Vec<ToolResult>)
        requires
            outcomes@.len() == accepted(calls_view(self.writes@), denied@).len(),
        ensures
            results_view(r@) == write_results(calls_view(self.writes@), denied@, outcomes@),
    {
        let mut out: Vec<ToolResult> = Vec::new();
        let ghost all = calls_view(self.writes@);
        let ghost want = write_results(all, denied@, outcomes@);
        let mut i: usize = 0;
        let mut done: usize = 0;
        proof {
            reveal(Seq::filter);
            assert(accepted(all.take(0), denied@) =~= Seq::<ToolCallView>::empty());
        }
        while i < self.writes.len()
            invariant
                i <= self.writes.len(),
                all == calls_view(self.writes@),
                want == write_results(all, denied@, outcomes@),
                outcomes@.len() == accepted(all, denied@).len(),
                done == accepted(all.take(i as int), denied@).len(),
                out.len() == i,
                forall|k: int| 0 <= k < i ==> #[trigger] out@[k]@ == want[k],
            decreases self.writes.len() - i,
        {
            proof {
                lemma_accepted_step(all, denied@, i as int);
                lemma_accepted_prefix(all, denied@, i + 1);
            }
            let id = self.writes[i].id.clone();
            if is_denied(denied, id.as_str()) {
                out.push(
                    ToolResult {
                        tool_use_id: id,
                        content: DENIED_MESSAGE.to_owned(),
                        is_error: true,
                    },
                );
            } else {
                let content = match &outcomes[done] {
                    Ok(t) => t.clone(),
                    Err(e) => e.clone(),
                };
                out.push(ToolResult { tool_use_id: id, content, is_error: false });
                done += 1;
            }
            i += 1;
        }
        assert(results_view(out@) =~= want);
        out
    }

    /// Takes what the tools returned: one output for each read, and one outcome for each write that
    /// was not denied. The results go into the conversation, the successful writes are recorded, and
    /// the model is asked again unless this was its last turn.
    pub fn finish(
        self,
        read_outputs: Vec<String>,
        denied: &Vec<String>,
        outcomes: Vec<Result<String, String>>,
    ) -> (r: TurnEnd)
        requires
            self.state.wf(),
            read_outputs@.len() == self.reads@.len(),
            outcomes@.len() == accepted(calls_view(self.writes@), denied@).len(),
        ensures
            turn_step(self, texts(read_outputs@), denied@, outcomes@, r),
    {
        let mut results = self.collect_reads(&read_outputs);
        let mut write_part = self.collect_writes(denied, &outcomes);
        let ghost first = results@;
        let ghost second = write_part@;
        results.append(&mut write_part);
        proof {
            assert(results_view(results@) =~= results_view(first) + results_view(second));
        }
        let mut state = self.state;
        let mut k: usize = 0;
        proof {
            assert(texts(state.mutations@) =~= texts(self.state.mutations@) + successes(
                outcomes@.take(0),
            ));
        }
        while k < outcomes.len()
            invariant
                k <= outcomes.len(),
                state.turns == self.state.turns,
                state.conversation == self.state.conversation,
                texts(state.mutations@) == texts(self.state.mutations@) + successes(
                    outcomes@.take(k as int),
                ),
            decreases outcomes.len() - k,
        {
            let ghost before = state.mutations@;
            proof {
                assert(outcomes@.take(k + 1).drop_last() =~= outcomes@.take(k as int));
            }
            match &outcomes[k] {
                Ok(t) => {
                    let t2 = t.clone();
                    state.mutations.push(t2);
                    proof {
                        assert(texts(state.mutations@) =~= texts(before).push(t2@));
                        assert(texts(self.state.mutations@) + successes(outcomes@.take(k + 1))
                            =~= (texts(self.state.mutations@) + successes(
                            outcomes@.take(k as int),
                        )).push(t2@));
                    }
                },
                Err(_) => {},
            }
            k += 1;
        }
        proof {
            assert(outcomes@.take(k as int) =~= outcomes@);
        }
        state.turns = state.turns + 1;
        if state.turns == MAX_ITERATIONS {
            return TurnEnd::Finished {
                text: MAX_ITERATIONS_MESSAGE.to_owned(),
                mutations: state.mutations,
            };
        }
        state.conversation.push(AgentMessage::AssistantBlocks(self.blocks));
        state.conversation.push(AgentMessage::ToolResults(results));
        proof {
            let n = self.state.conversation@.len() as int;
            assert(state.conversation@.take(n) =~= self.state.conversation@);
        }
        TurnEnd::AskModel(state)
    }
}

/// The later conversation is the earlier one followed by the model's message and the tool results.
pub open spec fn extends_conversation(
    before: Seq<AgentMessage>,
    after: Seq<AgentMessage>,
    blocks: Vec<ContentBlock>,
    results: Seq<ToolResultView>,
) -> bool {
    &&& after.len() == before.len() + 2
    &&& after.take(before.len() as int) == before
    &&& after[before.len() as int] == AgentMessage::AssistantBlocks(blocks)
    &&& match after[(before.len() + 1) as int] {
        AgentMessage::ToolResults(v) => results_view(v@) == results,
        _ => false,
    }
}

/// The identifiers of the requests.
pub open spec fn call_ids(calls: Seq<ToolCallView>) -> Seq<Seq<char>> {
    Seq::new(calls.len(), |i: int| calls[i].id)
}

/// The identifiers that the results answer.
pub open spec fn result_ids(results: Seq<ToolResultView>) -> Seq<Seq<char>> {
    Seq::new(results.len(), |i: int| results[i].tool_use_id)
}

proof fn lemma_split_keeps_ids(calls: Seq<ToolCallView>)
    ensures
        (call_ids(read_calls(calls)) + call_ids(write_calls(calls))).to_multiset() == call_ids(
            calls,
        ).to_multiset(),
    decreases calls.len(),
{
    broadcast use vstd::seq_lib::group_to_multiset_ensures;

    reveal(Seq::filter);
    let r = call_ids(read_calls(calls));
    let w = call_ids(write_calls(calls));
    if calls.len() == 0 {
        assert(r + w =~= call_ids(calls));
    } else {
        let c = calls.drop_last();
        let x = calls.last();
        lemma_split_keeps_ids(c);
        let r0 = call_ids(read_calls(c));
        let w0 = call_ids(write_calls(c));
        assert(call_ids(calls) =~= call_ids(c).push(x.id));
        vstd::seq_lib::to_multiset_build(call_ids(c), x.id);
        if is_write_name(x.name) {
            assert(read_calls(calls) =~= read_calls(c));
            assert(write_calls(calls) =~= write_calls(c).push(x));
            assert(w =~= w0.push(x.id));
            assert(r + w =~= (r0 + w0).push(x.id));
            vstd::seq_lib::to_multiset_build(r0 + w0, x.id);
        } else {
            assert(read_calls(calls) =~= read_calls(c).push(x));
            assert(write_calls(calls) =~= write_calls(c));
            assert(r =~= r0.push(x.id));
            assert(r + w =~= (r0 + w0).insert(r0.len() as int, x.id));
            vstd::seq_lib::to_multiset_insert(r0 + w0, r0.len() as int, x.id);
        }
    }
}

/// Every request of a turn is answered exactly once: the results carry the identifiers of the
/// requests, each as often as it was requested.
pub proof fn every_request_is_answered_once(
    calls: Seq<ToolCallView>,
    outputs: Seq<Seq<char>>,
    denied: Seq<String>,
    outcomes: Seq<Result<String, String>>,
)
    ensures
        result_ids(
            read_results(read_calls(calls), outputs) + write_results(
                write_calls(calls),
                denied,
                outcomes,
            ),
        ).to_multiset() == call_ids(calls).to_multiset(),
{
    lemma_split_keeps_ids(calls);
    assert(result_ids(
        read_results(read_calls(calls), outputs) + write_results(
            write_calls(calls),
            denied,
            outcomes,
        ),
    ) =~= call_ids(read_calls(calls)) + call_ids(write_calls(calls)));
}

proof fn lemma_successes_len(outcomes: Seq<Result<String, String>>)
    ensures
        successes(outcomes).len() <= outcomes.len(),
    decreases outcomes.len(),
{
    if outcomes.len() > 0 {
        lemma_successes_len(outcomes.drop_last());
    }
}

/// A turn records no more writes than were accepted; where all writes are denied it records none.
pub proof fn only_accepted_writes_are_recorded(
    writes: Seq<ToolCallView>,
    denied: Seq<String>,
    outcomes: Seq<Result<String, String>>,
)
    requires
        outcomes.len() == accepted(writes, denied).len(),
    ensures
        successes(outcomes).len() <= accepted(writes, denied).len(),
        (forall|i: int| 0 <= i < writes.len() ==> is_denied_id(denied, (#[trigger] writes[i]).id))
            ==> successes(outcomes).len() == 0,
{
    lemma_successes_len(outcomes);
    if forall|i: int| 0 <= i < writes.len() ==> is_denied_id(denied, (#[trigger] writes[i]).id) {
        lemma_all_denied(writes, denied, writes.len() as int);
        assert(writes.take(writes.len() as int) =~= writes);
    }
}

proof fn lemma_all_denied(writes: Seq<ToolCallView>, denied: Seq<String>, n: int)
    requires
        0 <= n <= writes.len(),
        forall|i: int| 0 <= i < writes.len() ==> is_denied_id(denied, (#[trigger] writes[i]).id),
    ensures
        accepted(writes.take(n), denied).len() == 0,
    decreases n,
{
    if n > 0 {
        lemma_all_denied(writes, denied, n - 1);
        lemma_accepted_step(writes, denied, n - 1);
    } else {
        reveal(Seq::filter);
    }
}

}
