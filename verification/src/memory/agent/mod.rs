//! The memory agent: tools, tool loop and caller identity.
use crate::memory::agent::prompt::{is_system_prompt, render_system_prompt};
use crate::memory::agent::tool_loop::AgentLoop;
use crate::memory::agent::types::{AgentError, AgentMode, CallerIdentity};
use crate::memory::agent_llm::AgentMessage;
use crate::memory::db::{Entry, EntryView};
use crate::text::compose::{cat2, cat3};
use crate::text::split::{join_texts, joined, texts};
use crate::text::word::{
    holds_word, replace_word_text, replace_words, replacing_absent_words_is_identity,
};
use vstd::prelude::*;

pub mod laws;
pub mod prompt;
pub mod tool_handlers;
pub mod tool_loop;
pub mod tool_schemas;
pub mod types;

verus! {

broadcast use vstd::string::group_string_axioms;

/// The query with first-person pronouns replaced by a name, one after the other. Only whole words count:
/// letters inside a longer word are no pronoun.
pub open spec fn resolved(query: Seq<char>, name: Seq<char>) -> Seq<char> {
    let a = replace_words(query, "my "@, name + "'s "@);
    let b = replace_words(a, "My "@, name + "'s "@);
    let c = replace_words(b, "I "@, name + " "@);
    let d = replace_words(c, " me "@, " "@ + name + " "@);
    let e = replace_words(d, " me."@, " "@ + name + "."@);
    let f = replace_words(e, " me?"@, " "@ + name + "?"@);
    let g = replace_words(f, " me!"@, " "@ + name + "!"@);
    replace_words(g, "myself"@, name)
}

/// Replaces first-person pronouns that are whole words by the caller's name. Whoever calls, `name` is who
/// "I" stands for.
pub fn resolve_pronouns(query: &str, caller: CallerIdentity, name: &str) -> (r: String)
    ensures
        r@ == resolved(query@, name@),
{
    proof {
        reveal_strlit("my ");
        reveal_strlit("My ");
        reveal_strlit("I ");
        reveal_strlit(" me ");
        reveal_strlit(" me.");
        reveal_strlit(" me?");
        reveal_strlit(" me!");
        reveal_strlit("myself");
    }
    let possessive = cat2(name, "'s ");
    let a = replace_word_text(query, "my ", possessive.as_str());
    let b = replace_word_text(a.as_str(), "My ", possessive.as_str());
    let c = replace_word_text(b.as_str(), "I ", cat2(name, " ").as_str());
    let d = replace_word_text(c.as_str(), " me ", cat3(" ", name, " ").as_str());
    let e = replace_word_text(d.as_str(), " me.", cat3(" ", name, ".").as_str());
    let f = replace_word_text(e.as_str(), " me?", cat3(" ", name, "?").as_str());
    let g = replace_word_text(f.as_str(), " me!", cat3(" ", name, "!").as_str());
    replace_word_text(g.as_str(), "myself", name)
}

/// A query in which no first-person pronoun stands as a word stays as it is.
pub proof fn queries_without_pronouns_stay(query: Seq<char>, name: Seq<char>)
    requires
        !holds_word(query, "my "@),
        !holds_word(query, "My "@),
        !holds_word(query, "I "@),
        !holds_word(query, " me "@),
        !holds_word(query, " me."@),
        !holds_word(query, " me?"@),
        !holds_word(query, " me!"@),
        !holds_word(query, "myself"@),
    ensures
        resolved(query, name) == query,
{
    reveal_strlit("my ");
    reveal_strlit("My ");
    reveal_strlit("I ");
    reveal_strlit(" me ");
    reveal_strlit(" me.");
    reveal_strlit(" me?");
    reveal_strlit(" me!");
    reveal_strlit("myself");
    replacing_absent_words_is_identity(query, "my "@, name + "'s "@);
    replacing_absent_words_is_identity(query, "My "@, name + "'s "@);
    replacing_absent_words_is_identity(query, "I "@, name + " "@);
    replacing_absent_words_is_identity(query, " me "@, " "@ + name + " "@);
    replacing_absent_words_is_identity(query, " me."@, " "@ + name + "."@);
    replacing_absent_words_is_identity(query, " me?"@, " "@ + name + "?"@);
    replacing_absent_words_is_identity(query, " me!"@, " "@ + name + "!"@);
    replacing_absent_words_is_identity(query, "myself"@, name);
}

/// One hit of a retrieval.
#[derive(Debug)]
pub struct RagHit {
    /// The entry that was found.
    pub entry_id: String,
    /// The bits of the score as a double.
    pub score_bits: u64,
}

/// One entry of a query's result.
#[derive(Debug)]
pub struct RetrievedEntry {
    /// The entry.
    pub entry_id: String,
    /// The memory itself.
    pub summary_text: String,
    /// Its type.
    pub memory_type: String,
    /// The bits of its confidence as a double.
    pub confidence_bits: u64,
    /// The bits of its relevance as a double.
    pub relevance_bits: u64,
}

/// The result of a query.
#[derive(Debug)]
pub struct MemoryQueryResult {
    /// What was found.
    pub entries: Vec<RetrievedEntry>,
    /// The query as asked.
    pub query_text: String,
    /// The query with pronouns resolved.
    pub resolved_query: String,
}

/// An entry of a query's result as plain values.
pub struct RetrievedEntryView {
    pub entry_id: Seq<char>,
    pub summary_text: Seq<char>,
    pub memory_type: Seq<char>,
    pub confidence_bits: u64,
    pub relevance_bits: u64,
}

impl View for RetrievedEntry {
    type V = RetrievedEntryView;

    open spec fn view(&self) -> RetrievedEntryView {
        RetrievedEntryView {
            entry_id: self.entry_id@,
            summary_text: self.summary_text@,
            memory_type: self.memory_type@,
            confidence_bits: self.confidence_bits,
            relevance_bits: self.relevance_bits,
        }
    }
}

/// The result's entries as plain values.
pub open spec fn retrieved_view(v: Seq<RetrievedEntry>) -> Seq<RetrievedEntryView> {
    Seq::new(v.len(), |i: int| v[i]@)
}

/// What is shown of an entry that was found with a score.
pub open spec fn retrieved(entry: EntryView, score_bits: u64) -> RetrievedEntryView {
    RetrievedEntryView {
        entry_id: entry.id,
        summary_text: entry.summary_text,
        memory_type: entry.memory_type,
        confidence_bits: entry.confidence_bits,
        relevance_bits: score_bits,
    }
}

/// The hits whose entries exist, in order.
pub open spec fn found_entries(hits: Seq<RagHit>, found: Seq<Option<Entry>>) -> Seq<
    RetrievedEntryView,
>
    decreases hits.len(),
{
    if hits.len() == 0 {
        Seq::empty()
    } else {
        let t = found_entries(hits.drop_last(), found);
        match found[hits.len() - 1] {
            Some(e) => t.push(retrieved(e@, hits.last().score_bits)),
            None => t,
        }
    }
}

/// Puts the result of a query together: `found[i]` is the entry of `hits[i]`, if it exists; missing
/// entries are left out.
pub fn assemble_result(
    request: &str,
    resolved_query: String,
    hits: &Vec<RagHit>,
    found: &Vec<Option<Entry>>,
) -> (r: MemoryQueryResult)
    requires
        hits@.len() == found@.len(),
    ensures
        r.query_text@ == request@,
        r.resolved_query == resolved_query,
        retrieved_view(r.entries@) == found_entries(hits@, found@),
{
    let mut entries: Vec<RetrievedEntry> = Vec::new();
    let mut i: usize = 0;
    proof {
        assert(retrieved_view(entries@) =~= found_entries(hits@.take(0), found@));
    }
    while i < hits.len()
        invariant
            i <= hits.len(),
            hits@.len() == found@.len(),
            retrieved_view(entries@) == found_entries(hits@.take(i as int), found@),
        decreases hits.len() - i,
    {
        proof {
            assert(hits@.take(i + 1).drop_last() =~= hits@.take(i as int));
        }
        match &found[i] {
            Some(e) => {
                let x = RetrievedEntry {
                    entry_id: e.id.clone(),
                    summary_text: e.summary_text.clone(),
                    memory_type: e.memory_type.clone(),
                    confidence_bits: e.confidence_bits,
                    relevance_bits: hits[i].score_bits,
                };
                proof {
                    assert(retrieved_view(entries@.push(x)) =~= retrieved_view(entries@).push(x@));
                }
                entries.push(x);
            },
            None => {},
        }
        i += 1;
    }
    proof {
        assert(hits@.take(i as int) =~= hits@);
    }
    MemoryQueryResult { entries, query_text: request.to_owned(), resolved_query }
}

/// How many hits a retrieval is asked for.
pub const QUERY_TOP_K: usize = 32;

/// The agent that works on the memory with a language model.
#[derive(Debug)]
pub struct MemoryAgent {
    /// Who calls.
    pub caller: CallerIdentity,
    /// Who "I" stands for.
    pub caller_name: String,
    /// How the agent is run.
    pub mode: AgentMode,
    /// The system prompt.
    pub system_prompt: String,
}

impl MemoryAgent {
    /// The prompt names the character and the user, whichever of the two is calling.
    pub open spec fn prompted_for(
        &self,
        caller: CallerIdentity,
        caller_name: Seq<char>,
        user_name: Seq<char>,
    ) -> bool {
        match caller {
            CallerIdentity::Char => is_system_prompt(self.system_prompt@, caller_name, user_name),
            CallerIdentity::User => is_system_prompt(self.system_prompt@, user_name, caller_name),
        }
    }

    fn with_mode(caller: CallerIdentity, caller_name: &str, user_name: &str, mode: AgentMode) -> (r:
        MemoryAgent)
        ensures
            r.caller == caller,
            r.caller_name@ == caller_name@,
            r.mode == mode,
            r.prompted_for(caller, caller_name@, user_name@),
    {
        let system_prompt = match caller {
            CallerIdentity::Char => render_system_prompt(caller_name, user_name),
            CallerIdentity::User => render_system_prompt(user_name, caller_name),
        };
        MemoryAgent { caller, caller_name: caller_name.to_owned(), mode, system_prompt }
    }

    /// An agent for single requests. `user_name` is the other one of the two.
    pub fn one_shot(caller: CallerIdentity, caller_name: &str, user_name: &str) -> (r: MemoryAgent)
        ensures
            r.caller == caller,
            r.caller_name@ == caller_name@,
            r.mode == AgentMode::OneShot,
            r.prompted_for(caller, caller_name@, user_name@),
    {
        Self::with_mode(caller, caller_name, user_name, AgentMode::OneShot)
    }

    /// An agent for an interactive session. `user_name` is the other one of the two.
    pub fn interactive(caller: CallerIdentity, caller_name: &str, user_name: &str) -> (r:
        MemoryAgent)
        ensures
            r.caller == caller,
            r.caller_name@ == caller_name@,
            r.mode == AgentMode::Interactive,
            r.prompted_for(caller, caller_name@, user_name@),
    {
        Self::with_mode(caller, caller_name, user_name, AgentMode::Interactive)
    }

    /// Who calls.
    pub fn caller(&self) -> (r: CallerIdentity)
        ensures
            r == self.caller,
    {
        self.caller
    }

    /// Who "I" stands for.
    pub fn caller_name(&self) -> (r: &str)
        ensures
            r@ == self.caller_name@,
    {
        self.caller_name.as_str()
    }

    /// How the agent is run.
    pub fn mode(&self) -> (r: AgentMode)
        ensures
            r == self.mode,
    {
        self.mode
    }

    /// Starts the tool loop for a single question.
    pub fn ask(&self, question: &str) -> (r: AgentLoop)
        ensures
            r.wf(),
            r.turns == 0,
            r.mutations@.len() == 0,
            r.conversation@.len() == 1,
            r.conversation@[0] is User,
            r.conversation@[0]->User_0@ == question@,
    {
        AgentLoop::start(vec![AgentMessage::User(question.to_owned())])
    }

    /// Enters a question into the history, which is what the tool loop then starts with.
    pub fn run_query(&self, content: &str, history: &mut Vec<AgentMessage>)
        ensures
            final(history)@.len() == old(history)@.len() + 1,
            final(history)@.drop_last() == old(history)@,
            final(history)@.last() is User,
            final(history)@.last()->User_0@ == content@,
    {
        history.push(AgentMessage::User(content.to_owned()));
        assert(history@.drop_last() =~= old(history)@);
    }

    /// Enters the answer into the history and sums up what was changed; the summary is empty where
    /// nothing was.
    pub fn finish_query(&self, text: String, mutations: &Vec<String>, history: &mut Vec<AgentMessage>)
        -> (r: String)
        ensures
            r@ == joined(texts(mutations@), "; "@),
            final(history)@ == old(history)@.push(AgentMessage::Assistant(text)),
    {
        history.push(AgentMessage::Assistant(text));
        join_texts(mutations, "; ")
    }

    /// The query that a retrieval is to be given; retrieval is not offered in interactive mode.
    pub fn query(&self, request: &str) -> (r: Result<String, AgentError>)
        ensures
            match r {
                Ok(q) => self.mode == AgentMode::OneShot && q@ == resolved(
                    request@,
                    self.caller_name@,
                ),
                Err(e) => {
                    &&& self.mode == AgentMode::Interactive
                    &&& e is Llm
                    &&& e->Llm_0@ == "legacy query() not available in interactive mode"@
                },
            },
    {
        match self.mode {
            AgentMode::Interactive => Err(
                AgentError::Llm("legacy query() not available in interactive mode".to_owned()),
            ),
            AgentMode::OneShot => Ok(
                resolve_pronouns(request, self.caller, self.caller_name.as_str()),
            ),
        }
    }
}

}
