//! The memory agent that answers from retrieval alone.
use crate::clock::{is_stamp, utc_stamp};
use crate::memory::agent::types::{AgentMode, CallerIdentity};
use crate::memory::agent::{resolve_pronouns, resolved};
use crate::memory::db::Entry;
use crate::text::compose::{cat2, cat3, cat4};
use crate::text::number::{decimal, decimal_text};
use vstd::prelude::*;

verus! {

broadcast use vstd::string::group_string_axioms;

/// Errors of the retrieval agent.
#[derive(Debug)]
pub enum AgentError {
    /// The memory database failed.
    Db(String),
    /// Retrieval failed.
    Rag(String),
    /// Indexing failed.
    Indexing(String),
    /// The agent is interactive and cannot answer single requests.
    InteractiveNotImplemented,
}

impl AgentError {
    /// The text that is shown for the error.
    pub open spec fn text(&self) -> Seq<char> {
        match self {
            AgentError::Db(e) => "db: "@ + e@,
            AgentError::Rag(e) => "rag: "@ + e@,
            AgentError::Indexing(e) => "indexing: "@ + e@,
            AgentError::InteractiveNotImplemented => "interactive mode not yet implemented"@,
        }
    }

    /// The text that is shown for the error.
    pub fn message(&self) -> (r: String)
        ensures
            r@ == self.text(),
    {
        match self {
            AgentError::Db(e) => cat2("db: ", e.as_str()),
            AgentError::Rag(e) => cat2("rag: ", e.as_str()),
            AgentError::Indexing(e) => cat2("indexing: ", e.as_str()),
            AgentError::InteractiveNotImplemented => "interactive mode not yet implemented".to_owned(),
        }
    }
}

/// What came of a write.
#[derive(Debug)]
pub struct MemoryWriteResult {
    /// The entry that was written.
    pub entry_id: String,
    /// `create`, `update` or `supersede`.
    pub operation: String,
    /// Whether the entry could be indexed.
    pub indexed: bool,
}

/// A write that is to be carried out.
#[derive(Debug)]
pub struct EntryWrite {
    /// `create`, `update` or `supersede`.
    pub operation: String,
    /// The entry that the audit record is linked to.
    pub entry_id: String,
    /// The text to index for that entry.
    pub index_text: String,
    /// The kind of the audit record.
    pub changelog_operation: String,
    /// The text of the audit record.
    pub changelog_text: String,
}

impl EntryWrite {
    /// What is reported once the write is done.
    pub fn result(&self, indexed: bool) -> (r: MemoryWriteResult)
        ensures
            r.entry_id@ == self.entry_id@,
            r.operation@ == self.operation@,
            r.indexed == indexed,
    {
        MemoryWriteResult {
            entry_id: self.entry_id.clone(),
            operation: self.operation.clone(),
            indexed,
        }
    }
}

/// `id` is the identifier of the entry number `n`, made at some moment: `YYYYMMDD_HHMMSS_N`.
pub open spec fn is_entry_id(id: Seq<char>, n: int) -> bool {
    exists|stamp: Seq<char>|
        is_stamp(stamp, '_') && id == #[trigger] (stamp + "_"@) + decimal(n as nat)
}

/// The identifier of the entry number `index` made at a moment.
pub fn entry_id_at(stamp: &str, index: usize) -> (r: String)
    ensures
        r@ == stamp@ + "_"@ + decimal(index as nat),
{
    cat3(stamp, "_", decimal_text(index as u64).as_str())
}

/// An agent that answers single requests from retrieval.
#[derive(Debug)]
pub struct MemoryAgent {
    /// Who calls.
    pub caller: CallerIdentity,
    /// Who "I" stands for.
    pub caller_name: String,
    /// How the agent is run.
    pub mode: AgentMode,
    /// How many hits a retrieval is asked for.
    pub top_k: usize,
}

/// A retrieval that is to be made.
#[derive(Debug)]
pub struct Retrieval {
    /// The query with pronouns resolved.
    pub query: String,
    /// How many hits are wanted.
    pub top_k: usize,
}

impl MemoryAgent {
    /// An agent for single requests.
    pub fn one_shot(caller: CallerIdentity, caller_name: &str) -> (r: MemoryAgent)
        ensures
            r.caller == caller,
            r.caller_name@ == caller_name@,
            r.mode == AgentMode::OneShot,
            r.top_k == 32,
    {
        MemoryAgent {
            caller,
            caller_name: caller_name.to_owned(),
            mode: AgentMode::OneShot,
            top_k: 32,
        }
    }

    /// An agent for an interactive session.
    pub fn interactive(caller: CallerIdentity, caller_name: &str) -> (r: MemoryAgent)
        ensures
            r.caller == caller,
            r.caller_name@ == caller_name@,
            r.mode == AgentMode::Interactive,
            r.top_k == 32,
    {
        MemoryAgent {
            caller,
            caller_name: caller_name.to_owned(),
            mode: AgentMode::Interactive,
            top_k: 32,
        }
    }

    /// Who calls.
    pub fn caller(&self) -> (r: CallerIdentity)
        ensures
            r == self.caller,
    {
        self.caller
    }

    /// Who "I" stands for.
    pub fn caller_name(&self) -> (r: &str)
        ensures
            r@ == self.caller_name@,
    {
        self.caller_name.as_str()
    }

    /// How the agent is run.
    pub fn mode(&self) -> (r: AgentMode)
        ensures
            r == self.mode,
    {
        self.mode
    }

    /// The retrieval that answers a request; an interactive agent makes none.
    pub fn query(&self, request: &str) -> (r: Result<Retrieval, AgentError>)
        ensures
            match r {
                Ok(q) => {
                    &&& self.mode == AgentMode::OneShot
                    &&& q.query@ == resolved(request@, self.caller_name@)
                    &&& q.top_k == self.top_k
                },
                Err(e) => self.mode == AgentMode::Interactive && e
                    == AgentError::InteractiveNotImplemented,
            },
    {
        match self.mode {
            AgentMode::Interactive => Err(AgentError::InteractiveNotImplemented),
            AgentMode::OneShot => Ok(
                Retrieval {
                    query: resolve_pronouns(request, self.caller, self.caller_name.as_str()),
                    top_k: self.top_k,
                },
            ),
        }
    }

    /// How a new entry is recorded and indexed.
    pub fn create_entry(&self, entry: &Entry) -> (r: EntryWrite)
        ensures
            r.operation@ == "create"@,
            r.entry_id@ == entry.id@,
            r.index_text@ == entry.summary_text@,
            r.changelog_operation@ == "agent_create"@,
            r.changelog_text@ == "Memory agent created entry "@ + entry.id@,
    {
        EntryWrite {
            operation: "create".to_owned(),
            entry_id: entry.id.clone(),
            index_text: entry.summary_text.clone(),
            changelog_operation: "agent_create".to_owned(),
            changelog_text: cat2("Memory agent created entry ", entry.id.as_str()),
        }
    }

    /// How a changed entry is recorded and indexed.
    pub fn update_entry(&self, entry: &Entry) -> (r: EntryWrite)
        ensures
            r.operation@ == "update"@,
            r.entry_id@ == entry.id@,
            r.index_text@ == entry.summary_text@,
            r.changelog_operation@ == "agent_update"@,
            r.changelog_text@ == "Memory agent updated entry "@ + entry.id@,
    {
        EntryWrite {
            operation: "update".to_owned(),
            entry_id: entry.id.clone(),
            index_text: entry.summary_text.clone(),
            changelog_operation: "agent_update".to_owned(),
            changelog_text: cat2("Memory agent updated entry ", entry.id.as_str()),
        }
    }

    /// How an entry that takes the place of another is recorded and indexed.
    pub fn supersede_entry(&self, old_id: &str, new_entry: &Entry) -> (r: EntryWrite)
        ensures
            r.operation@ == "supersede"@,
            r.entry_id@ == new_entry.id@,
            r.index_text@ == new_entry.summary_text@,
            r.changelog_operation@ == "agent_supersede"@,
            r.changelog_text@ == "Memory agent superseded entry "@ + old_id@ + " with "@
                + new_entry.id@,
    {
        EntryWrite {
            operation: "supersede".to_owned(),
            entry_id: new_entry.id.clone(),
            index_text: new_entry.summary_text.clone(),
            changelog_operation: "agent_supersede".to_owned(),
            changelog_text: cat4(
                "Memory agent superseded entry ",
                old_id,
                " with ",
                new_entry.id.as_str(),
            ),
        }
    }

    /// An identifier for the entry number `index` made now.
    pub fn generate_entry_id(index: usize) -> (r: String)
        ensures
            is_entry_id(r@, index as int),
    {
        let stamp = utc_stamp();
        let id = entry_id_at(stamp.as_str(), index);
        assert(id@ == (stamp@ + "_"@) + decimal(index as nat));
        id
    }
}

}
