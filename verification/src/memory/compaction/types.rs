//! Types of the compaction of conversations into memory.
use crate::text::compose::cat2;
use vstd::prelude::*;

verus! {

broadcast use vstd::string::group_string_axioms;

/// When conversations are compacted.
#[derive(Debug, Clone, Copy, PartialEq, Eq, Structural)]
pub struct CompactionConfig {
    /// Minutes without activity after which a conversation is compacted.
    pub idle_trigger_minutes: u32,
    /// The least number of user turns that is compacted.
    pub min_turns: usize,
    /// The number of user turns at which compaction is forced; 0 for never.
    pub max_turns: usize,
    /// The user turns that stay in the conversation.
    pub keep_recent_turns: usize,
}

impl Default for CompactionConfig {
    fn default() -> (r: CompactionConfig)
        ensures
            r == (CompactionConfig {
                idle_trigger_minutes: 30,
                min_turns: 8,
                max_turns: 16,
                keep_recent_turns: 2,
            }),
    {
        CompactionConfig {
            idle_trigger_minutes: 30,
            min_turns: 8,
            max_turns: 16,
            keep_recent_turns: 2,
        }
    }
}

/// A message of a conversation.
#[derive(Debug)]
pub struct ConversationMessage {
    /// Who wrote it.
    pub role: String,
    /// Its text.
    pub content: String,
    /// When it was written.
    pub timestamp: String,
    /// A user message that holds nothing but tool results.
    pub is_tool_result_only: bool,
}

/// A memory entry that the model extracted.
#[derive(Debug)]
pub struct CompactedEntry {
    /// `episodic` or `semantic`.
    pub memory_type: String,
    /// The memory itself.
    pub summary_text: String,
    /// Tags, separated by commas.
    pub topic_tags: String,
    /// The main topic.
    pub topic_key: String,
    /// The bits of the confidence as a double.
    pub confidence_bits: u64,
}

/// A memory entry that the model extracted, as plain values.
pub struct CompactedEntryView {
    pub memory_type: Seq<char>,
    pub summary_text: Seq<char>,
    pub topic_tags: Seq<char>,
    pub topic_key: Seq<char>,
    pub confidence_bits: u64,
}

impl View for CompactedEntry {
    type V = CompactedEntryView;

    open spec fn view(&self) -> CompactedEntryView {
        CompactedEntryView {
            memory_type: self.memory_type@,
            summary_text: self.summary_text@,
            topic_tags: self.topic_tags@,
            topic_key: self.topic_key@,
            confidence_bits: self.confidence_bits,
        }
    }
}

/// The entries as plain values.
pub open spec fn compacted_view(v: Seq<CompactedEntry>) -> Seq<CompactedEntryView> {
    Seq::new(v.len(), |i: int| v[i]@)
}

/// What came of a compaction.
#[derive(Debug)]
pub enum CompactionOutcome {
    /// The conversation was compacted.
    Compacted(CompactionResult),
    /// It was only tried out.
    DryRun(DryRunResult),
}

/// The result of a compaction.
#[derive(Debug)]
pub struct CompactionResult {
    /// The entries that were made.
    pub entries_created: Vec<String>,
    /// The conversation that was compacted.
    pub conversation_id: String,
    /// The conversation that goes on.
    pub new_conversation_id: String,
    /// How many messages were compacted.
    pub message_count: usize,
    /// How many messages stay.
    pub retained_count: usize,
    /// How many user turns were to stay.
    pub retained_turns: usize,
    /// Whether there is a new recap.
    pub recap_generated: bool,
}

/// The result of a compaction that was only tried out.
#[derive(Debug)]
pub struct DryRunResult {
    /// How many entries would be made.
    pub would_create_entries: usize,
    /// The entries.
    pub entries_preview: Vec<CompactedEntry>,
    /// How many messages would be compacted.
    pub message_count: usize,
    /// How many messages would stay.
    pub retained_count: usize,
    /// How many user turns would stay.
    pub retained_turns: usize,
    /// The recap.
    pub recap_preview: Option<String>,
}

/// What is kept when a conversation is archived.
#[derive(Debug)]
pub struct RetentionParams {
    /// How many messages stay, counted from the end.
    pub keep_last_n: usize,
    /// The recap to write; where there is none the old one stays.
    pub recap: Option<String>,
    /// The conversation file as it was when it was compacted.
    pub active_content: String,
}

/// Errors of compaction.
#[derive(Debug)]
pub enum CompactionError {
    /// The model failed.
    Llm(String),
    /// The memory database failed.
    Db(String),
    /// The model's answer could not be read.
    Parse(String),
    /// The conversation is private.
    PrivateConversation,
    /// There is nothing to compact.
    InsufficientMessages,
    /// Indexing failed.
    Indexing(String),
    /// The conversation could not be archived.
    ConversationManager(String),
}

impl CompactionError {
    /// The text that is shown for the error.
    pub open spec fn text(&self) -> Seq<char> {
        match self {
            CompactionError::Llm(e) => "llm: "@ + e@,
            CompactionError::Db(e) => "db: "@ + e@,
            CompactionError::Parse(e) => "parse: "@ + e@,
            CompactionError::PrivateConversation => "private conversation: skipped"@,
            CompactionError::InsufficientMessages => "insufficient messages"@,
            CompactionError::Indexing(e) => "indexing: "@ + e@,
            CompactionError::ConversationManager(e) => "conversation: "@ + e@,
        }
    }

    /// The text that is shown for the error.
    pub fn message(&self) -> (r: String)
        ensures
            r@ == self.text(),
    {
        match self {
            CompactionError::Llm(e) => cat2("llm: ", e.as_str()),
            CompactionError::Db(e) => cat2("db: ", e.as_str()),
            CompactionError::Parse(e) => cat2("parse: ", e.as_str()),
            CompactionError::PrivateConversation => "private conversation: skipped".to_owned(),
            CompactionError::InsufficientMessages => "insufficient messages".to_owned(),
            CompactionError::Indexing(e) => cat2("indexing: ", e.as_str()),
            CompactionError::ConversationManager(e) => cat2("conversation: ", e.as_str()),
        }
    }
}

}
