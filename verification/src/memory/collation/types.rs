//! Types of the collation of memory entries.
use crate::text::compose::cat2;
use vstd::prelude::*;

verus! {

broadcast use vstd::string::group_string_axioms;

/// When entries are reconsidered.
#[derive(Debug, Clone, Copy, PartialEq, Eq, Structural)]
pub struct CollationConfig {
    /// The whole seconds after which a collated entry is looked at again.
    pub reconsider_ttl_seconds: i64,
}

impl Default for CollationConfig {
    fn default() -> (r: CollationConfig)
        ensures
            r.reconsider_ttl_seconds == 30 * 86400,
    {
        CollationConfig { reconsider_ttl_seconds: 2592000 }
    }
}

/// Errors of collation.
#[derive(Debug)]
pub enum CollationError {
    /// The model failed.
    Llm(String),
    /// The memory database failed.
    Db(String),
}

impl CollationError {
    /// The text that is shown for the error.
    pub open spec fn text(&self) -> Seq<char> {
        match self {
            CollationError::Llm(e) => "llm: "@ + e@,
            CollationError::Db(e) => "db: "@ + e@,
        }
    }

    /// The text that is shown for the error.
    pub fn message(&self) -> (r: String)
        ensures
            r@ == self.text(),
    {
        match self {
            CollationError::Llm(e) => cat2("llm: ", e.as_str()),
            CollationError::Db(e) => cat2("db: ", e.as_str()),
        }
    }
}

/// What the model writes for an entry.
#[derive(Debug)]
pub struct RefineEntryFields {
    /// The memory itself.
    pub summary_text: String,
    /// Tags, separated by commas.
    pub topic_tags: String,
    /// The main topic.
    pub topic_key: String,
    /// The bits of the confidence as a double.
    pub confidence_bits: u64,
}

/// What the model wants done.
#[derive(Debug)]
pub enum RefineAction {
    /// Several entries become one.
    Merge {
        /// The entries.
        source_entry_ids: Vec<String>,
        /// What takes their place.
        result: RefineEntryFields,
        /// Why.
        reason: String,
    },
    /// One entry becomes several.
    Split {
        /// The entry.
        source_entry_id: String,
        /// What takes its place.
        results: Vec<RefineEntryFields>,
        /// Why.
        reason: String,
    },
    /// An entry is rewritten.
    Update {
        /// The entry.
        entry_id: String,
        /// What it says from now on.
        result: RefineEntryFields,
        /// Why.
        reason: String,
    },
}

/// What a collation did.
#[derive(Debug, Clone, Copy, PartialEq, Eq, Structural)]
pub struct CollationOutcome {
    /// Merges.
    pub refine_merges: usize,
    /// Splits.
    pub refine_splits: usize,
    /// Rewritten entries.
    pub refine_updates: usize,
    /// New entries.
    pub refine_new_entries: usize,
    /// Entries that were looked at and kept.
    pub refine_kept: usize,
    /// Entries whose confidence was lowered.
    pub entries_decayed: usize,
    /// Entries that were passed over.
    pub entries_skipped: usize,
    /// Entries that got timestamps.
    pub timestamps_backfilled: usize,
}

impl Default for CollationOutcome {
    fn default() -> (r: CollationOutcome)
        ensures
            r == (CollationOutcome {
                refine_merges: 0,
                refine_splits: 0,
                refine_updates: 0,
                refine_new_entries: 0,
                refine_kept: 0,
                entries_decayed: 0,
                entries_skipped: 0,
                timestamps_backfilled: 0,
            }),
    {
        CollationOutcome {
            refine_merges: 0,
            refine_splits: 0,
            refine_updates: 0,
            refine_new_entries: 0,
            refine_kept: 0,
            entries_decayed: 0,
            entries_skipped: 0,
            timestamps_backfilled: 0,
        }
    }
}

}
