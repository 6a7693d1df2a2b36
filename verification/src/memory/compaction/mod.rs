//! Compaction of conversations into memory: the older part of a conversation is summed up by a model,
//! the most recent user turns stay.
use crate::clock::{is_utc_text, utc_now_text, utc_stamp};
use crate::memory::compaction::entries::{
    entries_of_blocks, parse_compaction_response, tag_contents,
};
use crate::memory::compaction::parser::tag_content;
use crate::memory::compaction::types::{
    compacted_view, CompactedEntry, CompactedEntryView, CompactionConfig, CompactionError, CompactionResult,
    ConversationMessage, DryRunResult, RetentionParams,
};
use crate::memory::db::{Entry, EntryView};
use crate::memory::retrieval_agent::{entry_id_at, is_entry_id};
use crate::text::compose::{cat2, cat3, cat4, option_text, same_text};
use crate::text::number::decimal;
use crate::text::search::{find, find_text, lemma_find, replace_all, replace_text, slice_text};
use vstd::prelude::*;
use vstd::slice::slice_subrange;
use vstd::string::*;

pub mod background;
pub mod entries;
pub mod laws;
pub mod parser;
pub mod types;

verus! {

broadcast use vstd::string::group_string_axioms;

/// The message is part of a tool loop and belongs to the message before it: a user message of tool
/// results, or an assistant message without text.
pub open spec fn in_tool_loop(msg: ConversationMessage) -> bool {
    if msg.role@ == "user"@ {
        msg.is_tool_result_only
    } else {
        msg.role@ == "assistant"@ && msg.content@.len() == 0
    }
}

/// The message begins a turn of the user.
pub open spec fn begins_turn(msg: ConversationMessage) -> bool {
    msg.role@ == "user"@ && !in_tool_loop(msg)
}

/// The number of user turns that begin at message `i` or later.
pub open spec fn turns_from(messages: Seq<ConversationMessage>, i: int) -> nat
    decreases messages.len() - i,
{
    if i < 0 || i >= messages.len() {
        0
    } else if begins_turn(messages[i]) {
        turns_from(messages, i + 1) + 1
    } else {
        turns_from(messages, i + 1)
    }
}

/// `split` is the first message that stays: a turn begins there, and with it exactly the turns to be
/// kept are left. Where no turn is to be kept no message stays, and where there are too few turns `split`
/// is 0.
pub open spec fn is_turn_split(
    messages: Seq<ConversationMessage>,
    keep_turns: usize,
    split: int,
) -> bool {
    if keep_turns == 0 {
        split == messages.len()
    } else {
        ||| {
            &&& 0 <= split < messages.len()
            &&& begins_turn(messages[split])
            &&& turns_from(messages, split) == keep_turns
        }
        ||| split == 0 && turns_from(messages, 0) < keep_turns
    }
}

pub proof fn lemma_turns_shrink(messages: Seq<ConversationMessage>, i: int, j: int)
    requires
        0 <= i <= j,
    ensures
        turns_from(messages, j) <= turns_from(messages, i),
    decreases j - i,
{
    if i < j {
        lemma_turns_shrink(messages, i + 1, j);
    }
}

/// There is only one place where a conversation is split.
pub proof fn turn_split_is_unique(
    messages: Seq<ConversationMessage>,
    keep_turns: usize,
    a: int,
    b: int,
)
    requires
        is_turn_split(messages, keep_turns, a),
        is_turn_split(messages, keep_turns, b),
    ensures
        a == b,
{
    if a < b {
        lemma_turns_shrink(messages, a + 1, b);
        lemma_turns_shrink(messages, 0, b);
    } else if b < a {
        lemma_turns_shrink(messages, b + 1, a);
        lemma_turns_shrink(messages, 0, a);
    }
}

/// One message as it stands in the prompt.
pub open spec fn prompt_line(msg: ConversationMessage) -> Seq<char> {
    "["@ + msg.timestamp@ + "] "@ + msg.role@ + ": "@ + msg.content@ + "\n"@
}

/// The messages as they stand in the prompt.
pub open spec fn prompt_lines(messages: Seq<ConversationMessage>) -> Seq<char>
    decreases messages.len(),
{
    if messages.len() == 0 {
        Seq::empty()
    } else {
        prompt_lines(messages.drop_last()) + prompt_line(messages.last())
    }
}

/// The recap where it is not empty.
pub open spec fn usable_recap(recap: Option<&str>) -> Option<Seq<char>> {
    match recap {
        Some(r) => if r@.len() > 0 {
            Some(r@)
        } else {
            None
        },
        None => None,
    }
}

/// The conditional block of a template can be taken out: its end does not stand before its start.
pub open spec fn block_in_order(text: Seq<char>) -> bool {
    match (find(text, "{{#if recap}}"@), find(text, "{{/if}}"@)) {
        (Some(a), Some(b)) => a + 13 <= b,
        _ => true,
    }
}

/// The text with its recap filled in. A conditional block is kept without its tags where there is a
/// recap, and left out where there is none.
pub open spec fn with_recap(text: Seq<char>, recap: Option<&str>) -> Seq<char> {
    match (find(text, "{{#if recap}}"@), find(text, "{{/if}}"@)) {
        (Some(a), Some(b)) => match usable_recap(recap) {
            Some(r) => text.take(a) + replace_all(text.subrange(a + 13, b), "{{recap}}"@, r)
                + text.skip(b + 7),
            None => text.take(a) + text.skip(b + 7),
        },
        _ => match recap {
            Some(r) => replace_all(text, "{{recap}}"@, r@),
            None => text,
        },
    }
}

/// The template with the conversation, the recap and the names filled in, in that order.
pub open spec fn filled_prompt(
    template: Seq<char>,
    messages: Seq<ConversationMessage>,
    recap: Option<&str>,
    char_name: Seq<char>,
    user_name: Seq<char>,
) -> Seq<char> {
    let text = replace_all(template, "{{conversation}}"@, prompt_lines(messages));
    replace_all(
        replace_all(with_recap(text, recap), "{{char}}"@, char_name),
        "{{user}}"@,
        user_name,
    )
}

/// A template whose prompt can be built for the messages and the recap.
pub open spec fn fillable(
    template: Seq<char>,
    messages: Seq<ConversationMessage>,
    recap: Option<&str>,
) -> bool {
    usable_recap(recap) is Some ==> block_in_order(
        replace_all(template, "{{conversation}}"@, prompt_lines(messages)),
    )
}

fn conversation_lines(messages: &[ConversationMessage]) -> (r: String)
    ensures
        r@ == prompt_lines(messages@),
{
    let mut out = String::new();
    let mut i: usize = 0;
    proof {
        assert(messages@.take(0) =~= Seq::<ConversationMessage>::empty());
    }
    while i < messages.len()
        invariant
            i <= messages.len(),
            out@ == prompt_lines(messages@.take(i as int)),
        decreases messages.len() - i,
    {
        let m = &messages[i];
        proof {
            assert(messages@.take(i + 1).drop_last() =~= messages@.take(i as int));
        }
        let head = cat4("[", m.timestamp.as_str(), "] ", m.role.as_str());
        let line = cat4(head.as_str(), ": ", m.content.as_str(), "\n");
        out.append(line.as_str());
        i += 1;
    }
    proof {
        assert(messages@.take(i as int) =~= messages@);
    }
    out
}

/// Whether the prompt can be built: with a recap to fill in, the recap block, where it has both ends, must
/// not end before it begins. A conversation that holds such marks itself counts as part of the template.
pub fn can_fill(template: &str, messages: &[ConversationMessage], recap: Option<&str>) -> (r: bool)
    ensures
        r == fillable(template@, messages@, recap),
{
    match recap {
        Some(text) if !text.is_empty() => {
            let conversation = conversation_lines(messages);
            proof {
                reveal_strlit("{{conversation}}");
                reveal_strlit("{{#if recap}}");
                reveal_strlit("{{/if}}");
            }
            let filled = replace_text(template, "{{conversation}}", conversation.as_str());
            proof {
                lemma_find(filled@, "{{#if recap}}"@);
                lemma_find(filled@, "{{/if}}"@);
            }
            let start = find_text(filled.as_str(), "{{#if recap}}");
            let end = find_text(filled.as_str(), "{{/if}}");
            match (start, end) {
                (Some(a), Some(b)) => a <= b && b - a >= 13,
                _ => true,
            }
        },
        _ => true,
    }
}

fn fill_recap(text: &str, recap: Option<&str>) -> (r: String)
    requires
        usable_recap(recap) is Some ==> block_in_order(text@),
    ensures
        r@ == with_recap(text@, recap),
{
    proof {
        reveal_strlit("{{#if recap}}");
        reveal_strlit("{{/if}}");
        reveal_strlit("{{recap}}");
        lemma_find(text@, "{{#if recap}}"@);
        lemma_find(text@, "{{/if}}"@);
    }
    let start = find_text(text, "{{#if recap}}");
    let end = find_text(text, "{{/if}}");
    match (start, end) {
        (Some(a), Some(b)) => {
            let n: usize = text.unicode_len();
            let head = slice_text(text, 0, a);
            let tail = slice_text(text, b + 7, n);
            proof {
                assert(head@ =~= text@.take(a as int));
                assert(tail@ =~= text@.skip(b + 7));
            }
            match recap {
                Some(r) if !r.is_empty() => {
                    let block = slice_text(text, a + 13, b);
                    let filled = replace_text(block.as_str(), "{{recap}}", r);
                    cat3(head.as_str(), filled.as_str(), tail.as_str())
                },
                _ => cat2(head.as_str(), tail.as_str()),
            }
        },
        _ => match recap {
            Some(r) => replace_text(text, "{{recap}}", r),
            None => text.to_owned(),
        },
    }
}

/// What is to be done to compact a conversation.
#[derive(Debug)]
pub struct CompactionPlan {
    /// The first message that stays.
    pub split_at: usize,
    /// How many messages stay.
    pub retained: usize,
    /// How many user turns stay.
    pub retained_turns: usize,
    /// What the model is asked.
    pub prompt: String,
    /// When the first compacted message was written.
    pub start_timestamp: String,
    /// When the last compacted message was written.
    pub end_timestamp: String,
}

/// What follows on the model's answer.
#[derive(Debug)]
pub enum CompactionStep {
    /// A trial run ends.
    DryRun(DryRunResult),
    /// The entries are stored and indexed, and the conversation is archived.
    Store {
        /// The entries.
        entries: Vec<Entry>,
        /// The new recap.
        recap: Option<String>,
    },
}

/// An entry made from a compacted conversation.
pub open spec fn compacted_entry(
    plan: CompactionPlan,
    ce: CompactedEntryView,
    id: Seq<char>,
    now: Seq<char>,
) -> EntryView {
    EntryView {
        id,
        memory_type: ce.memory_type,
        source: "summary"@,
        reason: "compaction"@,
        status: "active"@,
        confidence_bits: ce.confidence_bits,
        summary_text: ce.summary_text,
        topic_tags: ce.topic_tags,
        topic_key: ce.topic_key,
        start_timestamp: plan.start_timestamp@,
        end_timestamp: plan.end_timestamp@,
        message_count: plan.split_at as i64,
        source_entry_ids: Seq::empty(),
        related_entry_ids: Seq::empty(),
        superseded_by: Seq::empty(),
        created_at: now,
        updated_at: now,
        entry_type: Seq::empty(),
        image_path: Seq::empty(),
        collated_at: Seq::empty(),
        file_path: Seq::empty(),
    }
}

/// `r` is how a conversation is compacted, or why it is not.
pub open spec fn is_plan(
    messages: Seq<ConversationMessage>,
    keep_turns: usize,
    is_private: bool,
    template: Seq<char>,
    recap: Option<&str>,
    char_name: Seq<char>,
    user_name: Seq<char>,
    r: Result<CompactionPlan, CompactionError>,
) -> bool {
    match r {
        Ok(plan) => {
            &&& !is_private
            &&& 0 < plan.split_at <= messages.len()
            &&& is_turn_split(messages, keep_turns, plan.split_at as int)
            &&& plan.retained == messages.len() - plan.split_at
            &&& plan.retained_turns == keep_turns
            &&& plan.prompt@ == filled_prompt(
                template,
                messages.take(plan.split_at as int),
                recap,
                char_name,
                user_name,
            )
            &&& plan.start_timestamp@ == messages[0].timestamp@
            &&& plan.end_timestamp@ == messages[plan.split_at - 1].timestamp@
        },
        Err(e) => if is_private {
            e == CompactionError::PrivateConversation
        } else {
            e == CompactionError::InsufficientMessages && is_turn_split(messages, keep_turns, 0)
        },
    }
}

/// Decides when and how conversations are compacted.
#[derive(Debug)]
pub struct CompactionManager {
    /// The configuration.
    pub config: CompactionConfig,
}

impl CompactionManager {
    /// A manager with a configuration.
    pub fn new(config: CompactionConfig) -> (r: CompactionManager)
        ensures
            r.config == config,
    {
        CompactionManager { config }
    }

    /// Whether the message is part of a tool loop.
    pub fn is_tool_loop_message(msg: &ConversationMessage) -> (r: bool)
        ensures
            r == in_tool_loop(*msg),
    {
        if same_text(msg.role.as_str(), "user") {
            msg.is_tool_result_only
        } else {
            same_text(msg.role.as_str(), "assistant") && msg.content.as_str().is_empty()
        }
    }

    /// The first message that stays when `keep_turns` user turns are kept: behind the last message where
    /// none is kept, and 0 where there are too few.
    pub fn find_turn_split(messages: &[ConversationMessage], keep_turns: usize) -> (r: usize)
        ensures
            is_turn_split(messages@, keep_turns, r as int),
            r <= messages@.len(),
    {
        if keep_turns == 0 {
            return messages.len();
        }
        let mut turns_seen: usize = 0;
        let mut i: usize = messages.len();
        while i > 0
            invariant
                i <= messages.len(),
                turns_seen == turns_from(messages@, i as int),
                turns_seen <= messages.len() - i,
                turns_seen < keep_turns,
            decreases i,
        {
            i -= 1;
            let msg = &messages[i];
            if same_text(msg.role.as_str(), "user") && !Self::is_tool_loop_message(msg) {
                turns_seen += 1;
                if turns_seen >= keep_turns {
                    return i;
                }
            }
        }
        0
    }

    /// Whether so many user turns are enough for any compaction.
    pub fn has_enough_turns(&self, turn_count: usize) -> (r: bool)
        ensures
            r == (turn_count >= self.config.min_turns),
    {
        turn_count >= self.config.min_turns
    }

    /// Whether compaction is due because of the number of user turns.
    pub fn should_force_compact(&self, turn_count: usize) -> (r: bool)
        ensures
            r == (self.config.max_turns > 0 && turn_count >= self.config.max_turns && turn_count
                >= self.config.min_turns),
    {
        self.config.max_turns > 0 && turn_count >= self.config.max_turns && self.has_enough_turns(
            turn_count,
        )
    }

    /// How long a conversation must be idle before it is compacted, in seconds.
    pub fn idle_seconds(&self) -> (r: u64)
        ensures
            r == self.config.idle_trigger_minutes * 60,
    {
        (self.config.idle_trigger_minutes as u64) * 60
    }

    /// The prompt for the messages.
    pub fn build_prompt(
        template: &str,
        messages: &[ConversationMessage],
        existing_recap: Option<&str>,
        char_name: &str,
        user_name: &str,
    ) -> (r: String)
        requires
            fillable(template@, messages@, existing_recap),
        ensures
            r@ == filled_prompt(template@, messages@, existing_recap, char_name@, user_name@),
    {
        proof {
            reveal_strlit("{{conversation}}");
            reveal_strlit("{{char}}");
            reveal_strlit("{{user}}");
        }
        let conversation = conversation_lines(messages);
        let text = replace_text(template, "{{conversation}}", conversation.as_str());
        let filled = fill_recap(text.as_str(), existing_recap);
        let named = replace_text(filled.as_str(), "{{char}}", char_name);
        replace_text(named.as_str(), "{{user}}", user_name)
    }

    /// Decides whether and how a conversation is compacted. Private conversations and those without
    /// anything before the turns to be kept are refused.
    pub fn compact(
        &self,
        messages: &[ConversationMessage],
        is_private: bool,
        prompt_template: &str,
        existing_recap: Option<&str>,
        char_name: &str,
        user_name: &str,
    ) -> (r: Result<CompactionPlan, CompactionError>)
        requires
            forall|n: int|
                !is_private && n > 0 && is_turn_split(messages@, self.config.keep_recent_turns, n)
                    ==> fillable(prompt_template@, #[trigger] messages@.take(n), existing_recap),
        ensures
            is_plan(
                messages@,
                self.config.keep_recent_turns,
                is_private,
                prompt_template@,
                existing_recap,
                char_name@,
                user_name@,
                r,
            ),
    {
        if is_private {
            return Err(CompactionError::PrivateConversation);
        }
        let split_at = Self::find_turn_split(messages, self.config.keep_recent_turns);
        if split_at == 0 {
            return Err(CompactionError::InsufficientMessages);
        }
        let part = slice_subrange(messages, 0, split_at);
        proof {
            assert(part@ =~= messages@.take(split_at as int));
        }
        let prompt = Self::build_prompt(prompt_template, part, existing_recap, char_name, user_name);
        Ok(
            CompactionPlan {
                split_at,
                retained: messages.len() - split_at,
                retained_turns: self.config.keep_recent_turns,
                prompt,
                start_timestamp: messages[0].timestamp.clone(),
                end_timestamp: messages[split_at - 1].timestamp.clone(),
            },
        )
    }
}

impl CompactionPlan {
    /// What a trial run reports.
    pub fn dry_run(&self, recap: Option<String>, compacted: Vec<CompactedEntry>) -> (r: DryRunResult)
        ensures
            r.would_create_entries == compacted@.len(),
            r.entries_preview == compacted,
            r.message_count == self.split_at,
            r.retained_count == self.retained,
            r.retained_turns == self.retained_turns,
            r.recap_preview == recap,
    {
        DryRunResult {
            would_create_entries: compacted.len(),
            entries_preview: compacted,
            message_count: self.split_at,
            retained_count: self.retained,
            retained_turns: self.retained_turns,
            recap_preview: recap,
        }
    }

    /// The entry to store for what the model extracted.
    pub fn entry_at(&self, ce: &CompactedEntry, id: String, now: &str) -> (r: Entry)
        ensures
            r@ == compacted_entry(*self, ce@, id@, now@),
    {
        Entry {
            id,
            memory_type: ce.memory_type.clone(),
            source: "summary".to_owned(),
            reason: "compaction".to_owned(),
            status: "active".to_owned(),
            confidence_bits: ce.confidence_bits,
            summary_text: ce.summary_text.clone(),
            topic_tags: ce.topic_tags.clone(),
            topic_key: ce.topic_key.clone(),
            start_timestamp: self.start_timestamp.clone(),
            end_timestamp: self.end_timestamp.clone(),
            message_count: as_count(self.split_at),
            source_entry_ids: String::new(),
            related_entry_ids: String::new(),
            superseded_by: String::new(),
            created_at: now.to_owned(),
            updated_at: now.to_owned(),
            entry_type: String::new(),
            image_path: String::new(),
            collated_at: String::new(),
            file_path: String::new(),
        }
    }

    /// The entries to store, numbered in order and dated now.
    pub fn new_entries(&self, compacted: &Vec<CompactedEntry>) -> (r: Vec<Entry>)
        ensures
            self.are_new_entries(r@, compacted_view(compacted@)),
    {
        let now = utc_now_text();
        let mut out: Vec<Entry> = Vec::new();
        let mut i: usize = 0;
        while i < compacted.len()
            invariant
                i <= compacted.len(),
                out.len() == i,
                forall|k: int|
                    0 <= k < i ==> self.is_entry(#[trigger] out@[k], compacted@[k]@, k, now@),
            decreases compacted.len() - i,
        {
            let stamp = utc_stamp();
            let id = entry_id_at(stamp.as_str(), i);
            let entry = self.entry_at(&compacted[i], id, now.as_str());
            proof {
                assert(entry@.id == (stamp@ + "_"@) + decimal(i as nat));
                assert(is_entry_id(entry@.id, i as int));
            }
            out.push(entry);
            i += 1;
        }
        assert(self.entries_are(out@, compacted_view(compacted@), now@));
        out
    }

    /// `entry` is the entry number `i`, made from `ce`.
    pub open spec fn is_entry(
        &self,
        entry: Entry,
        ce: CompactedEntryView,
        i: int,
        now: Seq<char>,
    ) -> bool {
        entry@ == compacted_entry(*self, ce, entry@.id, now) && is_entry_id(entry@.id, i)
    }

    /// The entries are those made from what the model extracted, in order.
    pub open spec fn entries_are(
        &self,
        entries: Seq<Entry>,
        compacted: Seq<CompactedEntryView>,
        now: Seq<char>,
    ) -> bool {
        &&& entries.len() == compacted.len()
        &&& forall|k: int|
            0 <= k < entries.len() ==> self.is_entry(#[trigger] entries[k], compacted[k], k, now)
    }

    /// The entries are those made from what the model extracted, in order, at some moment.
    pub open spec fn are_new_entries(
        &self,
        entries: Seq<Entry>,
        compacted: Seq<CompactedEntryView>,
    ) -> bool {
        exists|now: Seq<char>|
            is_utc_text(now) && #[trigger] self.entries_are(entries, compacted, now)
    }

    /// The step is what follows on an answer with these entries and this recap.
    pub open spec fn is_step(
        &self,
        step: CompactionStep,
        found: Seq<CompactedEntryView>,
        recap: Option<Seq<char>>,
        dry_run: bool,
    ) -> bool {
        match step {
            CompactionStep::DryRun(d) => {
                &&& dry_run
                &&& compacted_view(d.entries_preview@) == found
                &&& d.would_create_entries == found.len()
                &&& d.message_count == self.split_at
                &&& d.retained_count == self.retained
                &&& d.retained_turns == self.retained_turns
                &&& option_text(d.recap_preview) == recap
            },
            CompactionStep::Store { entries, recap: new_recap } => {
                &&& !dry_run
                &&& self.are_new_entries(entries@, found)
                &&& option_text(new_recap) == recap
            },
        }
    }

    /// Decides on the model's answer: a trial run reports what it holds, otherwise its entries are stored
    /// and the conversation is archived. An answer without entries is an error.
    pub fn on_summary(&self, raw: &str, dry_run: bool) -> (r: Result<
        CompactionStep,
        CompactionError,
    >)
        ensures
            match r {
                Ok(step) => tag_contents(raw@, "entry"@).len() > 0 && self.is_step(
                    step,
                    entries_of_blocks(tag_contents(raw@, "entry"@)),
                    tag_content(raw@, "recap"@),
                    dry_run,
                ),
                Err(e) => {
                    &&& tag_contents(raw@, "entry"@).len() == 0
                    &&& e is Parse
                    &&& e->Parse_0@ == "no <entry> blocks found in LLM response"@
                },
            },
    {
        match parse_compaction_response(raw) {
            Err(e) => Err(e),
            Ok((recap, compacted)) => {
                let ghost found = compacted_view(compacted@);
                let step = if dry_run {
                    let d = self.dry_run(recap, compacted);
                    proof {
                        assert(compacted_view(d.entries_preview@) == found);
                        assert(found.len() == d.entries_preview@.len());
                    }
                    CompactionStep::DryRun(d)
                } else {
                    CompactionStep::Store { entries: self.new_entries(&compacted), recap }
                };
                Ok(step)
            },
        }
    }

    /// What is kept of the conversation.
    pub fn retention(&self, recap: Option<String>, active_content: String) -> (r: RetentionParams)
        ensures
            r.keep_last_n == self.retained,
            r.recap == recap,
            r.active_content == active_content,
    {
        RetentionParams { keep_last_n: self.retained, recap, active_content }
    }

    /// What is reported once the conversation is archived.
    pub fn result(
        &self,
        conversation_id: &str,
        new_conversation_id: String,
        entries_created: Vec<String>,
        recap: &Option<String>,
    ) -> (r: CompactionResult)
        ensures
            r.entries_created == entries_created,
            r.conversation_id@ == conversation_id@,
            r.new_conversation_id == new_conversation_id,
            r.message_count == self.split_at,
            r.retained_count == self.retained,
            r.retained_turns == self.retained_turns,
            r.recap_generated == (recap is Some),
    {
        CompactionResult {
            entries_created,
            conversation_id: conversation_id.to_owned(),
            new_conversation_id,
            message_count: self.split_at,
            retained_count: self.retained,
            retained_turns: self.retained_turns,
            recap_generated: recap.is_some(),
        }
    }
}

/// The number of messages as it is stored.
#[verifier::truncate]
fn as_count(n: usize) -> (r: i64)
    ensures
        r == n as i64,
{
    n as i64
}

/// The audit text of an entry made by compaction.
pub fn compaction_changelog(conversation_id: &str, entry_id: &str) -> (r: String)
    ensures
        r@ == "Compacted conversation "@ + conversation_id@ + " into entry "@ + entry_id@,
{
    cat4("Compacted conversation ", conversation_id, " into entry ", entry_id)
}

/// A conversation is split into the part that is compacted and the part that stays: together they are
/// the whole conversation, and the part that stays holds as many user turns as are to be kept and, where
/// there are any, begins with one.
pub proof fn compaction_keeps_recent_turns(
    messages: Seq<ConversationMessage>,
    keep_turns: usize,
    split: int,
)
    requires
        is_turn_split(messages, keep_turns, split),
        split > 0,
    ensures
        messages.take(split) + messages.skip(split) == messages,
        keep_turns > 0 ==> begins_turn(messages.skip(split)[0]),
        turns_from(messages.skip(split), 0) == keep_turns,
{
    assert(messages.take(split) + messages.skip(split) =~= messages);
    lemma_turns_of_suffix(messages, split, 0);
}

proof fn lemma_turns_of_suffix(messages: Seq<ConversationMessage>, split: int, i: int)
    requires
        0 <= split <= messages.len(),
        0 <= i <= messages.len() - split,
    ensures
        turns_from(messages.skip(split), i) == turns_from(messages, split + i),
    decreases messages.len() - split - i,
{
    if i < messages.len() - split {
        lemma_turns_of_suffix(messages, split, i + 1);
        assert(messages.skip(split)[i] == messages[split + i]);
    }
}

}
