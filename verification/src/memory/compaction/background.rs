//! Compaction in the background: reading the stored conversation and reporting the result.
use crate::memory::agent_llm::ContentBlock;
use crate::memory::compaction::types::{CompactionOutcome, ConversationMessage};
use crate::text::compose::{cat2, cat5, same_text};
use crate::text::number::{decimal, decimal_text};
use crate::text::split::{lemma_texts_push, lines, split_lines, texts};
use crate::text::trim::{lowercase, to_lowercase, trim_text, trimmed};
use vstd::prelude::*;

verus! {

broadcast use vstd::string::group_string_axioms;

/// A message as it is stored, one to a line.
#[derive(Debug)]
pub struct StoredMessage {
    /// The name of the role, `User` or `Assistant`.
    pub role: String,
    /// The text.
    pub content: String,
    /// When it was written.
    pub timestamp: String,
    /// The structured content.
    pub content_blocks: Vec<ContentBlock>,
}

/// The lines that hold a record, trimmed.
pub open spec fn records(all: Seq<Seq<char>>) -> Seq<Seq<char>>
    decreases all.len(),
{
    if all.len() == 0 {
        Seq::empty()
    } else {
        let t = records(all.drop_last());
        let line = trimmed(all.last());
        if line.len() == 0 {
            t
        } else {
            t.push(line)
        }
    }
}

/// The records of a conversation file: its lines, trimmed, without blank ones.
pub fn record_lines(content: &str) -> (r: Vec<String>)
    ensures
        texts(r@) == records(lines(content@)),
{
    let all = split_lines(content);
    let ghost a = texts(all@);
    let mut out: Vec<String> = Vec::new();
    let mut i: usize = 0;
    proof {
        assert(texts(out@) =~= records(a.take(0)));
    }
    while i < all.len()
        invariant
            i <= all.len(),
            a == texts(all@),
            texts(out@) == records(a.take(i as int)),
        decreases all.len() - i,
    {
        proof {
            assert(a.take(i + 1).drop_last() =~= a.take(i as int));
            assert(a.take(i + 1).last() == all@[i as int]@);
        }
        let line = trim_text(all[i].as_str());
        if !line.as_str().is_empty() {
            proof {
                lemma_texts_push(out@, line);
            }
            out.push(line);
        }
        i += 1;
    }
    proof {
        assert(a.take(i as int) =~= a);
    }
    out
}

/// A user message that holds tool results and nothing else.
pub open spec fn holds_only_tool_results(msg: StoredMessage) -> bool {
    &&& msg.role@ == "User"@
    &&& msg.content_blocks@.len() > 0
    &&& forall|i: int|
        0 <= i < msg.content_blocks@.len() ==> (#[trigger] msg.content_blocks@[i]) is ToolResult
}

/// A stored message as compaction reads it.
pub fn to_conversation_message(msg: &StoredMessage) -> (r: ConversationMessage)
    ensures
        r.role@ == lowercase(msg.role@),
        r.content@ == msg.content@,
        r.timestamp@ == msg.timestamp@,
        r.is_tool_result_only == holds_only_tool_results(*msg),
{
    let mut all_results = true;
    let mut i: usize = 0;
    while i < msg.content_blocks.len()
        invariant
            i <= msg.content_blocks.len(),
            all_results == forall|k: int|
                0 <= k < i ==> (#[trigger] msg.content_blocks@[k]) is ToolResult,
        decreases msg.content_blocks.len() - i,
    {
        let is_result = match &msg.content_blocks[i] {
            ContentBlock::ToolResult { .. } => true,
            _ => false,
        };
        all_results = all_results && is_result;
        i += 1;
    }
    ConversationMessage {
        role: to_lowercase(msg.role.as_str()),
        content: msg.content.clone(),
        timestamp: msg.timestamp.clone(),
        is_tool_result_only: same_text(msg.role.as_str(), "User") && msg.content_blocks.len() > 0
            && all_results,
    }
}

/// The title of notifications about a character.
pub fn notification_title(character: &str) -> (r: String)
    ensures
        r@ == "Shore — "@ + character@,
{
    cat2("Shore — ", character)
}

/// The notification that a conversation was compacted.
pub fn completion_notice(entries: usize, messages: usize) -> (r: String)
    ensures
        r@ == "Compaction complete: "@ + decimal(entries as nat) + " entries from "@ + decimal(
            messages as nat,
        ) + " messages"@,
{
    let e = decimal_text(entries as u64);
    let m = decimal_text(messages as u64);
    cat5("Compaction complete: ", e.as_str(), " entries from ", m.as_str(), " messages")
}

/// How many turns a compaction in the background reports as kept: none where there were no messages, and
/// so no outcome, or where it was only tried out.
pub fn compaction_answer(messages: usize, outcome: Option<&CompactionOutcome>) -> (r: usize)
    ensures
        r == match outcome {
            Some(CompactionOutcome::Compacted(result)) if messages > 0 => result.retained_turns,
            _ => 0,
        },
{
    match outcome {
        Some(CompactionOutcome::Compacted(result)) if messages > 0 => result.retained_turns,
        _ => 0,
    }
}

/// Whether the memory is collated after a compaction.
pub fn collates_after_compaction(enabled: bool, auto_run: bool) -> (r: bool)
    ensures
        r == (enabled && auto_run),
{
    enabled && auto_run
}

/// A conversation file is read line by line: each line that is not blank is a record, trimmed and in order.
pub proof fn records_are_read_line_by_line(a: Seq<Seq<char>>, line: Seq<char>)
    ensures
        trimmed(line).len() == 0 ==> records(a.push(line)) == records(a),
        trimmed(line).len() > 0 ==> records(a.push(line)) == records(a).push(trimmed(line)),
        records(Seq::<Seq<char>>::empty()).len() == 0,
{
    assert(a.push(line).drop_last() =~= a);
}

/// A message of the user that holds anything but tool results is more than tool results, and so is one
/// without structured content or of anyone else.
pub proof fn only_tool_results_are_no_turn(msg: StoredMessage, i: int)
    ensures
        holds_only_tool_results(msg) ==> msg.role@ == "User"@ && msg.content_blocks@.len() > 0,
        0 <= i < msg.content_blocks@.len() && !(msg.content_blocks@[i] is ToolResult)
            ==> !holds_only_tool_results(msg),
        msg.content_blocks@.len() == 1 && msg.content_blocks@[0] is ToolResult && msg.role@ == "User"@
            ==> holds_only_tool_results(msg),
{
}

}
