//! What holds of compaction as a whole: what the model is shown, what stays of a conversation, and what its
//! answer becomes.
use crate::clock::is_utc_text;
use crate::memory::compaction::entries::{
    contents_from, entry_of_block, first_tag_key, tag_contents,
};
use crate::memory::compaction::parser::{close_tag, open_tag, tagged_text_is_read_back};
use crate::memory::compaction::types::{
    CompactedEntryView, CompactionError, ConversationMessage,
};
use crate::memory::compaction::{
    filled_prompt, in_tool_loop, is_plan, is_turn_split, lemma_turns_shrink, prompt_line,
    prompt_lines, turns_from, with_recap, CompactionPlan, CompactionStep,
};
use crate::memory::db::Entry;
use crate::text::compose::option_text;
use crate::text::placeholder::{
    filling_a_placeholder, filling_leaves_other_placeholders, is_placeholder,
};
use crate::text::search::{
    contains, ends_with, lemma_find, lemma_find_is, occurs_at, parts_cleanly, replace_absent_is_identity,
    replace_all, replacing_respects_borders, starts_with, strange_characters_part_cleanly,
    the_middle_is_contained,
};
use crate::text::split::{joined, splitting_joined_restores};
use crate::text::trim::{lowercase, trimmed};
use vstd::prelude::*;
use vstd::string::*;

verus! {

broadcast use vstd::string::group_string_axioms;

proof fn lemma_placeholders()
    ensures
        is_placeholder("{{conversation}}"@),
        is_placeholder("{{#if recap}}"@),
        is_placeholder("{{/if}}"@),
        is_placeholder("{{recap}}"@),
        is_placeholder("{{char}}"@),
        is_placeholder("{{user}}"@),
        "{{#if recap}}"@.len() == 13,
        "{{/if}}"@.len() == 7,
        "{{conversation}}"@.len() == 16,
        "{{recap}}"@.len() == 9,
        "{{char}}"@.len() == 8,
        "{{user}}"@.len() == 8,
{
    reveal_strlit("{{conversation}}");
    reveal_strlit("{{#if recap}}");
    reveal_strlit("{{/if}}");
    reveal_strlit("{{recap}}");
    reveal_strlit("{{char}}");
    reveal_strlit("{{user}}");
}

/// A template around a block for the recap.
pub open spec fn block_template(pre: Seq<char>, block: Seq<char>, post: Seq<char>) -> Seq<char> {
    pre + "{{#if recap}}"@ + block + "{{/if}}"@ + post
}

/// The text with the conversation in place of its placeholder.
pub open spec fn told(text: Seq<char>, messages: Seq<ConversationMessage>) -> Seq<char> {
    replace_all(text, "{{conversation}}"@, prompt_lines(messages))
}

/// The text with the names in place of their placeholders.
pub open spec fn named(text: Seq<char>, char_name: Seq<char>, user_name: Seq<char>) -> Seq<char> {
    replace_all(replace_all(text, "{{char}}"@, char_name), "{{user}}"@, user_name)
}

/// The marks of the block are the first ones, once the conversation is filled in.
pub open spec fn marks_come_first(
    pre: Seq<char>,
    block: Seq<char>,
    post: Seq<char>,
    messages: Seq<ConversationMessage>,
) -> bool {
    let text = block_template(told(pre, messages), told(block, messages), told(post, messages));
    let a = told(pre, messages).len() as int;
    &&& forall|i: int| i < a ==> !#[trigger] occurs_at(text, "{{#if recap}}"@, i)
    &&& forall|i: int|
        i < a + 13 + told(block, messages).len() ==> !#[trigger] occurs_at(text, "{{/if}}"@, i)
}

/// What becomes of the block: its text with the recap where there is one that is not empty, and nothing
/// where there is none.
pub open spec fn block_filled(block: Seq<char>, recap: Option<&str>) -> Seq<char> {
    match recap {
        Some(r) => if r@.len() > 0 {
            replace_all(block, "{{recap}}"@, r@)
        } else {
            Seq::empty()
        },
        None => Seq::empty(),
    }
}

proof fn lemma_block_is_filled(
    pre: Seq<char>,
    block: Seq<char>,
    post: Seq<char>,
    messages: Seq<ConversationMessage>,
    recap: Option<&str>,
)
    requires
        marks_come_first(pre, block, post, messages),
    ensures
        with_recap(told(block_template(pre, block, post), messages), recap) == told(pre, messages)
            + block_filled(told(block, messages), recap) + told(post, messages),
{
    lemma_placeholders();
    let conv = "{{conversation}}"@;
    let lines = prompt_lines(messages);
    let open = "{{#if recap}}"@;
    let close = "{{/if}}"@;
    let p = told(pre, messages);
    let b = told(block, messages);
    let q = told(post, messages);
    reveal_strlit("{{conversation}}");
    reveal_strlit("{{#if recap}}");
    reveal_strlit("{{/if}}");
    assert(open != conv && close != conv);
    filling_leaves_other_placeholders(pre + open + block, close, post, conv, lines);
    filling_leaves_other_placeholders(pre, open, block, conv, lines);
    let text = block_template(p, b, q);
    assert(told(block_template(pre, block, post), messages) == text);
    let a = p.len() as int;
    let e = a + 13 + b.len();
    assert(text.subrange(a, a + 13) =~= open);
    assert(text.subrange(e, e + 7) =~= close);
    lemma_find_is(text, open, 0, a);
    lemma_find_is(text, close, 0, e);
    assert(text.take(a) =~= p);
    assert(text.subrange(a + 13, e) =~= b);
    assert(text.skip(e + 7) =~= q);
    assert(p + Seq::<char>::empty() + q =~= p + q);
}

/// With a block for the recap, the prompt is what stands before the block, what becomes of the block, and
/// what stands behind it, all of it filled in; nothing else is lost or added, whether there is a recap or
/// not. No placeholder for a name may come about across an end of the block.
pub proof fn prompts_keep_what_surrounds_the_recap(
    pre: Seq<char>,
    block: Seq<char>,
    post: Seq<char>,
    messages: Seq<ConversationMessage>,
    recap: Option<&str>,
    char_name: Seq<char>,
    user_name: Seq<char>,
)
    requires
        marks_come_first(pre, block, post, messages),
        ({
            let p = told(pre, messages);
            let m = block_filled(told(block, messages), recap);
            let q = told(post, messages);
            let (pc, mc, qc) = (
                replace_all(p, "{{char}}"@, char_name),
                replace_all(m, "{{char}}"@, char_name),
                replace_all(q, "{{char}}"@, char_name),
            );
            &&& parts_cleanly(p, m + q, "{{char}}"@) && parts_cleanly(m, q, "{{char}}"@)
            &&& parts_cleanly(pc, mc + qc, "{{user}}"@) && parts_cleanly(mc, qc, "{{user}}"@)
        }),
    ensures
        ({
            let prompt = filled_prompt(
                block_template(pre, block, post),
                messages,
                recap,
                char_name,
                user_name,
            );
            let p = named(told(pre, messages), char_name, user_name);
            let m = named(block_filled(told(block, messages), recap), char_name, user_name);
            let q = named(told(post, messages), char_name, user_name);
            &&& prompt == p + m + q
            &&& starts_with(prompt, p)
            &&& ends_with(prompt, q)
        }),
{
    lemma_placeholders();
    lemma_block_is_filled(pre, block, post, messages, recap);
    let p = told(pre, messages);
    let m = block_filled(told(block, messages), recap);
    let q = told(post, messages);
    assert(p + m + q =~= p + (m + q));
    replacing_respects_borders(p, m + q, "{{char}}"@, char_name);
    replacing_respects_borders(m, q, "{{char}}"@, char_name);
    let (pc, mc, qc) = (
        replace_all(p, "{{char}}"@, char_name),
        replace_all(m, "{{char}}"@, char_name),
        replace_all(q, "{{char}}"@, char_name),
    );
    replacing_respects_borders(pc, mc + qc, "{{user}}"@, user_name);
    replacing_respects_borders(mc, qc, "{{user}}"@, user_name);
    let (x, y, z) = (
        named(p, char_name, user_name),
        named(m, char_name, user_name),
        named(q, char_name, user_name),
    );
    let prompt = filled_prompt(block_template(pre, block, post), messages, recap, char_name, user_name);
    assert(x + (y + z) =~= x + y + z);
    assert(prompt == x + y + z);
    assert(prompt.subrange(0, x.len() as int) =~= x);
    assert(prompt.subrange(prompt.len() - z.len(), prompt.len() as int) =~= z);
}

proof fn lemma_lines_shape(messages: Seq<ConversationMessage>)
    requires
        messages.len() > 0,
    ensures
        prompt_lines(messages).len() > 0,
        prompt_lines(messages)[0] == '[',
        prompt_lines(messages).last() == '\n',
    decreases messages.len(),
{
    reveal_strlit("[");
    reveal_strlit("\n");
    let line = prompt_line(messages.last());
    let before = prompt_lines(messages.drop_last());
    assert(line[0] == '[');
    assert(prompt_lines(messages) == before + line);
    if messages.len() == 1 {
        assert(before.len() == 0);
        assert((before + line)[0] == line[0]);
    } else {
        lemma_lines_shape(messages.drop_last());
    }
}

/// Lines hold no placeholder for a name or the recap.
pub open spec fn holds_no_placeholder(lines: Seq<char>) -> bool {
    !contains(lines, "{{char}}"@) && !contains(lines, "{{user}}"@) && !contains(lines, "{{recap}}"@)
}

proof fn lemma_lines_survive(a: Seq<char>, lines: Seq<char>, b: Seq<char>, pat: Seq<char>, to: Seq<char>)
    requires
        lines.len() > 0,
        lines[0] == '[',
        lines.last() == '\n',
        is_placeholder(pat),
        !pat.contains('[') && !pat.contains('\n'),
        !contains(lines, pat),
    ensures
        replace_all(a + lines + b, pat, to) == replace_all(a, pat, to) + lines + replace_all(b, pat, to),
{
    strange_characters_part_cleanly(a, lines + b, pat);
    strange_characters_part_cleanly(lines, b, pat);
    assert(a + lines + b =~= a + (lines + b));
    replacing_respects_borders(a, lines + b, pat, to);
    replacing_respects_borders(lines, b, pat, to);
    replace_absent_is_identity(lines, pat, to);
    assert(replace_all(a, pat, to) + (lines + replace_all(b, pat, to)) =~= replace_all(a, pat, to)
        + lines + replace_all(b, pat, to));
}

proof fn lemma_names_keep_lines(
    a: Seq<char>,
    lines: Seq<char>,
    b: Seq<char>,
    char_name: Seq<char>,
    user_name: Seq<char>,
)
    requires
        lines.len() > 0,
        lines[0] == '[',
        lines.last() == '\n',
        holds_no_placeholder(lines),
    ensures
        contains(named(a + lines + b, char_name, user_name), lines),
{
    lemma_placeholders();
    reveal_strlit("{{char}}");
    reveal_strlit("{{user}}");
    lemma_lines_survive(a, lines, b, "{{char}}"@, char_name);
    let (x, y) = (
        replace_all(a, "{{char}}"@, char_name),
        replace_all(b, "{{char}}"@, char_name),
    );
    lemma_lines_survive(x, lines, y, "{{user}}"@, user_name);
    the_middle_is_contained(
        replace_all(x, "{{user}}"@, user_name),
        lines,
        replace_all(y, "{{user}}"@, user_name),
    );
}

/// The model is shown the conversation: where its placeholder stands before or behind the block for the
/// recap, the prompt holds the messages, with a recap just as without one and whatever the names are.
pub proof fn prompts_hold_the_conversation(
    pre: Seq<char>,
    block: Seq<char>,
    post: Seq<char>,
    messages: Seq<ConversationMessage>,
    recap: Option<&str>,
    char_name: Seq<char>,
    user_name: Seq<char>,
)
    requires
        messages.len() > 0,
        marks_come_first(pre, block, post, messages),
        contains(pre, "{{conversation}}"@) || contains(post, "{{conversation}}"@),
        holds_no_placeholder(prompt_lines(messages)),
    ensures
        contains(
            filled_prompt(block_template(pre, block, post), messages, recap, char_name, user_name),
            prompt_lines(messages),
        ),
{
    lemma_placeholders();
    lemma_block_is_filled(pre, block, post, messages, recap);
    lemma_lines_shape(messages);
    let conv = "{{conversation}}"@;
    let lines = prompt_lines(messages);
    let p = told(pre, messages);
    let m = block_filled(told(block, messages), recap);
    let q = told(post, messages);
    if contains(post, conv) {
        let i = choose|i: int| #[trigger] occurs_at(post, conv, i);
        let (u, v) = (post.take(i), post.skip(i + 16));
        assert(post =~= u + conv + v);
        filling_a_placeholder(u, v, conv, lines);
        let x = p + m + told(u, messages);
        assert(p + m + q =~= x + lines + told(v, messages));
        lemma_names_keep_lines(x, lines, told(v, messages), char_name, user_name);
    } else {
        let i = choose|i: int| #[trigger] occurs_at(pre, conv, i);
        let (u, v) = (pre.take(i), pre.skip(i + 16));
        assert(pre =~= u + conv + v);
        filling_a_placeholder(u, v, conv, lines);
        let y = told(v, messages) + m + q;
        assert(p + m + q =~= told(u, messages) + lines + y);
        lemma_names_keep_lines(told(u, messages), lines, y, char_name, user_name);
    }
}

/// The same holds of a template without a block for the recap.
pub proof fn plain_prompts_hold_the_conversation(
    template: Seq<char>,
    messages: Seq<ConversationMessage>,
    recap: Option<&str>,
    char_name: Seq<char>,
    user_name: Seq<char>,
)
    requires
        messages.len() > 0,
        !contains(told(template, messages), "{{#if recap}}"@) || !contains(
            told(template, messages),
            "{{/if}}"@,
        ),
        contains(template, "{{conversation}}"@),
        holds_no_placeholder(prompt_lines(messages)),
    ensures
        contains(
            filled_prompt(template, messages, recap, char_name, user_name),
            prompt_lines(messages),
        ),
{
    lemma_placeholders();
    lemma_lines_shape(messages);
    reveal_strlit("{{recap}}");
    let conv = "{{conversation}}"@;
    let lines = prompt_lines(messages);
    let text = told(template, messages);
    lemma_find(text, "{{#if recap}}"@);
    lemma_find(text, "{{/if}}"@);
    let i = choose|i: int| #[trigger] occurs_at(template, conv, i);
    let (u, v) = (template.take(i), template.skip(i + 16));
    assert(template =~= u + conv + v);
    filling_a_placeholder(u, v, conv, lines);
    let (x, y) = (told(u, messages), told(v, messages));
    match recap {
        Some(r) => {
            lemma_lines_survive(x, lines, y, "{{recap}}"@, r@);
            lemma_names_keep_lines(
                replace_all(x, "{{recap}}"@, r@),
                lines,
                replace_all(y, "{{recap}}"@, r@),
                char_name,
                user_name,
            );
        },
        None => {
            lemma_names_keep_lines(x, lines, y, char_name, user_name);
        },
    }
}

/// The recap reaches the model: where its placeholder stands in the block, the block is filled with it.
pub proof fn blocks_hold_the_recap(block: Seq<char>, recap: &str)
    requires
        recap@.len() > 0,
        contains(block, "{{recap}}"@),
    ensures
        contains(block_filled(block, Some(recap)), recap@),
{
    lemma_placeholders();
    let pat = "{{recap}}"@;
    let i = choose|i: int| #[trigger] occurs_at(block, pat, i);
    let (u, v) = (block.take(i), block.skip(i + 9));
    assert(block =~= u + pat + v);
    filling_a_placeholder(u, v, pat, recap@);
    the_middle_is_contained(replace_all(u, pat, recap@), recap@, replace_all(v, pat, recap@));
}

/// The messages stand in the prompt one after the other, each on its line with its time, role and text.
pub proof fn lines_hold_each_message(messages: Seq<ConversationMessage>, i: int)
    requires
        0 <= i < messages.len(),
    ensures
        ({
            let m = messages[i];
            prompt_lines(messages) == prompt_lines(messages.take(i)) + ("["@ + m.timestamp@ + "] "@
                + m.role@ + ": "@ + m.content@ + "\n"@) + prompt_lines(messages.skip(i + 1))
        }),
    decreases messages.len(),
{
    let m = messages[i];
    let line = "["@ + m.timestamp@ + "] "@ + m.role@ + ": "@ + m.content@ + "\n"@;
    let t = messages.drop_last();
    if i == messages.len() - 1 {
        assert(messages.take(i) =~= t);
        assert(messages.skip(i + 1) =~= Seq::<ConversationMessage>::empty());
        assert(prompt_lines(t) + line + Seq::<char>::empty() =~= prompt_lines(t) + line);
    } else {
        lines_hold_each_message(t, i);
        assert(t.take(i) =~= messages.take(i));
        assert(messages.skip(i + 1).drop_last() =~= t.skip(i + 1));
        let (a, b) = (prompt_lines(t.take(i)), prompt_lines(t.skip(i + 1)));
        let last = prompt_lines(messages.skip(i + 1));
        assert(last =~= b + prompt_line(messages.last()));
        assert(a + line + last =~= (a + line + b) + prompt_line(
            messages.last(),
        ));
    }
}

/// The messages with which the user takes a turn: those of the user that hold more than tool results.
pub open spec fn user_turns(messages: Seq<ConversationMessage>) -> Seq<ConversationMessage> {
    messages.filter(|m: ConversationMessage| m.role@ == "user"@ && !m.is_tool_result_only)
}

proof fn lemma_turns_are_user_turns(messages: Seq<ConversationMessage>, i: int)
    requires
        0 <= i <= messages.len(),
    ensures
        turns_from(messages, i) == user_turns(messages.skip(i)).len(),
    decreases messages.len() - i,
{
    let pred = |m: ConversationMessage| m.role@ == "user"@ && !m.is_tool_result_only;
    reveal(Seq::filter);
    if i < messages.len() {
        lemma_turns_are_user_turns(messages, i + 1);
        let (one, rest) = (seq![messages[i]], messages.skip(i + 1));
        assert(messages.skip(i) =~= one + rest);
        Seq::filter_distributes_over_add(one, rest, pred);
        assert(one.drop_last() =~= Seq::<ConversationMessage>::empty());
        assert(one.drop_last().filter(pred) =~= Seq::<ConversationMessage>::empty());
        assert(one.last() == messages[i]);
        assert(one.filter(pred).len() == if pred(messages[i]) { 1nat } else { 0nat });
    } else {
        assert(messages.skip(i) =~= Seq::<ConversationMessage>::empty());
    }
}

/// What stays of a conversation holds as many turns of the user as are to be kept, and it begins with one;
/// where there are fewer turns nothing is split off, and where none is to be kept nothing stays.
pub proof fn the_turns_to_keep_stay(
    messages: Seq<ConversationMessage>,
    keep_turns: usize,
    split: int,
)
    requires
        is_turn_split(messages, keep_turns, split),
    ensures
        0 <= split <= messages.len(),
        user_turns(messages).len() >= keep_turns ==> user_turns(messages.skip(split)).len()
            == keep_turns,
        user_turns(messages).len() < keep_turns ==> split == 0,
        keep_turns == 0 ==> split == messages.len(),
        keep_turns > 0 && user_turns(messages).len() >= keep_turns ==> split < messages.len()
            && messages[split].role@ == "user"@ && !messages[split].is_tool_result_only,
{
    lemma_turns_are_user_turns(messages, 0);
    assert(messages.skip(0) =~= messages);
    reveal(Seq::filter);
    if keep_turns == 0 {
        assert(messages.skip(split) =~= Seq::<ConversationMessage>::empty());
    } else {
        lemma_turns_are_user_turns(messages, split);
        lemma_turns_shrink(messages, 0, split);
    }
}

/// The entries that are stored are those the model extracted, in order, each with its own text, tags, key,
/// type and confidence, dated by the first and the last message that was compacted.
pub proof fn stored_entries_are_the_extracted_ones(
    plan: CompactionPlan,
    entries: Seq<Entry>,
    compacted: Seq<CompactedEntryView>,
    k: int,
)
    requires
        plan.are_new_entries(entries, compacted),
        0 <= k < compacted.len(),
    ensures
        entries.len() == compacted.len(),
        entries[k].summary_text@ == compacted[k].summary_text,
        entries[k].topic_tags@ == compacted[k].topic_tags,
        entries[k].topic_key@ == compacted[k].topic_key,
        entries[k].memory_type@ == compacted[k].memory_type,
        entries[k].confidence_bits == compacted[k].confidence_bits,
        entries[k].start_timestamp@ == plan.start_timestamp@,
        entries[k].end_timestamp@ == plan.end_timestamp@,
        entries[k].message_count == plan.split_at as i64,
        entries[k].status@ == "active"@,
        entries[k].source@ == "summary"@,
        entries[k].reason@ == "compaction"@,
        entries[k].created_at@ == entries[k].updated_at@,
        entries[k].created_at@ == entries[0].created_at@,
        entries[k].superseded_by@.len() == 0,
        entries[k].collated_at@.len() == 0,
        entries[k].source_entry_ids@.len() == 0,
        entries[k].image_path@.len() == 0,
{
    let now = choose|now: Seq<char>|
        is_utc_text(now) && #[trigger] plan.entries_are(entries, compacted, now);
    assert(plan.is_entry(entries[k], compacted[k], k, now));
    assert(plan.is_entry(entries[0], compacted[0], 0, now));
    assert(entries[k]@.summary_text == entries[k].summary_text@);
}

/// Blocks as the model is asked to write them, one after the other.
pub open spec fn written_blocks(blocks: Seq<Seq<char>>) -> Seq<char>
    decreases blocks.len(),
{
    if blocks.len() == 0 {
        Seq::empty()
    } else {
        written_blocks(blocks.drop_last()) + ("<entry>"@ + blocks.last() + "</entry>"@)
    }
}

/// A block that its written form can carry.
pub open spec fn is_block(b: Seq<char>) -> bool {
    b.len() > 0 && trimmed(b) == b && !contains(b, "</entry>"@)
}

proof fn lemma_written_at(blocks: Seq<Seq<char>>, k: int)
    requires
        0 <= k < blocks.len(),
    ensures
        ({
            let s = written_blocks(blocks);
            let at = written_blocks(blocks.take(k)).len() as int;
            let w = "<entry>"@ + blocks[k] + "</entry>"@;
            &&& occurs_at(s, w, at)
            &&& written_blocks(blocks.take(k + 1)).len() == at + w.len()
        }),
    decreases blocks.len(),
{
    let s = written_blocks(blocks);
    let t = blocks.drop_last();
    let w = "<entry>"@ + blocks[k] + "</entry>"@;
    assert(blocks.take(k + 1).drop_last() =~= blocks.take(k));
    if k == blocks.len() - 1 {
        assert(blocks.take(k) =~= t);
        let at = written_blocks(t).len() as int;
        assert(s.subrange(at, at + w.len()) =~= w);
    } else {
        lemma_written_at(t, k);
        assert(t.take(k) =~= blocks.take(k));
        assert(t.take(k + 1) =~= blocks.take(k + 1));
        let at = written_blocks(blocks.take(k)).len() as int;
        assert(s.subrange(at, at + w.len()) =~= written_blocks(t).subrange(at, at + w.len()));
    }
}

proof fn lemma_block_at(s: Seq<char>, b: Seq<char>, at: int)
    requires
        is_block(b),
        occurs_at(s, "<entry>"@ + b + "</entry>"@, at),
    ensures
        contents_from(s, "<entry>"@, "</entry>"@, at) == seq![b] + contents_from(
            s,
            "<entry>"@,
            "</entry>"@,
            at + 15 + b.len(),
        ),
{
    reveal_strlit("<entry>");
    reveal_strlit("</entry>");
    let (open, close) = ("<entry>"@, "</entry>"@);
    let w = open + b + close;
    let n = b.len() as int;
    assert forall|k: int| 0 <= k < w.len() implies #[trigger] s[at + k] == w[k] by {
        assert(s.subrange(at, at + w.len())[k] == s[at + k]);
    }
    assert(s.subrange(at, at + 7) =~= open) by {
        assert forall|k: int| 0 <= k < 7 implies s.subrange(at, at + 7)[k] == open[k] by {
            assert(s[at + k] == w[k]);
        }
    }
    let e = at + 7 + n;
    assert(s.subrange(at + 7, e) =~= b) by {
        assert forall|k: int| 0 <= k < n implies s.subrange(at + 7, e)[k] == b[k] by {
            assert(s[at + (7 + k)] == w[7 + k]);
        }
    }
    assert(s.subrange(e, e + 8) =~= close) by {
        assert forall|k: int| 0 <= k < 8 implies s.subrange(e, e + 8)[k] == close[k] by {
            assert(s[at + (7 + n + k)] == w[7 + n + k]);
        }
    }
    lemma_find_is(s, open, at, at);
    assert forall|j: int| at + 7 <= j < e implies !#[trigger] occurs_at(s, close, j) by {
        if occurs_at(s, close, j) {
            if j + 8 <= e {
                assert(b.subrange(j - at - 7, j - at + 1) =~= s.subrange(j, j + 8));
                assert(occurs_at(b, close, j - at - 7));
            } else {
                assert(s.subrange(j, j + 8)[e - j] == s[e]);
                assert(s[e] == s.subrange(e, e + 8)[0]);
            }
        }
    }
    lemma_find_is(s, close, at + 7, e);
}

proof fn lemma_blocks_from(blocks: Seq<Seq<char>>, k: int)
    requires
        0 <= k <= blocks.len(),
        forall|i: int| 0 <= i < blocks.len() ==> is_block(#[trigger] blocks[i]),
    ensures
        contents_from(
            written_blocks(blocks),
            "<entry>"@,
            "</entry>"@,
            written_blocks(blocks.take(k)).len() as int,
        ) == blocks.skip(k),
    decreases blocks.len() - k,
{
    reveal_strlit("<entry>");
    reveal_strlit("</entry>");
    let s = written_blocks(blocks);
    let at = written_blocks(blocks.take(k)).len() as int;
    if k < blocks.len() {
        lemma_written_at(blocks, k);
        assert(is_block(blocks[k]));
        lemma_block_at(s, blocks[k], at);
        lemma_blocks_from(blocks, k + 1);
        assert(blocks.skip(k) =~= seq![blocks[k]] + blocks.skip(k + 1));
    } else {
        assert(blocks.take(k) =~= blocks);
        assert(blocks.skip(k) =~= Seq::<Seq<char>>::empty());
    }
}

/// The blocks that a model writes are read back, all of them and in order.
pub proof fn written_blocks_are_read_back(blocks: Seq<Seq<char>>)
    requires
        forall|i: int| 0 <= i < blocks.len() ==> is_block(#[trigger] blocks[i]),
    ensures
        tag_contents(written_blocks(blocks), "entry"@) == blocks,
{
    reveal_strlit("<");
    reveal_strlit(">");
    reveal_strlit("</");
    reveal_strlit("entry");
    reveal_strlit("<entry>");
    reveal_strlit("</entry>");
    assert("<"@ + "entry"@ + ">"@ =~= "<entry>"@);
    assert("</"@ + "entry"@ + ">"@ =~= "</entry>"@);
    lemma_blocks_from(blocks, 0);
    assert(blocks.take(0) =~= Seq::<Seq<char>>::empty());
    assert(blocks.skip(0) =~= blocks);
}

/// A tag around a text.
pub open spec fn tagged(tag: Seq<char>, text: Seq<char>) -> Seq<char> {
    "<"@ + tag + ">"@ + text + ("</"@ + tag + ">"@)
}

/// What a block says is what the entry holds: its text, its tags and its type; a block that does not say of
/// which type it is counts as an episode.
pub proof fn entries_hold_what_their_block_says(
    summary: Seq<char>,
    tags: Seq<char>,
    kind: Seq<char>,
)
    requires
        summary.len() > 0 && trimmed(summary) == summary && !summary.contains('<'),
        tags.len() > 0 && trimmed(tags) == tags && !tags.contains('<'),
        kind.len() > 0 && trimmed(kind) == kind && !kind.contains('<'),
    ensures
        ({
            let e = entry_of_block(
                tagged("summary"@, summary) + tagged("topic_tags"@, tags) + tagged(
                    "memory_type"@,
                    kind,
                ),
            );
            &&& e.summary_text == summary
            &&& e.topic_tags == tags
            &&& e.memory_type == kind
            &&& e.topic_key == first_tag_key(tags)
            &&& e.confidence_bits == 0x3FEC_CCCC_CCCC_CCCD
        }),
{
    reveal_strlit("summary");
    reveal_strlit("topic_tags");
    reveal_strlit("memory_type");
    let (a, b, c) = (
        tagged("summary"@, summary),
        tagged("topic_tags"@, tags),
        tagged("memory_type"@, kind),
    );
    let e = Seq::<char>::empty();
    let block = a + b + c;
    lemma_plain_body(summary, "summary"@);
    lemma_plain_body(tags, "topic_tags"@);
    lemma_plain_body(kind, "memory_type"@);
    assert(!contains(e, open_tag("summary"@))) by {
        lemma_tag_not_short(e, "summary"@);
    }
    tagged_text_is_read_back(e, "summary"@, summary, b + c);
    assert(e + open_tag("summary"@) + summary + close_tag("summary"@) + (b + c) =~= block);
    lemma_tagged_holds_no_tag(summary, "summary"@, "topic_tags"@);
    tagged_text_is_read_back(a, "topic_tags"@, tags, c);
    assert(a + open_tag("topic_tags"@) + tags + close_tag("topic_tags"@) + c =~= block);
    lemma_two_tagged_hold_no_tag(summary, "summary"@, tags, "topic_tags"@, "memory_type"@);
    tagged_text_is_read_back(a + b, "memory_type"@, kind, e);
    assert((a + b) + open_tag("memory_type"@) + kind + close_tag("memory_type"@) + e =~= block);
}

proof fn lemma_tag_not_short(s: Seq<char>, tag: Seq<char>)
    requires
        s.len() < tag.len(),
    ensures
        !contains(s, open_tag(tag)),
{
}

proof fn lemma_plain_body(text: Seq<char>, tag: Seq<char>)
    requires
        !text.contains('<'),
    ensures
        !contains(text, close_tag(tag)),
{
    reveal_strlit("</");
    if contains(text, close_tag(tag)) {
        let i = choose|i: int| #[trigger] occurs_at(text, close_tag(tag), i);
        assert(text.subrange(i, i + close_tag(tag).len())[0] == text[i]);
    }
}

/// Where `<other>` could stand in a tagged text: only at its two tags, which are different ones.
proof fn lemma_tagged_holds_no_tag(text: Seq<char>, tag: Seq<char>, other: Seq<char>)
    requires
        !text.contains('<'),
        !tag.contains('<'),
        tag.len() > 0 && other.len() > 0,
        tag[0] != other[0],
        other[0] != '/',
    ensures
        !contains(tagged(tag, text), open_tag(other)),
{
    reveal_strlit("<");
    reveal_strlit("</");
    reveal_strlit(">");
    let s = tagged(tag, text);
    let o = open_tag(other);
    if contains(s, o) {
        let i = choose|i: int| #[trigger] occurs_at(s, o, i);
        let w = s.subrange(i, i + o.len());
        assert(o[0] == '<' && o[1] == other[0]);
        assert(w[0] == s[i]);
        assert(w[1] == s[i + 1]);
        lemma_tag_places(text, tag, i);
    }
}

proof fn lemma_tag_places(text: Seq<char>, tag: Seq<char>, i: int)
    requires
        !text.contains('<'),
        !tag.contains('<'),
        tag.len() > 0,
        0 <= i < tagged(tag, text).len(),
        tagged(tag, text)[i] == '<',
    ensures
        i == 0 && tagged(tag, text)[1] == tag[0] || i == tag.len() + 2 + text.len() && tagged(
            tag,
            text,
        )[i + 1] == '/',
{
    reveal_strlit("<");
    reveal_strlit("</");
    reveal_strlit(">");
    let s = tagged(tag, text);
    let (n, m) = (tag.len() as int, text.len() as int);
    if 1 <= i <= n {
        assert(s[i] == tag[i - 1]);
    } else if n + 2 <= i < n + 2 + m {
        assert(s[i] == text[i - n - 2]);
    } else if i >= n + 4 + m && i < 2 * n + 4 + m {
        assert(s[i] == tag[i - n - 4 - m]);
    }
}

proof fn lemma_two_tagged_hold_no_tag(
    x: Seq<char>,
    tag: Seq<char>,
    y: Seq<char>,
    tag2: Seq<char>,
    other: Seq<char>,
)
    requires
        !x.contains('<') && !y.contains('<'),
        !tag.contains('<') && !tag2.contains('<'),
        tag.len() > 0 && tag2.len() > 0 && other.len() > 0,
        tag[0] != other[0] && tag2[0] != other[0] && other[0] != '/',
    ensures
        !contains(tagged(tag, x) + tagged(tag2, y), open_tag(other)),
{
    reveal_strlit("<");
    reveal_strlit("</");
    reveal_strlit(">");
    let (a, b) = (tagged(tag, x), tagged(tag2, y));
    let o = open_tag(other);
    if contains(a + b, o) {
        let i = choose|i: int| #[trigger] occurs_at(a + b, o, i);
        let w = (a + b).subrange(i, i + o.len());
        assert(o[0] == '<' && o[1] == other[0]);
        assert(w[0] == (a + b)[i]);
        assert(w[1] == (a + b)[i + 1]);
        if i < a.len() {
            lemma_tag_places(x, tag, i);
            assert(a[i + 1] == (a + b)[i + 1]);
        } else {
            lemma_tag_places(y, tag2, i - a.len());
            assert(b[i - a.len() + 1] == (a + b)[i + 1]);
        }
    }
}

/// The topic key depends on the first tag alone, and holds no blank.
pub proof fn keys_follow_the_first_tag(tag: Seq<char>, rest: Seq<Seq<char>>)
    requires
        !tag.contains(','),
        forall|i: int| 0 <= i < rest.len() ==> !(#[trigger] rest[i]).contains(','),
    ensures
        first_tag_key(joined(seq![tag] + rest, seq![','])) == first_tag_key(tag),
        !contains(lowercase(trimmed(tag)), " "@) ==> first_tag_key(tag) == lowercase(trimmed(tag)),
{
    reveal_strlit(" ");
    let all = seq![tag] + rest;
    assert forall|i: int| 0 <= i < all.len() implies !(#[trigger] all[i]).contains(',') by {
        if i > 0 {
            assert(all[i] == rest[i - 1]);
        }
    }
    splitting_joined_restores(all, ',');
    splitting_joined_restores(seq![tag], ',');
    if !contains(lowercase(trimmed(tag)), " "@) {
        replace_absent_is_identity(lowercase(trimmed(tag)), " "@, "_"@);
    }
}

/// A plan compacts the older part of a conversation: what stays holds the turns to keep, what goes is dated by
/// its first and its last message, and together they are all messages.
pub proof fn plans_compact_the_older_part(
    messages: Seq<ConversationMessage>,
    keep_turns: usize,
    is_private: bool,
    template: Seq<char>,
    recap: Option<&str>,
    char_name: Seq<char>,
    user_name: Seq<char>,
    plan: CompactionPlan,
)
    requires
        is_plan(
            messages,
            keep_turns,
            is_private,
            template,
            recap,
            char_name,
            user_name,
            Ok(plan),
        ),
    ensures
        !is_private,
        0 < plan.split_at <= messages.len(),
        plan.split_at + plan.retained == messages.len(),
        plan.retained_turns == keep_turns,
        user_turns(messages.skip(plan.split_at as int)).len() == keep_turns,
        keep_turns > 0 ==> messages[plan.split_at as int].role@ == "user"@,
        plan.start_timestamp@ == messages.first().timestamp@,
        plan.end_timestamp@ == messages.take(plan.split_at as int).last().timestamp@,
{
    let split = plan.split_at as int;
    the_turns_to_keep_stay(messages, keep_turns, split);
    lemma_turns_are_user_turns(messages, 0);
    lemma_turns_are_user_turns(messages, split);
    assert(messages.skip(0) =~= messages);
    lemma_turns_shrink(messages, 0, split);
}

/// The model is asked about what is compacted and not about what stays: the same older part gives the same
/// prompt, whatever comes after it.
pub proof fn what_stays_is_not_shown(
    a: Seq<ConversationMessage>,
    b: Seq<ConversationMessage>,
    keep_turns: usize,
    template: Seq<char>,
    recap: Option<&str>,
    char_name: Seq<char>,
    user_name: Seq<char>,
    p: CompactionPlan,
    q: CompactionPlan,
)
    requires
        is_plan(a, keep_turns, false, template, recap, char_name, user_name, Ok(p)),
        is_plan(b, keep_turns, false, template, recap, char_name, user_name, Ok(q)),
        a.take(p.split_at as int) == b.take(q.split_at as int),
    ensures
        p.prompt@ == q.prompt@,
        p.start_timestamp@ == q.start_timestamp@,
        p.end_timestamp@ == q.end_timestamp@,
{
    let (x, y) = (a.take(p.split_at as int), b.take(q.split_at as int));
    assert(x.len() == y.len());
    assert(x[0] == a[0] && y[0] == b[0]);
    assert(x[x.len() - 1] == a[p.split_at - 1] && y[y.len() - 1] == b[q.split_at - 1]);
}

/// The conversation that is compacted is in the prompt, where the template has a place for it outside the
/// block for the recap.
pub proof fn plans_show_what_is_compacted(
    pre: Seq<char>,
    block: Seq<char>,
    post: Seq<char>,
    messages: Seq<ConversationMessage>,
    keep_turns: usize,
    recap: Option<&str>,
    char_name: Seq<char>,
    user_name: Seq<char>,
    plan: CompactionPlan,
)
    requires
        is_plan(
            messages,
            keep_turns,
            false,
            block_template(pre, block, post),
            recap,
            char_name,
            user_name,
            Ok(plan),
        ),
        marks_come_first(pre, block, post, messages.take(plan.split_at as int)),
        contains(pre, "{{conversation}}"@) || contains(post, "{{conversation}}"@),
        holds_no_placeholder(prompt_lines(messages.take(plan.split_at as int))),
    ensures
        contains(plan.prompt@, prompt_lines(messages.take(plan.split_at as int))),
{
    prompts_hold_the_conversation(
        pre,
        block,
        post,
        messages.take(plan.split_at as int),
        recap,
        char_name,
        user_name,
    );
}

/// A private conversation is never compacted; another one is where it has more turns than are to be kept, and
/// is not where it has fewer.
pub proof fn compaction_is_refused_where_it_must_be(
    messages: Seq<ConversationMessage>,
    keep_turns: usize,
    is_private: bool,
    template: Seq<char>,
    recap: Option<&str>,
    char_name: Seq<char>,
    user_name: Seq<char>,
    r: Result<CompactionPlan, CompactionError>,
)
    requires
        is_plan(messages, keep_turns, is_private, template, recap, char_name, user_name, r),
    ensures
        is_private ==> r is Err && r->Err_0 is PrivateConversation,
        !is_private && user_turns(messages).len() > keep_turns ==> r is Ok,
        !is_private && user_turns(messages).len() < keep_turns ==> r is Err && r->Err_0
            is InsufficientMessages,
        !is_private && messages.len() == 0 ==> r is Err && r->Err_0 is InsufficientMessages,
        !is_private && keep_turns == 0 && messages.len() > 0 ==> r is Ok,
{
    lemma_turns_are_user_turns(messages, 0);
    assert(messages.skip(0) =~= messages);
    if r is Ok {
        the_turns_to_keep_stay(messages, keep_turns, r->Ok_0.split_at as int);
    }
}

/// A trial run only reports what it would do; otherwise everything that was found is stored, with the recap.
pub proof fn trial_runs_store_nothing(
    plan: CompactionPlan,
    step: CompactionStep,
    found: Seq<CompactedEntryView>,
    recap: Option<Seq<char>>,
    dry_run: bool,
)
    requires
        plan.is_step(step, found, recap, dry_run),
    ensures
        dry_run ==> step is DryRun && step->DryRun_0.would_create_entries == found.len()
            && step->DryRun_0.message_count == plan.split_at && step->DryRun_0.retained_count
            == plan.retained && option_text(step->DryRun_0.recap_preview) == recap,
        !dry_run ==> step is Store && step->entries@.len() == found.len() && option_text(step->recap)
            == recap,
{
    if !dry_run {
        let now = choose|now: Seq<char>|
            is_utc_text(now) && #[trigger] plan.entries_are(step->entries@, found, now);
    }
}

/// Part of a tool loop are the user messages of nothing but tool results and the assistant messages without
/// text, and no others.
pub proof fn tool_loops_hold_no_words(msg: ConversationMessage)
    ensures
        msg.role@ == "user"@ ==> in_tool_loop(msg) == msg.is_tool_result_only,
        msg.role@ == "assistant"@ ==> in_tool_loop(msg) == (msg.content@.len() == 0),
        msg.role@ != "user"@ && msg.role@ != "assistant"@ ==> !in_tool_loop(msg),
{
    reveal_strlit("user");
    reveal_strlit("assistant");
    assert("user"@.len() != "assistant"@.len());
}

}
