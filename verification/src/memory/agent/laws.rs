//! What holds of the memory agent as a whole: which tools change the memory, who is asked, what is
//! recorded, and what the tools make of their arguments.
use crate::memory::agent::prompt::{is_system_prompt, rendered};
use crate::memory::agent::tool_handlers::{
    agent_entry, changed_entry, changes_something, failure_prefix, fts_query, is_search_term, key_chars,
    search_terms, tags_of, tool_name, topic_key, wanted_results, Tool, ToolFailure, FTS_OPERATORS,
    QUERY_LIMIT, SEARCH_LIMIT,
};
use crate::memory::agent::tool_loop::{
    accepted, answer_step, are_proposals, cut, is_denied_id, mutation_text, read_calls, read_results,
    results_view, signed_decimal, successes, turn_step, write_calls, write_results, AgentLoop,
    LoopStep, ToolTurn, TurnEnd, DENIED_MESSAGE,
};
use crate::memory::agent::tool_schemas::{is_write_name, tool_table};
use crate::memory::agent::types::{
    calls_view, CallerIdentity, ProposedOperation, ToolCall, ToolCallView, ToolInputView,
};
use crate::memory::agent::{found_entries, resolved, MemoryAgent, RagHit};
use crate::memory::agent_llm::{
    text_blocks, tool_uses, AgentLlmResponse, AgentMessage, ContentBlock,
};
use crate::memory::collation_impls::{can_truncate, cut_texts_lose_their_end, truncated};
use crate::memory::db::{Entry, EntryView};
use crate::text::chars::is_alnum;
use crate::text::compose::byte_len;
use crate::text::number::{decimal, decimal_reads_back, numeral_value};
use crate::text::placeholder::{filling_a_placeholder, filling_leaves_other_placeholders, is_placeholder};
use crate::text::search::{
    containing_survives_framing, contains, ends_with, occurs_at, replace_absent_is_identity, replace_all,
    starts_with, the_middle_is_contained,
};
use crate::text::split::{
    joined, lemma_joined_push, lemma_one_word, lemma_words_add, splitting_joined_restores, texts, words,
};
use crate::text::trim::{lowercase, trimmed, uppercase, CharClass};
use crate::text::word::{
    holds_word, replace_words, replacing_absent_words_is_identity, replacing_the_only_word, word_at,
};
use vstd::prelude::*;
use vstd::string::*;

verus! {

broadcast use vstd::string::group_string_axioms;

/// The tool only looks things up.
pub open spec fn only_reads(tool: Tool) -> bool {
    tool == Tool::SearchEntries || tool == Tool::SemanticSearch || tool == Tool::QueryDb
}

/// The names of the tools.
pub proof fn tools_go_by_their_names()
    ensures
        tool_name(Tool::SearchEntries) == "search_entries"@,
        tool_name(Tool::SemanticSearch) == "semantic_search"@,
        tool_name(Tool::QueryDb) == "query_db"@,
        tool_name(Tool::CreateEntry) == "create_entry"@,
        tool_name(Tool::UpdateEntry) == "update_entry"@,
        tool_name(Tool::SupersedeEntry) == "supersede_entry"@,
        tool_name(Tool::UpdateEntity) == "update_entity"@,
        tool_name(Tool::MergeEntity) == "merge_entity"@,
        tool_name(Tool::ResolveFlag) == "resolve_flag"@,
        tool_name(Tool::CreateFlag) == "create_flag"@,
        forall|a: Tool, b: Tool| #[trigger] tool_name(a) == #[trigger] tool_name(b) ==> a == b,
{
    reveal_names();
    assert forall|a: Tool, b: Tool| #[trigger] tool_name(a) == #[trigger] tool_name(b) implies a == b by {
        assert(tool_name(a).len() == tool_name(b).len());
        if a != b {
            assert(tool_name(a)[0] == tool_name(b)[0]);
            assert(tool_name(a).last() == tool_name(b).last());
            assert(tool_name(a)[9] == tool_name(b)[9]);
        }
    }
}

proof fn reveal_names()
    ensures
        "search_entries"@.len() == 14,
        "semantic_search"@.len() == 15,
        "query_db"@.len() == 8,
        "create_entry"@.len() == 12 && "create_entry"@[0] == 'c' && "create_entry"@.last() == 'y',
        "update_entry"@.len() == 12 && "update_entry"@[0] == 'u' && "update_entry"@.last() == 'y',
        "supersede_entry"@.len() == 15 && "supersede_entry"@.last() == 'y',
        "semantic_search"@.last() == 'h',
        "update_entity"@.len() == 13,
        "merge_entity"@.len() == 12 && "merge_entity"@[0] == 'm',
        "resolve_flag"@.len() == 12 && "resolve_flag"@[0] == 'r',
        "create_flag"@.len() == 11,
{
    reveal_strlit("search_entries");
    reveal_strlit("semantic_search");
    reveal_strlit("query_db");
    reveal_strlit("create_entry");
    reveal_strlit("update_entry");
    reveal_strlit("supersede_entry");
    reveal_strlit("update_entity");
    reveal_strlit("merge_entity");
    reveal_strlit("resolve_flag");
    reveal_strlit("create_flag");
}

/// Exactly the tools that change the memory count as writes: every tool but the two searches and the
/// query; and no other name does.
pub proof fn exactly_the_changing_tools_are_writes(name: Seq<char>)
    ensures
        forall|t: Tool| is_write_name(#[trigger] tool_name(t)) == !only_reads(t),
        is_write_name(name) == exists|t: Tool| #[trigger] tool_name(t) == name && !only_reads(t),
        forall|i: int|
            0 <= i < tool_table().len() ==> is_write_name((#[trigger] tool_table()[i]).name) == (
            tool_table()[i].name != "search_entries"@ && tool_table()[i].name != "semantic_search"@
                && tool_table()[i].name != "query_db"@),
{
    reveal_names();
    tools_go_by_their_names();
    assert forall|t: Tool| is_write_name(#[trigger] tool_name(t)) == !only_reads(t) by {
        match t {
            Tool::SearchEntries => {},
            Tool::SemanticSearch => {},
            Tool::QueryDb => {},
            _ => {},
        }
    }
    if is_write_name(name) {
        let t = if name == "create_entry"@ {
            Tool::CreateEntry
        } else if name == "update_entry"@ {
            Tool::UpdateEntry
        } else if name == "supersede_entry"@ {
            Tool::SupersedeEntry
        } else if name == "update_entity"@ {
            Tool::UpdateEntity
        } else if name == "merge_entity"@ {
            Tool::MergeEntity
        } else if name == "resolve_flag"@ {
            Tool::ResolveFlag
        } else {
            Tool::CreateFlag
        };
        assert(tool_name(t) == name);
    }
    let table = tool_table();
    assert forall|i: int| 0 <= i < table.len() implies is_write_name((#[trigger] table[i]).name) == (
    table[i].name != "search_entries"@ && table[i].name != "semantic_search"@ && table[i].name
        != "query_db"@) by {
        assert(table.len() == 9);
        assert(table[0].name == "search_entries"@);
        assert(table[1].name == "query_db"@);
        assert(table[2].name == "update_entry"@);
        assert(table[3].name == "supersede_entry"@);
        assert(table[4].name == "create_entry"@);
        assert(table[5].name == "update_entity"@);
        assert(table[6].name == "merge_entity"@);
        assert(table[7].name == "resolve_flag"@);
        assert(table[8].name == "create_flag"@);
    }
}

/// The model is offered every tool but the search by meaning, each once.
pub proof fn every_tool_is_offered_once(t: Tool)
    requires
        t != Tool::SemanticSearch,
    ensures
        exists|i: int| 0 <= i < tool_table().len() && (#[trigger] tool_table()[i]).name == tool_name(t),
        tool_table().len() == 9,
{
    let table = tool_table();
    assert(table[0].name == "search_entries"@);
    assert(table[1].name == "query_db"@);
    assert(table[2].name == "update_entry"@);
    assert(table[3].name == "supersede_entry"@);
    assert(table[4].name == "create_entry"@);
    assert(table[5].name == "update_entity"@);
    assert(table[6].name == "merge_entity"@);
    assert(table[7].name == "resolve_flag"@);
    assert(table[8].name == "create_flag"@);
}

/// A request changes the memory: its name is that of a tool that does more than read.
pub open spec fn would_change(call: ToolCallView) -> bool {
    exists|t: Tool| #[trigger] tool_name(t) == call.name && !only_reads(t)
}

/// The requests of a turn that would change the memory wait for confirmation, and all others run at once;
/// none is lost, and none is in both parts.
pub proof fn changes_wait_for_confirmation(calls: Seq<ToolCallView>, call: ToolCallView)
    ensures
        write_calls(calls).contains(call) == (calls.contains(call) && would_change(call)),
        read_calls(calls).contains(call) == (calls.contains(call) && !would_change(call)),
        write_calls(calls).len() + read_calls(calls).len() == calls.len(),
    decreases calls.len(),
{
    exactly_the_changing_tools_are_writes(call.name);
    let w = |c: ToolCallView| is_write_name(c.name);
    let r = |c: ToolCallView| !is_write_name(c.name);
    if calls.contains(call) {
        let k = choose|k: int| 0 <= k < calls.len() && calls[k] == call;
        if would_change(call) {
            calls.lemma_filter_contains(w, k);
        } else {
            calls.lemma_filter_contains(r, k);
        }
    }
    if write_calls(calls).contains(call) {
        calls.lemma_filter_contains_rev(w, call);
        let k = choose|k: int| 0 <= k < write_calls(calls).len() && write_calls(calls)[k] == call;
        calls.lemma_filter_pred(w, k);
    }
    if read_calls(calls).contains(call) {
        calls.lemma_filter_contains_rev(r, call);
        let k = choose|k: int| 0 <= k < read_calls(calls).len() && read_calls(calls)[k] == call;
        calls.lemma_filter_pred(r, k);
    }
    reveal(Seq::filter);
    if calls.len() > 0 {
        changes_wait_for_confirmation(calls.drop_last(), call);
    }
}

/// Requests keep their order: a turn with more requests runs those of the shorter one first.
pub proof fn requests_keep_their_order(a: Seq<ToolCallView>, b: Seq<ToolCallView>)
    ensures
        read_calls(a + b) == read_calls(a) + read_calls(b),
        write_calls(a + b) == write_calls(a) + write_calls(b),
{
    Seq::filter_distributes_over_add(a, b, |c: ToolCallView| !is_write_name(c.name));
    Seq::filter_distributes_over_add(a, b, |c: ToolCallView| is_write_name(c.name));
}

/// A change is carried out just when nobody denied it.
pub proof fn denied_changes_are_not_carried_out(
    writes: Seq<ToolCallView>,
    denied: Seq<String>,
    call: ToolCallView,
)
    ensures
        accepted(writes, denied).contains(call) == (writes.contains(call) && forall|k: int|
            0 <= k < denied.len() ==> (#[trigger] denied[k])@ != call.id),
{
    let p = |c: ToolCallView| !is_denied_id(denied, c.id);
    let t = texts(denied);
    if forall|k: int| 0 <= k < denied.len() ==> (#[trigger] denied[k])@ != call.id {
        if t.contains(call.id) {
            let k = choose|k: int| 0 <= k < t.len() && t[k] == call.id;
            assert(denied[k]@ == call.id);
        }
        if writes.contains(call) {
            let k = choose|k: int| 0 <= k < writes.len() && writes[k] == call;
            writes.lemma_filter_contains(p, k);
        }
    } else {
        let k = choose|k: int| 0 <= k < denied.len() && (#[trigger] denied[k])@ == call.id;
        assert(t[k] == call.id);
    }
    if accepted(writes, denied).contains(call) {
        writes.lemma_filter_contains_rev(p, call);
        let a = accepted(writes, denied);
        let k = choose|k: int| 0 <= k < a.len() && a[k] == call;
        writes.lemma_filter_pred(p, k);
    }
}

/// What the model is told: of a read its output; of a denied change that it was denied, as an error; and of
/// any other change what came of it, the outcomes being taken in turn.
pub proof fn results_answer_their_requests(
    reads: Seq<ToolCallView>,
    outputs: Seq<Seq<char>>,
    writes: Seq<ToolCallView>,
    denied: Seq<String>,
    outcomes: Seq<Result<String, String>>,
    i: int,
)
    ensures
        read_results(reads, outputs).len() == reads.len(),
        write_results(writes, denied, outcomes).len() == writes.len(),
        0 <= i < reads.len() ==> {
            let r = read_results(reads, outputs)[i];
            r.tool_use_id == reads[i].id && r.content == outputs[i] && !r.is_error
        },
        0 <= i < writes.len() ==> {
            let r = write_results(writes, denied, outcomes)[i];
            let k = writes.take(i).filter(|c: ToolCallView| !texts(denied).contains(c.id)).len();
            &&& r.tool_use_id == writes[i].id
            &&& r.is_error == texts(denied).contains(writes[i].id)
            &&& r.is_error ==> r.content == DENIED_MESSAGE@
            &&& !r.is_error ==> match outcomes[k as int] {
                Ok(s) => r.content == s@,
                Err(e) => r.content == e@,
            }
        },
{
    if 0 <= i < writes.len() {
        assert(writes.take(i).filter(|c: ToolCallView| !texts(denied).contains(c.id)) == accepted(
            writes.take(i),
            denied,
        )) by {
            lemma_same_filter(writes.take(i), denied);
        }
    }
}

proof fn lemma_same_filter(calls: Seq<ToolCallView>, denied: Seq<String>)
    ensures
        calls.filter(|c: ToolCallView| !texts(denied).contains(c.id)) == accepted(calls, denied),
    decreases calls.len(),
{
    reveal(Seq::filter);
    if calls.len() > 0 {
        lemma_same_filter(calls.drop_last(), denied);
    }
}

/// What is recorded of a turn: the texts of the changes that succeeded, all of them and in order.
pub proof fn successful_changes_are_recorded(
    a: Seq<Result<String, String>>,
    b: Seq<Result<String, String>>,
    s: String,
    e: String,
)
    ensures
        successes(a + b) == successes(a) + successes(b),
        successes(seq![Ok(s)]) == seq![s@],
        successes(seq![Err(e)]).len() == 0,
    decreases b.len(),
{
    reveal_with_fuel(successes, 2);
    let ok: Seq<Result<String, String>> = seq![Ok(s)];
    let bad: Seq<Result<String, String>> = seq![Err(e)];
    assert(ok.drop_last() =~= Seq::empty());
    assert(bad.drop_last() =~= Seq::empty());
    assert(successes(ok) =~= seq![s@]);
    if b.len() == 0 {
        assert(a + b =~= a);
        assert(successes(a) + successes(b) =~= successes(a));
    } else {
        successful_changes_are_recorded(a, b.drop_last(), s, e);
        assert((a + b).drop_last() =~= a + b.drop_last());
        assert((a + b).last() == b.last());
        match b.last() {
            Ok(x) => {
                assert(successes(a) + successes(b.drop_last()).push(x@) =~= (successes(a) + successes(
                    b.drop_last(),
                )).push(x@));
            },
            Err(_) => {},
        }
    }
}

/// The tool requests and the texts of an answer are taken from its blocks, all of them and in order.
pub proof fn answers_are_read_block_by_block(
    a: Seq<ContentBlock>,
    b: Seq<ContentBlock>,
    block: ContentBlock,
)
    ensures
        tool_uses(a + b) == tool_uses(a) + tool_uses(b),
        text_blocks(a + b) == text_blocks(a) + text_blocks(b),
        match block {
            ContentBlock::ToolUse { id, name, input } => {
                let t = tool_uses(seq![block]);
                t.len() == 1 && t[0].id == id@ && t[0].name == name@ && t[0].input == input@
            },
            _ => tool_uses(seq![block]).len() == 0,
        },
        match block {
            ContentBlock::Text { text } => text_blocks(seq![block]) == seq![text@],
            _ => text_blocks(seq![block]).len() == 0,
        },
    decreases b.len(),
{
    reveal_with_fuel(tool_uses, 2);
    reveal_with_fuel(text_blocks, 2);
    let one = seq![block];
    assert(one.drop_last() =~= Seq::empty());
    assert(one.last() == block);
    match block {
        ContentBlock::Text { text } => {
            assert(text_blocks(one) =~= seq![text@]);
        },
        _ => {},
    }
    if b.len() == 0 {
        assert(a + b =~= a);
        assert(tool_uses(a) + tool_uses(b) =~= tool_uses(a));
        assert(text_blocks(a) + text_blocks(b) =~= text_blocks(a));
    } else {
        answers_are_read_block_by_block(a, b.drop_last(), block);
        assert((a + b).drop_last() =~= a + b.drop_last());
        assert((a + b).last() == b.last());
        assert(tool_uses(a + b) =~= tool_uses(a) + tool_uses(b));
        assert(text_blocks(a + b) =~= text_blocks(a) + text_blocks(b));
    }
}

proof fn lemma_holds_end(a: Seq<char>, s: Seq<char>)
    ensures
        contains(a + s, s),
{
    assert(a + s + Seq::<char>::empty() =~= a + s);
    the_middle_is_contained(a, s, Seq::empty());
}

/// The user sees which entry a change is about, and of a new entry its text, whole where it is short.
pub proof fn proposals_name_the_entry(input: ToolInputView)
    ensures
        byte_len(input.text_or("summary_text"@, ""@)) <= 80 ==> contains(
            mutation_text("create_entry"@, input),
            input.text_or("summary_text"@, ""@),
        ),
        contains(mutation_text("update_entry"@, input), input.text_or("entry_id"@, "?"@)),
        contains(mutation_text("supersede_entry"@, input), input.text_or("entry_id"@, "?"@)),
{
    reveal_names();
    lemma_holds_end("Create entry: "@, input.text_or("summary_text"@, ""@));
    lemma_holds_end("Update entry "@, input.text_or("entry_id"@, "?"@));
    lemma_holds_end("Supersede entry "@, input.text_or("entry_id"@, "?"@));
}

/// The user sees which entity a change is about, and both of those that are to become one.
pub proof fn proposals_name_the_entity(input: ToolInputView)
    ensures
        contains(mutation_text("update_entity"@, input), input.text_or("name"@, "?"@)),
        contains(mutation_text("merge_entity"@, input), input.text_or("from_name"@, "?"@)),
        contains(mutation_text("merge_entity"@, input), input.text_or("to_name"@, "?"@)),
{
    reveal_names();
    the_middle_is_contained("Update entity '"@, input.text_or("name"@, "?"@), "'"@);
    let (from, to) = (input.text_or("from_name"@, "?"@), input.text_or("to_name"@, "?"@));
    let m = mutation_text("merge_entity"@, input);
    assert(m == "Merge entity '"@ + from + "' → '"@ + to + "'"@);
    assert(m =~= "Merge entity '"@ + from + ("' → '"@ + to + "'"@));
    the_middle_is_contained("Merge entity '"@, from, "' → '"@ + to + "'"@);
    the_middle_is_contained("Merge entity '"@ + from + "' → '"@, to, "'"@);
}

/// The user sees which flag a change is about, and of a new flag its kind and its entry.
pub proof fn proposals_name_the_flag(input: ToolInputView)
    ensures
        contains(mutation_text("create_flag"@, input), input.text_or("flag_type"@, "?"@)),
        contains(mutation_text("create_flag"@, input), input.text_or("entry_id"@, "?"@)),
        input.signed("flag_id"@) is Some && input.signed("flag_id"@)->Some_0 >= 0 ==> contains(
            mutation_text("resolve_flag"@, input),
            decimal(input.signed("flag_id"@)->Some_0 as nat),
        ),
{
    reveal_names();
    let id = input.text_or("entry_id"@, "?"@);
    let kind = input.text_or("flag_type"@, "?"@);
    let f = mutation_text("create_flag"@, input);
    assert(f == "Create "@ + kind + " flag on "@ + id);
    assert(f =~= "Create "@ + kind + (" flag on "@ + id));
    the_middle_is_contained("Create "@, kind, " flag on "@ + id);
    lemma_holds_end("Create "@ + kind + " flag on "@, id);
    if input.signed("flag_id"@) is Some && input.signed("flag_id"@)->Some_0 >= 0 {
        lemma_holds_end("Resolve flag #"@, decimal(input.signed("flag_id"@)->Some_0 as nat));
    }
}

/// A new entry says what the model said: its text, tags, type and confidence are the arguments, it is
/// active, and all its times are the moment it is made.
pub proof fn created_entries_hold_the_arguments(input: ToolInputView, stamp: Seq<char>, now: Seq<char>)
    ensures
        ({
            let e = agent_entry(input, stamp, now);
            let tags = input.text("topic_tags"@);
            &&& e.summary_text == trimmed(input.text_or("summary_text"@, ""@))
            &&& tags is Some ==> e.topic_tags == tags->Some_0
            &&& tags is None ==> e.topic_tags.len() == 0
            &&& input.text("memory_type"@) is Some ==> e.memory_type
                == input.text("memory_type"@)->Some_0
            &&& input.text("memory_type"@) is None ==> e.memory_type == "semantic"@
            &&& input.real_bits("confidence"@) is Some ==> e.confidence_bits
                == input.real_bits("confidence"@)->Some_0
            &&& input.text("image_path"@) is Some ==> e.image_path
                == input.text("image_path"@)->Some_0
            &&& e.status == "active"@ && e.source == "agent"@
            &&& e.created_at == now && e.updated_at == now && e.start_timestamp == now
                && e.end_timestamp == now
            &&& e.superseded_by.len() == 0 && e.collated_at.len() == 0 && e.message_count == 0
            &&& e.topic_key == topic_key(e.topic_tags, e.summary_text)
            &&& contains(e.id, stamp)
        }),
{
    reveal_strlit("");
    let e = agent_entry(input, stamp, now);
    assert(e.id =~= Seq::<char>::empty() + stamp + ("_"@ + "0"@));
    the_middle_is_contained(Seq::empty(), stamp, "_"@ + "0"@);
}

/// An update changes what is given and leaves the rest: each argument that is given takes the place of the
/// old value, each that is not leaves it, and nothing else but the time of the update changes.
pub proof fn updates_change_what_is_given(e: EntryView, input: ToolInputView, now: Seq<char>)
    ensures
        ({
            let n = changed_entry(e, input, now);
            &&& n.summary_text == if input.text("summary_text"@) is Some {
                input.text("summary_text"@)->Some_0
            } else {
                e.summary_text
            }
            &&& n.topic_tags == if input.text("topic_tags"@) is Some {
                input.text("topic_tags"@)->Some_0
            } else {
                e.topic_tags
            }
            &&& n.memory_type == if input.text("memory_type"@) is Some {
                input.text("memory_type"@)->Some_0
            } else {
                e.memory_type
            }
            &&& n.confidence_bits == if input.real_bits("confidence"@) is Some {
                input.real_bits("confidence"@)->Some_0
            } else {
                e.confidence_bits
            }
            &&& n.updated_at == now
            &&& n == (EntryView {
                summary_text: n.summary_text,
                topic_tags: n.topic_tags,
                memory_type: n.memory_type,
                confidence_bits: n.confidence_bits,
                updated_at: n.updated_at,
                ..e
            })
            &&& !changes_something(input) ==> n == (EntryView { updated_at: now, ..e })
        }),
{
}

/// An argument is found under its name, wherever it stands among arguments with other names, and an argument
/// that is not there is not made up.
pub proof fn arguments_are_found_by_name(input: ToolInputView, name: Seq<char>, i: int)
    requires
        0 <= i <= input.fields.len(),
        forall|k: int| 0 <= k < i ==> (#[trigger] input.fields[k]).name != name,
        i < input.fields.len() ==> input.fields[i].name == name,
    ensures
        i < input.fields.len() ==> input.text(name) == input.fields[i].text && input.signed(name)
            == input.fields[i].signed && input.unsigned(name) == input.fields[i].unsigned
            && input.real_bits(name) == input.fields[i].real_bits,
        i == input.fields.len() ==> input.text(name) is None && input.signed(name) is None
            && input.unsigned(name) is None && input.real_bits(name) is None,
    decreases i,
{
    if i > 0 {
        let rest = ToolInputView { fields: input.fields.skip(1), raw: input.raw };
        assert(input.fields[0].name != name);
        assert forall|k: int| 0 <= k < i - 1 implies (#[trigger] rest.fields[k]).name != name by {
            assert(rest.fields[k] == input.fields[k + 1]);
        }
        arguments_are_found_by_name(rest, name, i - 1);
    }
}

/// A search by meaning gives as many results as are asked for, but never more than 50, and 10 where nothing
/// is said.
pub proof fn searches_give_what_is_asked_for(input: ToolInputView)
    ensures
        wanted_results(input) <= 50,
        input.unsigned("top_k"@) is None ==> wanted_results(input) == 10,
        input.unsigned("top_k"@) is Some ==> wanted_results(input) <= input.unsigned("top_k"@)->Some_0
            && (wanted_results(input) == 50 || wanted_results(input) == input.unsigned(
            "top_k"@,
        )->Some_0),
{
}

/// A topic key is made of letters, digits and underscores; with a tag it depends on the first tag alone,
/// and without one on the text alone.
pub proof fn topic_keys_follow_the_first_tag(
    tag: Seq<char>,
    rest: Seq<Seq<char>>,
    summary: Seq<char>,
    other: Seq<char>,
)
    requires
        !tag.contains(','),
        trimmed(tag).len() > 0,
        forall|i: int| 0 <= i < rest.len() ==> !(#[trigger] rest[i]).contains(','),
    ensures
        topic_key(joined(seq![tag] + rest, seq![',']), summary) == topic_key(
            tag,
            other,
        ),
        forall|i: int|
            0 <= i < topic_key(tag, summary).len() ==> is_alnum(#[trigger] topic_key(tag, summary)[i])
                || topic_key(tag, summary)[i] == '_',
{
    let all = seq![tag] + rest;
    assert forall|i: int| 0 <= i < all.len() implies !(#[trigger] all[i]).contains(',') by {
        if i > 0 {
            assert(all[i] == rest[i - 1]);
        }
    }
    splitting_joined_restores(all, ',');
    let one = seq![tag];
    splitting_joined_restores(one, ',');
    lemma_first_tag_leads(all);
    lemma_first_tag_leads(one);
    let s = replace_all(lowercase(trimmed(tag)), " "@, "_"@);
    let pred = |c: char| is_alnum(c) || c == '_';
    assert forall|i: int| 0 <= i < key_chars(s).len() implies is_alnum(#[trigger] key_chars(s)[i])
        || key_chars(s)[i] == '_' by {
        s.lemma_filter_pred(pred, i);
    }
}

proof fn lemma_first_tag_leads(list: Seq<Seq<char>>)
    requires
        list.len() > 0,
        trimmed(list[0]).len() > 0,
    ensures
        tags_of(list).len() > 0,
        tags_of(list)[0] == trimmed(list[0]),
    decreases list.len(),
{
    if list.len() == 1 {
        assert(list.drop_last() =~= Seq::<Seq<char>>::empty());
        assert(tags_of(list.drop_last()) =~= Seq::<Seq<char>>::empty());
    } else {
        lemma_first_tag_leads(list.drop_last());
    }
}

/// The result of a query holds the entries that were found, in the order of the hits, each as it is stored
/// and with the score of its own hit; hits without an entry are left out.
pub proof fn found_entries_are_shown(
    hits: Seq<RagHit>,
    found: Seq<Option<Entry>>,
    hit: RagHit,
    entry: Option<Entry>,
)
    requires
        hits.len() == found.len(),
    ensures
        match entry {
            None => found_entries(hits.push(hit), found.push(entry)) == found_entries(hits, found),
            Some(e) => {
                let r = found_entries(hits.push(hit), found.push(entry));
                &&& r.len() == found_entries(hits, found).len() + 1
                &&& r.drop_last() == found_entries(hits, found)
                &&& r.last().entry_id == e.id@
                &&& r.last().summary_text == e.summary_text@
                &&& r.last().memory_type == e.memory_type@
                &&& r.last().confidence_bits == e.confidence_bits
                &&& r.last().relevance_bits == hit.score_bits
            },
        },
{
    assert(hits.push(hit).drop_last() =~= hits);
    lemma_found_prefix(hits, found, found.push(entry));
    match entry {
        Some(e) => {
            let t = found_entries(hits, found);
            let r = found_entries(hits.push(hit), found.push(entry));
            assert(r.drop_last() =~= t);
        },
        None => {},
    }
}

proof fn lemma_found_prefix(hits: Seq<RagHit>, a: Seq<Option<Entry>>, b: Seq<Option<Entry>>)
    requires
        hits.len() <= a.len(),
        hits.len() <= b.len(),
        forall|k: int| 0 <= k < hits.len() ==> #[trigger] a[k] == b[k],
    ensures
        found_entries(hits, a) == found_entries(hits, b),
    decreases hits.len(),
{
    if hits.len() > 0 {
        lemma_found_prefix(hits.drop_last(), a, b);
        assert(a[hits.len() - 1] == b[hits.len() - 1]);
    }
}

/// Texts without braces.
pub open spec fn holds_no_brace(s: Seq<char>) -> bool {
    !s.contains('{')
}

proof fn lemma_no_brace_no_placeholder(s: Seq<char>, pat: Seq<char>, to: Seq<char>)
    requires
        holds_no_brace(s),
        is_placeholder(pat),
    ensures
        replace_all(s, pat, to) == s,
{
    if contains(s, pat) {
        let i = choose|i: int| #[trigger] occurs_at(s, pat, i);
        assert(s.subrange(i, i + pat.len())[0] == s[i]);
        assert(s.contains('{'));
    }
    replace_absent_is_identity(s, pat, to);
}

/// A prompt names both sides and the moment, each in its own place.
pub proof fn prompts_name_both_sides(
    a: Seq<char>,
    b: Seq<char>,
    c: Seq<char>,
    d: Seq<char>,
    e: Seq<char>,
    char_name: Seq<char>,
    user_name: Seq<char>,
    date: Seq<char>,
    time: Seq<char>,
)
    requires
        holds_no_brace(a) && holds_no_brace(b) && holds_no_brace(c) && holds_no_brace(d)
            && holds_no_brace(e),
        holds_no_brace(char_name) && holds_no_brace(user_name) && holds_no_brace(date),
    ensures
        rendered(
            a + "{{char}}"@ + b + "{{user}}"@ + c + "{{date}}"@ + d + "{{time}}"@ + e,
            char_name,
            user_name,
            date,
            time,
        ) == a + char_name + b + user_name + c + date + d + time + e,
{
    reveal_strlit("{{char}}");
    reveal_strlit("{{user}}");
    reveal_strlit("{{date}}");
    reveal_strlit("{{time}}");
    let (k, u, t, h) = ("{{char}}"@, "{{user}}"@, "{{date}}"@, "{{time}}"@);
    assert(is_placeholder(k) && is_placeholder(u) && is_placeholder(t) && is_placeholder(h));
    assert(k[2] == 'c' && u[2] == 'u' && t[2] == 'd' && h[2] == 't');
    lemma_no_brace_no_placeholder(a, k, char_name);
    lemma_no_brace_no_placeholder(b, k, char_name);
    lemma_no_brace_no_placeholder(c, k, char_name);
    lemma_no_brace_no_placeholder(d, k, char_name);
    lemma_no_brace_no_placeholder(e, k, char_name);
    filling_leaves_other_placeholders(a + k + b + u + c + t + d, h, e, k, char_name);
    filling_leaves_other_placeholders(a + k + b + u + c, t, d, k, char_name);
    filling_leaves_other_placeholders(a + k + b, u, c, k, char_name);
    filling_a_placeholder(a, b, k, char_name);
    let ab = a + char_name + b;
    lemma_brace_free_concat(a, char_name, b);
    lemma_no_brace_no_placeholder(ab, u, user_name);
    lemma_no_brace_no_placeholder(c, u, user_name);
    lemma_no_brace_no_placeholder(d, u, user_name);
    lemma_no_brace_no_placeholder(e, u, user_name);
    filling_leaves_other_placeholders(ab + u + c + t + d, h, e, u, user_name);
    filling_leaves_other_placeholders(ab + u + c, t, d, u, user_name);
    filling_a_placeholder(ab, c, u, user_name);
    let abc = ab + user_name + c;
    lemma_brace_free_concat(ab, user_name, c);
    lemma_no_brace_no_placeholder(abc, t, date);
    lemma_no_brace_no_placeholder(d, t, date);
    lemma_no_brace_no_placeholder(e, t, date);
    filling_leaves_other_placeholders(abc + t + d, h, e, t, date);
    filling_a_placeholder(abc, d, t, date);
    let abcd = abc + date + d;
    lemma_brace_free_concat(abc, date, d);
    lemma_no_brace_no_placeholder(abcd, h, time);
    lemma_no_brace_no_placeholder(e, h, time);
    filling_a_placeholder(abcd, e, h, time);
}

proof fn lemma_brace_free_concat(a: Seq<char>, b: Seq<char>, c: Seq<char>)
    requires
        holds_no_brace(a) && holds_no_brace(b) && holds_no_brace(c),
    ensures
        holds_no_brace(a + b + c),
{
    let s = a + b + c;
    if s.contains('{') {
        let i = choose|i: int| 0 <= i < s.len() && s[i] == '{';
        if i < a.len() {
            assert(a[i] == '{');
        } else if i < a.len() + b.len() {
            assert(b[i - a.len()] == '{');
        } else {
            assert(c[i - a.len() - b.len()] == '{');
        }
    }
}

/// A first-person pronoun, as a word with what stands behind it, and what takes its place.
pub open spec fn stands_for(pronoun: Seq<char>, to: Seq<char>, name: Seq<char>) -> bool {
    ||| (pronoun == "my "@ || pronoun == "My "@) && to == name + "'s "@
    ||| pronoun == "I "@ && to == name + " "@
    ||| pronoun == " me "@ && to == " "@ + name + " "@
    ||| pronoun == " me."@ && to == " "@ + name + "."@
    ||| pronoun == " me?"@ && to == " "@ + name + "?"@
    ||| pronoun == " me!"@ && to == " "@ + name + "!"@
    ||| pronoun == "myself"@ && to == name
}

/// No pronoun but the given one stands in the text as a word.
pub open spec fn holds_no_other_pronoun(s: Seq<char>, pronoun: Seq<char>) -> bool {
    forall|p: Seq<char>, to: Seq<char>| #[trigger]
        stands_for(p, to, Seq::empty()) && p != pronoun ==> !holds_word(s, p)
}

/// The only pronoun of a query becomes the name, and all else stays.
pub proof fn a_pronoun_becomes_the_name(
    a: Seq<char>,
    pronoun: Seq<char>,
    to: Seq<char>,
    b: Seq<char>,
    name: Seq<char>,
)
    requires
        stands_for(pronoun, to, name),
        word_at(a + pronoun + b, pronoun, a.len() as int),
        forall|j: int| #[trigger] word_at(a + pronoun + b, pronoun, j) ==> j == a.len(),
        holds_no_other_pronoun(a + pronoun + b, pronoun),
        holds_no_other_pronoun(a + to + b, Seq::empty()),
    ensures
        resolved(a + pronoun + b, name) == a + to + b,
{
    reveal_strlit("my ");
    reveal_strlit("My ");
    reveal_strlit("I ");
    reveal_strlit(" me ");
    reveal_strlit(" me.");
    reveal_strlit(" me?");
    reveal_strlit(" me!");
    reveal_strlit("myself");
    let q = a + pronoun + b;
    let t = a + to + b;
    let e = Seq::<char>::empty();
    replacing_the_only_word(a, pronoun, b, to);
    let r0 = q;
    let r1 = lemma_pronoun_step(r0, "my "@, name + "'s "@, e + "'s "@, q, t, pronoun, to);
    let r2 = lemma_pronoun_step(r1, "My "@, name + "'s "@, e + "'s "@, q, t, pronoun, to);
    let r3 = lemma_pronoun_step(r2, "I "@, name + " "@, e + " "@, q, t, pronoun, to);
    let r4 = lemma_pronoun_step(r3, " me "@, " "@ + name + " "@, " "@ + e + " "@, q, t, pronoun, to);
    let r5 = lemma_pronoun_step(r4, " me."@, " "@ + name + "."@, " "@ + e + "."@, q, t, pronoun, to);
    let r6 = lemma_pronoun_step(r5, " me?"@, " "@ + name + "?"@, " "@ + e + "?"@, q, t, pronoun, to);
    let r7 = lemma_pronoun_step(r6, " me!"@, " "@ + name + "!"@, " "@ + e + "!"@, q, t, pronoun, to);
    let r8 = lemma_pronoun_step(r7, "myself"@, name, e, q, t, pronoun, to);
    assert("my "@[0] == 'm' && "My "@[0] == 'M' && "I "@[0] == 'I');
    assert("my "@.len() == 3 && "myself"@.len() == 6 && " me "@.len() == 4);
    assert(" me "@[3] == ' ' && " me."@[3] == '.' && " me?"@[3] == '?' && " me!"@[3] == '!');
}

/// One replacement: the pronoun of the query is replaced, any other finds nothing.
proof fn lemma_pronoun_step(
    now: Seq<char>,
    p: Seq<char>,
    by: Seq<char>,
    by_nobody: Seq<char>,
    q: Seq<char>,
    t: Seq<char>,
    pronoun: Seq<char>,
    to: Seq<char>,
) -> (r: Seq<char>)
    requires
        p.len() > 0,
        now == q || now == t,
        stands_for(p, by_nobody, Seq::empty()),
        p == pronoun ==> by == to,
        replace_words(q, pronoun, to) == t,
        holds_no_other_pronoun(q, pronoun),
        holds_no_other_pronoun(t, Seq::empty()),
    ensures
        r == replace_words(now, p, by),
        r == q || r == t,
        p == pronoun ==> r == t,
        p != pronoun ==> r == now,
{
    let r = replace_words(now, p, by);
    if now == q && p == pronoun {
    } else if now == q {
        assert(!holds_word(q, p));
        replacing_absent_words_is_identity(q, p, by);
    } else {
        assert(!holds_word(t, p));
        replacing_absent_words_is_identity(t, p, by);
    }
    r
}

proof fn lemma_no_tool_uses(blocks: Seq<ContentBlock>)
    ensures
        (tool_uses(blocks).len() == 0) == forall|i: int|
            0 <= i < blocks.len() ==> !((#[trigger] blocks[i]) is ToolUse),
        forall|i: int|
            0 <= i < blocks.len() && (#[trigger] blocks[i]) is ToolUse ==> tool_uses(blocks).contains(
                ToolCallView {
                    id: blocks[i]->id@,
                    name: blocks[i]->name@,
                    input: blocks[i]->input@,
                },
            ),
    decreases blocks.len(),
{
    if blocks.len() > 0 {
        let t = blocks.drop_last();
        lemma_no_tool_uses(t);
        let u = tool_uses(t);
        let all = tool_uses(blocks);
        assert(blocks[blocks.len() - 1] == blocks.last());
        assert forall|i: int| 0 <= i < t.len() implies t[i] == #[trigger] blocks[i] by {}
        assert forall|i: int|
            0 <= i < blocks.len() && (#[trigger] blocks[i]) is ToolUse implies all.contains(
            ToolCallView {
                id: blocks[i]->id@,
                name: blocks[i]->name@,
                input: blocks[i]->input@,
            },
        ) by {
            let x = ToolCallView {
                id: blocks[i]->id@,
                name: blocks[i]->name@,
                input: blocks[i]->input@,
            };
            if i < t.len() {
                assert(t[i] is ToolUse);
                let k = choose|k: int| 0 <= k < u.len() && u[k] == x;
                assert(all[k] == x);
            } else {
                assert(all[all.len() - 1] == x);
            }
        }
        if forall|i: int| 0 <= i < t.len() ==> !((#[trigger] t[i]) is ToolUse) {
        } else {
            let i = choose|i: int| 0 <= i < t.len() && (#[trigger] t[i]) is ToolUse;
            assert(blocks[i] is ToolUse);
        }
    }
}

/// An answer without requests is the final one, with all that was recorded; of any other, each request that
/// would change the memory waits for confirmation, and each that would not runs at once.
pub proof fn answers_are_final_or_ask_for_tools(
    state: AgentLoop,
    response: AgentLlmResponse,
    step: LoopStep,
    i: int,
)
    requires
        answer_step(state, response, step),
    ensures
        step is Finished == forall|k: int|
            0 <= k < response.content_blocks@.len() ==> !((#[trigger] response.content_blocks@[k])
                is ToolUse),
        step is Finished ==> step->text@ == response.text@ && step->mutations == state.mutations,
        0 <= i < response.content_blocks@.len() && response.content_blocks@[i] is ToolUse ==> {
            let call = ToolCallView {
                id: response.content_blocks@[i]->id@,
                name: response.content_blocks@[i]->name@,
                input: response.content_blocks@[i]->input@,
            };
            &&& step is RunTools
            &&& step->RunTools_0.state == state
            &&& step->RunTools_0.blocks == response.content_blocks
            &&& would_change(call) ==> calls_view(step->RunTools_0.writes@).contains(call)
                && !calls_view(step->RunTools_0.reads@).contains(call)
            &&& !would_change(call) ==> calls_view(step->RunTools_0.reads@).contains(call)
                && !calls_view(step->RunTools_0.writes@).contains(call)
        },
{
    lemma_no_tool_uses(response.content_blocks@);
    if 0 <= i < response.content_blocks@.len() && response.content_blocks@[i] is ToolUse {
        let call = ToolCallView {
            id: response.content_blocks@[i]->id@,
            name: response.content_blocks@[i]->name@,
            input: response.content_blocks@[i]->input@,
        };
        changes_wait_for_confirmation(tool_uses(response.content_blocks@), call);
    }
}

/// After a turn the model sees all that was said before, its own message, and one result for each request;
/// what succeeded is recorded behind what was recorded before; and after the fortieth turn the loop ends.
pub proof fn turns_report_back_to_the_model(
    turn: ToolTurn,
    outputs: Seq<Seq<char>>,
    denied: Seq<String>,
    outcomes: Seq<Result<String, String>>,
    end: TurnEnd,
    i: int,
)
    requires
        turn_step(turn, outputs, denied, outcomes, end),
        turn.state.turns < 40,
    ensures
        (end is Finished) == (turn.state.turns == 39),
        end is AskModel ==> {
            let next = end->AskModel_0;
            let n = turn.state.conversation@.len() as int;
            &&& next.turns == turn.state.turns + 1
            &&& next.conversation@.len() == n + 2
            &&& 0 <= i < n ==> next.conversation@[i] == turn.state.conversation@[i]
            &&& next.conversation@[n] == AgentMessage::AssistantBlocks(turn.blocks)
            &&& next.conversation@[n + 1] is ToolResults
            &&& next.conversation@[n + 1]->ToolResults_0@.len() == turn.reads@.len()
                + turn.writes@.len()
            &&& 0 <= i < turn.reads@.len() ==> {
                let r = next.conversation@[n + 1]->ToolResults_0@[i];
                r.tool_use_id@ == turn.reads@[i].id@ && r.content@ == outputs[i]
            }
            &&& 0 <= i < turn.writes@.len() ==> next.conversation@[n
                + 1]->ToolResults_0@[turn.reads@.len() + i].tool_use_id@ == turn.writes@[i].id@
            &&& texts(next.mutations@) == texts(turn.state.mutations@) + successes(outcomes)
        },
        end is Finished ==> end->text@ == "Agent loop reached maximum iterations."@ && texts(
            end->mutations@,
        ) == texts(turn.state.mutations@) + successes(outcomes),
{
    if end is AskModel {
        let next = end->AskModel_0;
        let n = turn.state.conversation@.len() as int;
        if 0 <= i < n {
            assert(next.conversation@.take(n)[i] == next.conversation@[i]);
        }
        let a = read_results(calls_view(turn.reads@), outputs);
        let b = write_results(calls_view(turn.writes@), denied, outcomes);
        let v = next.conversation@[n + 1]->ToolResults_0@;
        assert(results_view(v) == a + b);
        assert(v.len() == results_view(v).len());
        if 0 <= i < turn.reads@.len() {
            assert(results_view(v)[i] == v[i]@);
            assert((a + b)[i] == a[i]);
        }
        if 0 <= i < turn.writes@.len() {
            assert(results_view(v)[a.len() + i] == v[a.len() + i]@);
            assert((a + b)[a.len() + i] == b[i]);
        }
    }
}

/// Each change that waits is proposed under its own number and name, with its arguments, and described.
pub proof fn changes_are_proposed_as_they_are(
    writes: Seq<ToolCall>,
    r: Seq<ProposedOperation>,
    i: int,
)
    requires
        are_proposals(writes, r),
        0 <= i < writes.len(),
    ensures
        r.len() == writes.len(),
        r[i].tool_use_id@ == writes[i].id@,
        r[i].tool_name@ == writes[i].name@,
        r[i].args@ == writes[i].input@,
        r[i].description@ == mutation_text(writes[i].name@, writes[i].input@),
{
}

/// The prompt names the character as the character and the user as the user, whichever of them calls.
pub proof fn prompts_tell_the_caller_from_the_other(
    agent: MemoryAgent,
    caller: CallerIdentity,
    caller_name: Seq<char>,
    other_name: Seq<char>,
)
    requires
        agent.prompted_for(caller, caller_name, other_name),
    ensures
        caller is Char ==> is_system_prompt(agent.system_prompt@, caller_name, other_name),
        caller is User ==> is_system_prompt(agent.system_prompt@, other_name, caller_name),
{
}

proof fn lemma_joined_holds(p: Seq<Seq<char>>, sep: Seq<char>, i: int)
    requires
        0 <= i < p.len(),
    ensures
        contains(joined(p, sep), p[i]),
        i + 1 < p.len() ==> contains(joined(p, sep), p[i] + sep + p[i + 1]),
    decreases p.len(),
{
    let q = p.drop_last();
    let t = p.last();
    assert(p =~= q.push(t));
    lemma_joined_push(q, t, sep);
    if q.len() == 0 {
        assert(joined(p, sep).subrange(0, t.len() as int) =~= t);
        assert(occurs_at(joined(p, sep), t, 0));
    } else {
        let j = joined(q, sep);
        if i < q.len() {
            lemma_joined_holds(q, sep, i);
            assert(Seq::<char>::empty() + j + (sep + t) =~= joined(p, sep));
            containing_survives_framing(Seq::empty(), j, sep + t, p[i]);
            if i + 1 < q.len() {
                containing_survives_framing(Seq::empty(), j, sep + t, p[i] + sep + p[i + 1]);
            } else {
                lemma_joined_ends(q, sep);
                let whole = joined(p, sep);
                let pair = p[i] + sep + p[i + 1];
                let at = whole.len() - pair.len();
                assert(j.subrange(j.len() - q.last().len(), j.len() as int) =~= q.last());
                assert(whole.subrange(at, at + pair.len()) =~= pair) by {
                    assert forall|k: int| 0 <= k < q.last().len() implies j[j.len() - q.last().len()
                        + k] == q.last()[k] by {
                        assert(j.subrange(j.len() - q.last().len(), j.len() as int)[k] == j[j.len()
                            - q.last().len() + k]);
                    }
                }
                assert(occurs_at(whole, pair, at));
            }
        } else {
            let at = (j + sep).len() as int;
            assert(joined(p, sep).subrange(at, at + t.len()) =~= t);
            assert(occurs_at(joined(p, sep), t, at));
        }
    }
}

proof fn lemma_joined_ends(p: Seq<Seq<char>>, sep: Seq<char>)
    requires
        p.len() > 0,
    ensures
        ends_with(joined(p, sep), p.last()),
{
    let q = p.drop_last();
    let t = p.last();
    assert(p =~= q.push(t));
    lemma_joined_push(q, t, sep);
    let whole = joined(p, sep);
    assert(whole.subrange(whole.len() - t.len(), whole.len() as int) =~= t);
}

/// A query with a quoted phrase is used as it is. Of any other, every word that is worth searching for is
/// asked for, and one of them is enough for a match: between two of them stands an `OR`.
pub proof fn queries_ask_for_any_term(raw: Seq<char>, word: Seq<char>, i: int)
    ensures
        contains(raw, "\""@) ==> fts_query(raw) == raw,
        !contains(raw, "\""@) && words(raw, CharClass::NotQueryWord).contains(word)
            && is_search_term(word) ==> contains(fts_query(raw), word),
        !contains(raw, "\""@) && 0 <= i && i + 1 < search_terms(raw).len() ==> contains(
            fts_query(raw),
            search_terms(raw)[i] + " OR "@ + search_terms(raw)[i + 1],
        ),
        SEARCH_LIMIT == 20 && QUERY_LIMIT == 50,
{
    let all = words(raw, CharClass::NotQueryWord);
    let terms = search_terms(raw);
    if !contains(raw, "\""@) {
        if all.contains(word) && is_search_term(word) {
            let k = choose|k: int| 0 <= k < all.len() && all[k] == word;
            all.lemma_filter_contains(|w: Seq<char>| is_search_term(w), k);
            assert(terms.contains(word));
            let m = choose|m: int| 0 <= m < terms.len() && terms[m] == word;
            lemma_joined_holds(terms, " OR "@, m);
        }
        if 0 <= i && i + 1 < terms.len() {
            lemma_joined_holds(terms, " OR "@, i);
        }
    }
}

/// No operator of the query language is a search term, however it is written.
pub proof fn operators_are_no_search_terms(word: Seq<char>)
    requires
        uppercase(word) == "AND"@ || uppercase(word) == "OR"@ || uppercase(word) == "NOT"@
            || uppercase(word) == "NEAR"@,
    ensures
        !is_search_term(word),
{
    reveal_strlit("AND");
    reveal_strlit("OR");
    reveal_strlit("NOT");
    reveal_strlit("NEAR");
    reveal_strlit("AND OR NOT NEAR");
    let class = CharClass::Space;
    let (a, o, n, r) = ("AND"@, "OR"@, "NOT"@, "NEAR"@);
    let s1 = a.push(' ') + o;
    let s2 = s1.push(' ') + n;
    let s3 = s2.push(' ') + r;
    assert(FTS_OPERATORS@ =~= s3);
    lemma_one_word(a, class);
    lemma_words_add(a, ' ', o, class);
    lemma_words_add(s1, ' ', n, class);
    lemma_words_add(s2, ' ', r, class);
    let w = words(FTS_OPERATORS@, class);
    assert(w[0] == a && w[1] == o && w[2] == n && w[3] == r);
}

/// A number is shown with its sign and its digits, so that it can be read back.
pub proof fn numbers_keep_their_sign(n: i64)
    ensures
        n < 0 ==> signed_decimal(n).len() > 1 && signed_decimal(n)[0] == '-' && numeral_value(
            signed_decimal(n).skip(1),
        ) == -n,
        n >= 0 ==> numeral_value(signed_decimal(n)) == n,
{
    reveal_strlit("-");
    if n < 0 {
        decimal_reads_back((-n) as nat);
        assert(signed_decimal(n).skip(1) =~= decimal((-n) as nat));
    } else {
        decimal_reads_back(n as nat);
    }
}

/// A long text of a proposed entry is shown up to a limit, and dots show that it goes on; a short one is
/// shown whole.
pub proof fn long_texts_end_in_dots(s: Seq<char>)
    requires
        can_truncate(s, 80),
    ensures
        byte_len(s) <= 80 ==> cut(s) == s,
        byte_len(s) > 80 ==> {
            let n = cut(s).len() - 3;
            &&& n >= 0
            &&& starts_with(s, cut(s).subrange(0, n))
            &&& byte_len(cut(s).subrange(0, n)) == 80
            &&& ends_with(cut(s), "..."@)
        },
{
    reveal_strlit("...");
    cut_texts_lose_their_end(s, 80);
    if byte_len(s) > 80 {
        let n = cut(s).len() - 3;
        assert(cut(s).subrange(0, n) =~= truncated(s, 80));
        assert(cut(s).subrange(n, cut(s).len() as int) =~= "..."@);
    }
}

/// The model is told what failed.
pub proof fn failures_name_what_failed(kind: ToolFailure)
    ensures
        kind is Db ==> failure_prefix(kind) == "DB error: "@,
        kind is Search ==> failure_prefix(kind) == "Search error: "@,
        kind is Sql ==> failure_prefix(kind) == "SQL error: "@,
        kind is Json ==> failure_prefix(kind) == "JSON error: "@,
        kind is Bm25Init ==> failure_prefix(kind) == "BM25 init error: "@,
        kind is Embedding ==> failure_prefix(kind) == "Embedding error: "@,
        kind is VectorSearch ==> failure_prefix(kind) == "Vector search error: "@,
{
}

}
