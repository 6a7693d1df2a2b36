//! What holds of collation as a whole: what becomes of entries that are merged, split or rewritten, which
//! entries are looked at, and what the model is shown.
use crate::clock::rfc3339_age;
use crate::memory::collation::ancestry::{
    ancestors, is_end, is_resolution, is_start, listed_ids, parents, reach, text_set,
};
use crate::memory::collation::phases::{
    backfill_audit, backfill_step, dated, decay_step, from_ancestors, is_backfill, is_lowered,
    lowered_entries, undated, BackfillWrites, DecayWrites, Fading,
};
use crate::memory::collation::prompt::{
    definitions, entry_block, entry_blocks, filled_var, refine_prompt, section, time_part, with_vars,
    PromptEntry,
};
use crate::memory::collation::refine::{
    action_step, actionable, audit_lines, begins, closing_step, earliest_start, entries_of, ids_of,
    kept_count, latest_end, lemma_entry_of_is_entry, lemma_superseded_entry, lemma_superseded_length,
    merge_audit, merge_step, mergeable, message_sum, split_audit, split_step, update_audit,
    update_step, ActionWrites, RefineRun, RefineWrites, UpdateWrites,
};
use crate::memory::collation::types::{CollationOutcome, RefineAction, RefineEntryFields};
use crate::memory::collation::{
    are_context, context_ids, first_n, is_active, is_due, CollationManager,
};
use crate::memory::confidence::{at_most, clamped, ONE_BITS, ZERO_BITS};
use crate::memory::db::{entries_view, entry_of, Entry, EntryView};
use crate::text::number::decimal;
use crate::text::order::{text_before, text_order_irreflexive, text_order_transitive};
use crate::text::placeholder::{
    filling_a_placeholder, filling_leaves_other_placeholders, is_placeholder,
};
use crate::text::search::{
    containing_survives_framing, contains, ends_with, occurs_at, replace_absent_is_identity, replace_all,
    starts_with, the_middle_is_contained,
};
use crate::text::split::{joined, texts};
use vstd::prelude::*;
use vstd::string::*;

verus! {

broadcast use vstd::string::group_string_axioms;

/// The bits `r` are those of the double nearest to the double `bits` that lies from 0 to 1.
pub open spec fn is_within_unit(r: u64, bits: u64) -> bool {
    &&& bits <= 0x3FF0_0000_0000_0000 ==> r == bits
    &&& 0x3FF0_0000_0000_0000 < bits <= 0x7FF0_0000_0000_0000 ==> r == 0x3FF0_0000_0000_0000
    &&& 0x8000_0000_0000_0000 < bits <= 0xFFF0_0000_0000_0000 ==> r == 0
}

/// A confidence from 0 to 1 stays, a greater one becomes 1, and a negative one 0.
pub proof fn confidences_stay_within_the_unit(bits: u64)
    ensures
        is_within_unit(clamped(bits, ZERO_BITS, ONE_BITS), bits),
{
}

/// The entry that a table holds under an identifier is the first one there.
pub proof fn entries_are_found_by_identifier(table: Seq<EntryView>, id: Seq<char>, j: int)
    requires
        0 <= j < table.len(),
        table[j].id == id,
        forall|k: int| 0 <= k < j ==> (#[trigger] table[k]).id != id,
    ensures
        entry_of(table, id) == Some(table[j]),
    decreases j,
{
    if j > 0 {
        assert(table[0].id != id);
        let rest = table.skip(1);
        assert forall|k: int| 0 <= k < j - 1 implies (#[trigger] rest[k]).id != id by {
            assert(rest[k] == table[k + 1]);
        }
        entries_are_found_by_identifier(rest, id, j - 1);
    }
}

/// An entry says what the model wrote for it.
pub open spec fn says(e: Entry, fields: RefineEntryFields) -> bool {
    &&& e.summary_text@ == fields.summary_text@
    &&& e.topic_tags@ == fields.topic_tags@
    &&& e.topic_key@ == fields.topic_key@
    &&& is_within_unit(e.confidence_bits, fields.confidence_bits)
}

/// An entry is new: active, made by collation now, superseded by nothing, and never collated.
pub open spec fn is_new(e: Entry, now: Seq<char>) -> bool {
    &&& e.status@ == "active"@
    &&& e.source@ == "collation_refine"@
    &&& e.created_at@ == now && e.updated_at@ == now
    &&& e.superseded_by@.len() == 0
    &&& e.collated_at@.len() == 0
    &&& e.image_path@.len() == 0
}

/// Each part of a split says what the model wrote for that part, has the type, the times and the messages of
/// the entry that was split, and names it as its source.
pub proof fn parts_say_what_was_written_for_them(
    before: RefineRun,
    after: RefineRun,
    id: Seq<char>,
    results: Seq<RefineEntryFields>,
    reason: Seq<char>,
    w: RefineWrites,
    i: int,
    j: int,
)
    requires
        split_step(before, after, id, results, reason, Some(w)),
        0 <= i < results.len(),
        0 <= j < before.table@.len(),
        before.table@[j].id@ == id,
        forall|k: int| 0 <= k < j ==> (#[trigger] before.table@[k]).id@ != id,
    ensures
        w.created@.len() == results.len(),
        says(w.created@[i], results[i]),
        is_new(w.created@[i], before.now@),
        w.created@[i].source_entry_ids@ == id,
        w.created@[i].reason@ == "refine_split"@,
        ({
            let old_entry = before.table@[j];
            &&& w.created@[i].memory_type@ == old_entry.memory_type@
            &&& w.created@[i].entry_type@ == old_entry.entry_type@
            &&& w.created@[i].start_timestamp@ == old_entry.start_timestamp@
            &&& w.created@[i].end_timestamp@ == old_entry.end_timestamp@
            &&& w.created@[i].message_count == old_entry.message_count
        }),
{
    let table = before.entries();
    let parts = entries_view(w.created@);
    assert forall|k: int| 0 <= k < j implies (#[trigger] table[k]).id != id by {
        assert(before.table@[k].id@ != id);
    }
    entries_are_found_by_identifier(table, id, j);
    assert(parts[i] == w.created@[i]@);
    assert(table[j] == before.table@[j]@);
    confidences_stay_within_the_unit(results[i].confidence_bits);
}

/// After a split the entry is superseded by all its parts, the parts stand behind the entries that were
/// there, and no other entry changes.
pub proof fn splits_supersede_the_entry(
    before: RefineRun,
    after: RefineRun,
    id: Seq<char>,
    results: Seq<RefineEntryFields>,
    reason: Seq<char>,
    w: RefineWrites,
    k: int,
)
    requires
        split_step(before, after, id, results, reason, Some(w)),
        0 <= k < before.table@.len() + results.len(),
    ensures
        after.table@.len() == before.table@.len() + results.len(),
        w.superseded_by@ == joined(
            Seq::new(w.created@.len(), |i: int| w.created@[i].id@),
            ","@,
        ),
        after.outcome.refine_splits == (before.outcome.refine_splits + 1) as usize,
        after.outcome.refine_new_entries == (before.outcome.refine_new_entries + results.len()) as usize,
        after.outcome.refine_merges == before.outcome.refine_merges,
        after.outcome.refine_updates == before.outcome.refine_updates,
        ({
            let old_entry = if k < before.table@.len() {
                before.table@[k]@
            } else {
                w.created@[k - before.table@.len()]@
            };
            let new_entry = after.table@[k];
            if old_entry.id == id {
                &&& new_entry.status@ == "superseded"@
                &&& new_entry.superseded_by@ == w.superseded_by@
                &&& new_entry.summary_text@ == old_entry.summary_text
                &&& new_entry.id@ == id
                &&& new_entry.created_at@ == old_entry.created_at
            } else {
                new_entry@ == old_entry
            }
        }),
{
    let parts = entries_view(w.created@);
    let all = before.entries() + parts;
    let one = seq![id];
    lemma_superseded_entry(all, one, w.superseded_by@, texts(w.superseded_at@), k);
    assert(after.entries().len() == after.table@.len());
    assert(after.entries()[k] == after.table@[k]@);
    assert(one[0] == id);
    if one.contains(all[k].id) {
        let m = choose|m: int| 0 <= m < one.len() && one[m] == all[k].id;
    }
    assert(ids_of(parts) =~= Seq::new(
        w.created@.len(),
        |i: int| w.created@[i].id@,
    ));
}

/// `t` is the earliest of the texts that are not empty, and empty where all are.
pub open spec fn is_earliest(t: Seq<char>, times: Seq<Seq<char>>) -> bool {
    if forall|i: int| 0 <= i < times.len() ==> (#[trigger] times[i]).len() == 0 {
        t.len() == 0
    } else {
        &&& t.len() > 0 && times.contains(t)
        &&& forall|i: int|
            0 <= i < times.len() && (#[trigger] times[i]).len() > 0 ==> !text_before(times[i], t)
    }
}

/// `t` is the latest of the texts that are not empty, and empty where all are.
pub open spec fn is_latest(t: Seq<char>, times: Seq<Seq<char>>) -> bool {
    if forall|i: int| 0 <= i < times.len() ==> (#[trigger] times[i]).len() == 0 {
        t.len() == 0
    } else {
        &&& t.len() > 0 && times.contains(t)
        &&& forall|i: int|
            0 <= i < times.len() && (#[trigger] times[i]).len() > 0 ==> !text_before(t, times[i])
    }
}

/// When entries begin.
pub open spec fn starts_of(s: Seq<EntryView>) -> Seq<Seq<char>> {
    Seq::new(s.len(), |i: int| s[i].start_timestamp)
}

/// When entries end.
pub open spec fn ends_of(s: Seq<EntryView>) -> Seq<Seq<char>> {
    Seq::new(s.len(), |i: int| s[i].end_timestamp)
}

proof fn lemma_earliest(s: Seq<EntryView>)
    ensures
        is_earliest(earliest_start(s), starts_of(s)),
    decreases s.len(),
{
    if s.len() > 0 {
        let t = s.drop_last();
        lemma_earliest(t);
        let all = starts_of(s);
        let rest = starts_of(t);
        let x = s.last().start_timestamp;
        let e = earliest_start(t);
        let r = earliest_start(s);
        assert(all =~= rest.push(x));
        assert(all[all.len() - 1] == x);
        assert forall|i: int| 0 <= i < rest.len() implies rest[i] == #[trigger] all[i] by {}
        if exists|i: int| 0 <= i < rest.len() && (#[trigger] rest[i]).len() > 0 {
            let i = choose|i: int| 0 <= i < rest.len() && (#[trigger] rest[i]).len() > 0;
            assert(all[i].len() > 0);
            let k = choose|k: int| 0 <= k < rest.len() && rest[k] == e;
            assert(all[k] == e);
        }
        assert forall|i: int| 0 <= i < all.len() && (#[trigger] all[i]).len() > 0 implies !text_before(
            all[i],
            r,
        ) by {
            text_order_irreflexive(r);
            if i < rest.len() {
                assert(rest[i] == all[i]);
                assert(!text_before(all[i], e));
                if r == x && text_before(x, e) && text_before(all[i], x) {
                    text_order_transitive(all[i], x, e);
                }
            }
        }
    }
}

proof fn lemma_latest(s: Seq<EntryView>)
    ensures
        is_latest(latest_end(s), ends_of(s)),
    decreases s.len(),
{
    if s.len() > 0 {
        let t = s.drop_last();
        lemma_latest(t);
        let all = ends_of(s);
        let rest = ends_of(t);
        let x = s.last().end_timestamp;
        let e = latest_end(t);
        let r = latest_end(s);
        assert(all =~= rest.push(x));
        assert(all[all.len() - 1] == x);
        assert forall|i: int| 0 <= i < rest.len() implies rest[i] == #[trigger] all[i] by {}
        if exists|i: int| 0 <= i < rest.len() && (#[trigger] rest[i]).len() > 0 {
            let i = choose|i: int| 0 <= i < rest.len() && (#[trigger] rest[i]).len() > 0;
            assert(all[i].len() > 0);
            let k = choose|k: int| 0 <= k < rest.len() && rest[k] == e;
            assert(all[k] == e);
        }
        assert forall|i: int| 0 <= i < all.len() && (#[trigger] all[i]).len() > 0 implies !text_before(
            r,
            all[i],
        ) by {
            text_order_irreflexive(r);
            if i < rest.len() {
                assert(rest[i] == all[i]);
                assert(!text_before(e, all[i]));
                if r == x && text_before(e, x) && text_before(x, all[i]) {
                    text_order_transitive(e, x, all[i]);
                }
            }
        }
    }
}

/// The messages of entries are added up.
pub proof fn messages_are_added_up(a: Seq<EntryView>, b: Seq<EntryView>, e: EntryView)
    ensures
        message_sum(a + b) == message_sum(a) + message_sum(b),
        message_sum(seq![e]) == e.message_count,
        message_sum(Seq::<EntryView>::empty()) == 0,
    decreases b.len(),
{
    reveal_with_fuel(message_sum, 2);
    let one = seq![e];
    assert(one.drop_last() =~= Seq::<EntryView>::empty());
    if b.len() == 0 {
        assert(a + b =~= a);
    } else {
        messages_are_added_up(a, b.drop_last(), e);
        assert((a + b).drop_last() =~= a + b.drop_last());
        assert((a + b).last() == b.last());
    }
}

/// A merge makes one entry that says what the model wrote, spans all its sources, counts their messages
/// together, has the type of the first, and names them all.
pub proof fn merged_entries_span_their_sources(
    before: RefineRun,
    after: RefineRun,
    ids: Seq<Seq<char>>,
    result: RefineEntryFields,
    reason: Seq<char>,
    w: RefineWrites,
    sources: Seq<EntryView>,
)
    requires
        merge_step(before, after, ids, result, reason, Some(w)),
        sources.len() == ids.len(),
        forall|i: int|
            0 <= i < ids.len() ==> entry_of(before.entries(), ids[i]) == Some(#[trigger] sources[i]),
    ensures
        w.created@.len() == 1,
        says(w.created@[0], result),
        is_new(w.created@[0], before.now@),
        w.created@[0].reason@ == "refine_merge"@,
        w.created@[0].id@ == w.superseded_by@,
        w.created@[0].source_entry_ids@ == joined(ids, ","@),
        w.created@[0].memory_type@ == sources[0].memory_type,
        w.created@[0].entry_type@ == sources[0].entry_type,
        is_earliest(w.created@[0].start_timestamp@, starts_of(sources)),
        is_latest(w.created@[0].end_timestamp@, ends_of(sources)),
        w.created@[0].message_count == message_sum(sources) as i64,
        texts(w.superseded_ids@) == ids,
        after.outcome.refine_merges == (before.outcome.refine_merges + 1) as usize,
        after.outcome.refine_new_entries == (before.outcome.refine_new_entries + 1) as usize,
        after.outcome.refine_splits == before.outcome.refine_splits,
        after.outcome.refine_updates == before.outcome.refine_updates,
        after.entries().len() == before.entries().len() + 1,
        after.entries().last() == w.created@[0]@,
{
    assert(entries_of(before.entries(), ids) =~= sources) by {
        assert forall|i: int| 0 <= i < ids.len() implies entries_of(before.entries(), ids)[i]
            == sources[i] by {
            assert(entry_of(before.entries(), ids[i]) == Some(sources[i]));
        }
    }
    lemma_earliest(sources);
    lemma_latest(sources);
    confidences_stay_within_the_unit(result.confidence_bits);
    assert(entries_view(w.created@).len() == w.created@.len());
    assert(entries_view(w.created@)[0] == w.created@[0]@);
    lemma_superseded_length(
        before.entries(),
        ids,
        w.superseded_by@,
        texts(w.superseded_at@),
    );
}

/// A rewritten entry says what the model wrote; all else of it, and every other entry, stays.
pub proof fn rewrites_change_what_was_written(
    before: RefineRun,
    after: RefineRun,
    id: Seq<char>,
    result: RefineEntryFields,
    reason: Seq<char>,
    w: UpdateWrites,
    k: int,
)
    requires
        update_step(before, after, id, result, reason, Some(w)),
        0 <= k < before.entries().len(),
        entry_of(before.entries(), id) == Some(before.entries()[k]),
    ensures
        says(w.updated, result),
        w.updated.updated_at@ == before.now@,
        ({
            let e = before.entries()[k];
            w.updated@ == (EntryView {
                summary_text: w.updated.summary_text@,
                topic_tags: w.updated.topic_tags@,
                topic_key: w.updated.topic_key@,
                confidence_bits: w.updated.confidence_bits,
                updated_at: w.updated.updated_at@,
                ..e
            })
        }),
        after.entries().len() == before.entries().len(),
        after.entries()[k] == w.updated@,
        forall|m: int|
            0 <= m < before.entries().len() && before.entries()[m].id != id
                ==> #[trigger] after.entries()[m] == before.entries()[m],
        after.outcome.refine_updates == (before.outcome.refine_updates + 1) as usize,
        after.outcome.refine_new_entries == before.outcome.refine_new_entries,
{
    confidences_stay_within_the_unit(result.confidence_bits);
    let m = lemma_entry_of_is_entry(before.entries(), id);
    assert(before.entries()[k].id == id);
    assert(w.updated@.summary_text == w.updated.summary_text@);
}

/// An entry is one of the candidates of a run, and the database holds it as an active one.
pub open spec fn is_active_candidate(run: RefineRun, id: Seq<char>) -> bool {
    &&& exists|k: int| 0 <= k < run.candidate_ids@.len() && (#[trigger] run.candidate_ids@[k])@ == id
    &&& exists|j: int|
        0 <= j < run.table@.len() && (#[trigger] run.table@[j]).id@ == id && run.table@[j].status@
            == "active"@ && forall|k: int| 0 <= k < j ==> (#[trigger] run.table@[k]).id@ != id
}

proof fn lemma_first_entry(table: Seq<EntryView>, id: Seq<char>) -> (i: int)
    requires
        entry_of(table, id) is Some,
    ensures
        0 <= i < table.len(),
        table[i].id == id,
        entry_of(table, id) == Some(table[i]),
        forall|k: int| 0 <= k < i ==> (#[trigger] table[k]).id != id,
    decreases table.len(),
{
    if table[0].id == id {
        0
    } else {
        let rest = table.skip(1);
        let k = lemma_first_entry(rest, id);
        assert forall|m: int| 0 <= m < k + 1 implies (#[trigger] table[m]).id != id by {
            if m > 0 {
                assert(rest[m - 1] == table[m]);
            }
        }
        k + 1
    }
}

proof fn lemma_actionable(run: RefineRun, id: Seq<char>)
    ensures
        actionable(run.entries(), run.candidates(), id) == is_active_candidate(run, id),
{
    let t = texts(run.candidate_ids@);
    if run.candidates().contains(id) {
        let k = choose|k: int| 0 <= k < t.len() && t[k] == id;
        assert(run.candidate_ids@[k]@ == id);
    }
    if exists|k: int| 0 <= k < run.candidate_ids@.len() && (#[trigger] run.candidate_ids@[k])@ == id {
        let k = choose|k: int|
            0 <= k < run.candidate_ids@.len() && (#[trigger] run.candidate_ids@[k])@ == id;
        assert(t[k] == id);
    }
    let table = run.entries();
    if actionable(table, run.candidates(), id) {
        let j = lemma_first_entry(table, id);
        assert(run.table@[j].id@ == id && run.table@[j].status@ == "active"@);
        assert forall|k: int| 0 <= k < j implies (#[trigger] run.table@[k]).id@ != id by {
            assert(table[k].id != id);
        }
    }
    if is_active_candidate(run, id) {
        let j = choose|j: int|
            0 <= j < run.table@.len() && (#[trigger] run.table@[j]).id@ == id && run.table@[j].status@
                == "active"@ && forall|k: int| 0 <= k < j ==> (#[trigger] run.table@[k]).id@ != id;
        assert forall|k: int| 0 <= k < j implies (#[trigger] table[k]).id != id by {
            assert(run.table@[k].id@ != id);
        }
        assert(table[j] == run.table@[j]@);
        entries_are_found_by_identifier(table, id, j);
    }
}

/// A proposal is carried out just when it may be: a merge of two or more active candidates, a split of an
/// active candidate into two or more parts, or a rewrite of an active candidate. Where it may not, nothing
/// changes.
pub proof fn only_active_candidates_are_acted_on(
    before: RefineRun,
    after: RefineRun,
    action: RefineAction,
    r: Option<ActionWrites>,
)
    requires
        action_step(before, after, action, r),
    ensures
        r is Some == match action {
            RefineAction::Merge { source_entry_ids, .. } => source_entry_ids@.len() >= 2 && forall|i: int|
                0 <= i < source_entry_ids@.len() ==> is_active_candidate(
                    before,
                    (#[trigger] source_entry_ids@[i])@,
                ),
            RefineAction::Split { source_entry_id, results, .. } => results@.len() >= 2
                && is_active_candidate(before, source_entry_id@),
            RefineAction::Update { entry_id, .. } => is_active_candidate(before, entry_id@),
        },
        r is None ==> after == before,
{
    match action {
        RefineAction::Merge { source_entry_ids, .. } => {
            let ids = texts(source_entry_ids@);
            assert forall|i: int| 0 <= i < ids.len() implies actionable(
                before.entries(),
                before.candidates(),
                #[trigger] ids[i],
            ) == is_active_candidate(before, source_entry_ids@[i]@) by {
                lemma_actionable(before, ids[i]);
            }
            if mergeable(before.entries(), before.candidates(), ids) {
                assert forall|i: int| 0 <= i < source_entry_ids@.len() implies is_active_candidate(
                    before,
                    (#[trigger] source_entry_ids@[i])@,
                ) by {
                    assert(actionable(before.entries(), before.candidates(), ids[i]));
                }
            }
        },
        RefineAction::Split { source_entry_id, .. } => {
            lemma_actionable(before, source_entry_id@);
        },
        RefineAction::Update { entry_id, .. } => {
            lemma_actionable(before, entry_id@);
        },
    }
}

/// The audit texts name what was done to what, and why.
pub proof fn audits_name_what_was_done(
    sources: Seq<EntryView>,
    id: Seq<char>,
    old_summary: Seq<char>,
    summary: Seq<char>,
    reason: Seq<char>,
)
    ensures
        contains(merge_audit(sources, id, summary, reason), id),
        contains(merge_audit(sources, id, summary, reason), summary),
        contains(merge_audit(sources, id, summary, reason), reason),
        contains(split_audit(id, old_summary, sources, reason), id),
        contains(split_audit(id, old_summary, sources, reason), old_summary),
        contains(split_audit(id, old_summary, sources, reason), reason),
        contains(update_audit(id, old_summary, summary, reason), id),
        contains(update_audit(id, old_summary, summary, reason), old_summary),
        contains(update_audit(id, old_summary, summary, reason), summary),
        contains(update_audit(id, old_summary, summary, reason), reason),
{
    lemma_merge_audit(sources, id, summary, reason);
    lemma_split_audit(id, old_summary, sources, reason);
    lemma_update_audit(id, old_summary, summary, reason);
}

proof fn lemma_holds_end(a: Seq<char>, s: Seq<char>)
    ensures
        contains(a + s, s),
{
    assert(a + s + Seq::<char>::empty() =~= a + s);
    the_middle_is_contained(a, s, Seq::empty());
}

proof fn lemma_merge_audit(
    sources: Seq<EntryView>,
    id: Seq<char>,
    summary: Seq<char>,
    reason: Seq<char>,
)
    ensures
        contains(merge_audit(sources, id, summary, reason), id),
        contains(merge_audit(sources, id, summary, reason), summary),
        contains(merge_audit(sources, id, summary, reason), reason),
{
    let lines = joined(audit_lines(sources), "\n"@);
    let head = "Merge "@ + decimal(sources.len()) + " entries -> "@;
    let m = merge_audit(sources, id, summary, reason);
    let tail = ":\n"@ + lines + "\n  => "@ + summary + "\n  Reason: "@ + reason;
    assert(m =~= head + id + tail);
    the_middle_is_contained(head, id, tail);
    let a = head + id + ":\n"@ + lines + "\n  => "@;
    assert(m =~= a + summary + ("\n  Reason: "@ + reason));
    the_middle_is_contained(a, summary, "\n  Reason: "@ + reason);
    lemma_holds_end(a + summary + "\n  Reason: "@, reason);
}

proof fn lemma_split_audit(
    id: Seq<char>,
    old_summary: Seq<char>,
    parts: Seq<EntryView>,
    reason: Seq<char>,
)
    ensures
        contains(split_audit(id, old_summary, parts, reason), id),
        contains(split_audit(id, old_summary, parts, reason), old_summary),
        contains(split_audit(id, old_summary, parts, reason), reason),
{
    let lines = joined(audit_lines(parts), "\n"@);
    let n = decimal(parts.len());
    let m = split_audit(id, old_summary, parts, reason);
    let tail = "\" into "@ + n + " parts:\n"@ + lines + "\n  Reason: "@ + reason;
    assert(m =~= "Split ["@ + id + ("] \""@ + old_summary + tail));
    the_middle_is_contained("Split ["@, id, "] \""@ + old_summary + tail);
    let a = "Split ["@ + id + "] \""@;
    assert(m =~= a + old_summary + tail);
    the_middle_is_contained(a, old_summary, tail);
    lemma_holds_end(
        a + old_summary + "\" into "@ + n + " parts:\n"@ + lines + "\n  Reason: "@,
        reason,
    );
}

proof fn lemma_update_audit(
    id: Seq<char>,
    old_summary: Seq<char>,
    summary: Seq<char>,
    reason: Seq<char>,
)
    ensures
        contains(update_audit(id, old_summary, summary, reason), id),
        contains(update_audit(id, old_summary, summary, reason), old_summary),
        contains(update_audit(id, old_summary, summary, reason), summary),
        contains(update_audit(id, old_summary, summary, reason), reason),
{
    let m = update_audit(id, old_summary, summary, reason);
    let tail = "\"\n  Reason: "@ + reason;
    let rest = "]: \""@ + old_summary + "\" -> \""@ + summary + tail;
    assert(m =~= "Update ["@ + id + rest);
    the_middle_is_contained("Update ["@, id, rest);
    let a = "Update ["@ + id + "]: \""@;
    let b = "\" -> \""@ + summary + tail;
    assert(m =~= a + old_summary + b);
    the_middle_is_contained(a, old_summary, b);
    let c = a + old_summary + "\" -> \""@;
    assert(m =~= c + summary + tail);
    the_middle_is_contained(c, summary, tail);
    lemma_holds_end(c + summary + "\"\n  Reason: "@, reason);
}

/// An entry is looked at where it was never collated, was changed since, or has not been collated for too
/// long; one that was collated recently and not changed since is not, nor is any with an image.
pub proof fn entries_are_looked_at_again_in_time(e: EntryView, age: Option<i64>, ttl: i64)
    ensures
        e.image_path.len() > 0 ==> !is_due(e, age, ttl),
        e.image_path.len() == 0 && e.collated_at.len() == 0 ==> is_due(e, age, ttl),
        e.image_path.len() == 0 && text_before(e.collated_at, e.updated_at) ==> is_due(e, age, ttl),
        e.image_path.len() == 0 && age is Some && age->Some_0 > ttl ==> is_due(e, age, ttl),
        e.image_path.len() == 0 && age is None ==> is_due(e, age, ttl),
        e.collated_at.len() > 0 && !text_before(e.collated_at, e.updated_at) && age is Some
            && age->Some_0 <= ttl ==> !is_due(e, age, ttl),
{
}

/// A run looks at the entries that are due, in their order, and at no more than it may.
pub proof fn runs_look_at_what_is_due<T>(s: Seq<T>, n: nat)
    ensures
        first_n(s, n).len() <= n,
        first_n(s, n).len() == n || first_n(s, n) == s,
        forall|i: int| 0 <= i < first_n(s, n).len() ==> #[trigger] first_n(s, n)[i] == s[i],
{
}

/// The context of a cluster holds no candidate, at most ten entries, and only what was found near it; the
/// nearest come first.
pub proof fn context_holds_no_candidate(
    found: Seq<Seq<char>>,
    candidate_ids: Set<Seq<char>>,
    id: Seq<char>,
)
    ensures
        context_ids(found, candidate_ids).len() <= 10,
        context_ids(found, candidate_ids).contains(id) ==> found.contains(id) && !candidate_ids.contains(
            id,
        ),
        found.len() <= 10 && found.contains(id) && !candidate_ids.contains(id) ==> context_ids(
            found,
            candidate_ids,
        ).contains(id),
{
    let p = |x: Seq<char>| !candidate_ids.contains(x);
    let f = found.filter(p);
    found.lemma_filter_len(p);
    if context_ids(found, candidate_ids).contains(id) {
        let c = context_ids(found, candidate_ids);
        let k = choose|k: int| 0 <= k < c.len() && c[k] == id;
        assert(f[k] == id);
        found.lemma_filter_pred(p, k);
        found.lemma_filter_contains_rev(p, id);
    }
    if found.contains(id) && !candidate_ids.contains(id) {
        let k = choose|k: int| 0 <= k < found.len() && found[k] == id;
        found.lemma_filter_contains(p, k);
    }
}

/// The entries of a cluster that nothing was done to count as kept.
pub proof fn untouched_entries_count_as_kept(cluster: Seq<EntryView>, acted_on: Set<Seq<char>>)
    ensures
        kept_count(cluster, acted_on) == cluster.filter(|e: EntryView| !acted_on.contains(e.id)).len(),
    decreases cluster.len(),
{
    reveal(Seq::filter);
    if cluster.len() > 0 {
        untouched_entries_count_as_kept(cluster.drop_last(), acted_on);
    }
}

/// Filling in timestamps takes the first entries that have no start, and changes nothing of them but the two
/// timestamps and the time of the update.
pub proof fn only_undated_entries_are_dated(
    table: Seq<EntryView>,
    entries: Seq<EntryView>,
    batch: nat,
    updated: Seq<EntryView>,
    sources: Seq<Seq<char>>,
    times: Seq<Seq<char>>,
    k: int,
)
    requires
        is_backfill(table, undated(entries, batch), updated, sources, times),
        0 <= k < updated.len(),
    ensures
        updated.len() <= batch,
        undated(entries, batch)[k].start_timestamp.len() == 0,
        entries.contains(undated(entries, batch)[k]),
        updated[k] == (EntryView {
            start_timestamp: updated[k].start_timestamp,
            end_timestamp: updated[k].end_timestamp,
            updated_at: times[k],
            ..undated(entries, batch)[k]
        }),
        sources[k] == "ancestors"@ || sources[k] == "created_at"@ && updated[k].start_timestamp
            == undated(entries, batch)[k].created_at,
{
    let todo = undated(entries, batch);
    let p = |e: EntryView| e.start_timestamp.len() == 0;
    assert(todo[k] == entries.filter(p)[k]);
    entries.lemma_filter_pred(p, k);
    assert(entries.filter(p).contains(entries.filter(p)[k]));
    entries.lemma_filter_contains_rev(p, todo[k]);
    assert(updated[k] == dated(
        todo[k],
        updated[k].start_timestamp,
        updated[k].end_timestamp,
        times[k],
    ));
}

/// Every entry whose confidence is above the floor, that was updated at least a second ago and whose
/// confidence would change enough, is lowered, in order; no other entry is.
pub proof fn old_confidences_fade(
    entries: Seq<EntryView>,
    fadings: Seq<Fading>,
    e: EntryView,
    fading: Fading,
    floor_bits: u64,
    now: Seq<char>,
)
    requires
        entries.len() == fadings.len(),
    ensures
        ({
            let r = lowered_entries(entries.push(e), fadings.push(fading), floor_bits, now);
            let t = lowered_entries(entries, fadings, floor_bits, now);
            let age = rfc3339_age(e.updated_at, now);
            if !at_most(e.confidence_bits, floor_bits) && age is Some
                && age->Some_0 > 0 && !fading.is_negligible {
                &&& r.len() == t.len() + 1
                &&& r.drop_last() == t
                &&& r.last() == (EntryView {
                    confidence_bits: fading.confidence_bits,
                    updated_at: now,
                    ..e
                })
            } else {
                r == t
            }
        }),
        lowered_entries(Seq::empty(), Seq::empty(), floor_bits, now).len() == 0,
{
    let r = lowered_entries(entries.push(e), fadings.push(fading), floor_bits, now);
    let t = lowered_entries(entries, fadings, floor_bits, now);
    assert(entries.push(e).drop_last() =~= entries);
    assert(fadings.push(fading).drop_last() =~= fadings);
    if is_lowered(e, fading, floor_bits, now) {
        assert(r.drop_last() =~= t);
    }
}

/// Each is a source of the one before it, which has no start of its own; the first is a source of the entry.
pub open spec fn is_line_of_descent(
    table: Seq<EntryView>,
    entry: EntryView,
    line: Seq<Seq<char>>,
) -> bool {
    &&& 0 < line.len() <= 10
    &&& listed_ids(entry.source_entry_ids).contains(line[0])
    &&& forall|k: int|
        0 <= k < line.len() - 1 ==> {
            &&& entry_of(table, #[trigger] line[k]) is Some
            &&& entry_of(table, line[k])->Some_0.start_timestamp.len() == 0
            &&& listed_ids(entry_of(table, line[k])->Some_0.source_entry_ids).contains(line[k + 1])
        }
}

proof fn lemma_reach(table: Seq<EntryView>, roots: Set<Seq<char>>, line: Seq<Seq<char>>, k: int)
    requires
        0 <= k < line.len(),
        roots.contains(line[0]),
        forall|m: int|
            0 <= m < line.len() - 1 ==> parents(table, #[trigger] line[m]).contains(line[m + 1]),
    ensures
        reach(table, roots, k as nat).contains(line[k]),
    decreases k,
{
    if k > 0 {
        lemma_reach(table, roots, line, k - 1);
        let r = reach(table, roots, (k - 1) as nat);
        assert(r.contains(line[k - 1]) && parents(table, line[k - 1]).contains(line[k]));
    }
}

proof fn lemma_reach_grows(table: Seq<EntryView>, roots: Set<Seq<char>>, a: nat, b: nat, x: Seq<char>)
    requires
        a <= b,
        reach(table, roots, a).contains(x),
    ensures
        reach(table, roots, b).contains(x),
    decreases b,
{
    if a < b {
        lemma_reach_grows(table, roots, a, (b - 1) as nat, x);
    }
}

/// Timestamps come from the ancestors: where an ancestor within ten generations has a start, the entry gets a
/// start from its ancestors that is no later than that one.
pub proof fn timestamps_come_from_the_ancestors(
    table: Seq<EntryView>,
    entry: EntryView,
    start: Seq<char>,
    end: Seq<char>,
    source: Seq<char>,
    line: Seq<Seq<char>>,
    t: Seq<char>,
)
    requires
        is_resolution(table, entry, start, end, source),
        is_line_of_descent(table, entry, line),
        entry_of(table, line.last()) is Some,
        entry_of(table, line.last())->Some_0.start_timestamp == t,
        t.len() > 0,
    ensures
        source == "ancestors"@,
        start.len() > 0,
        !text_before(t, start),
        entry_of(table, line.last())->Some_0.end_timestamp.len() > 0 ==> !text_before(
            end,
            entry_of(table, line.last())->Some_0.end_timestamp,
        ),
{
    let roots = listed_ids(entry.source_entry_ids);
    assert forall|m: int| 0 <= m < line.len() - 1 implies parents(table, #[trigger] line[m]).contains(
        line[m + 1],
    ) by {
        assert(entry_of(table, line[m]) is Some);
    }
    let n = line.len() - 1;
    lemma_reach(table, roots, line, n);
    lemma_reach_grows(table, roots, n as nat, 9, line[n]);
    let ids = ancestors(table, entry);
    assert(ids.contains(line.last()));
    assert(is_start(table, ids, t));
    let e = entry_of(table, line.last())->Some_0.end_timestamp;
    if e.len() > 0 {
        assert(is_end(table, ids, e));
    }
}

/// An entry that names no source is dated by when it was made.
pub proof fn entries_without_sources_are_dated_by_their_making(
    table: Seq<EntryView>,
    entry: EntryView,
    start: Seq<char>,
    end: Seq<char>,
    source: Seq<char>,
)
    requires
        is_resolution(table, entry, start, end, source),
        forall|id: Seq<char>| !#[trigger] listed_ids(entry.source_entry_ids).contains(id),
    ensures
        start == entry.created_at,
        end == entry.created_at,
        source == "created_at"@,
{
    let ids = ancestors(table, entry);
    lemma_nothing_is_reached(table, listed_ids(entry.source_entry_ids), 9);
    if exists|t: Seq<char>| #[trigger] is_start(table, ids, t) {
        let t = choose|t: Seq<char>| #[trigger] is_start(table, ids, t);
        let a = choose|a: Seq<char>| #[trigger]
            ids.contains(a) && entry_of(table, a) is Some && entry_of(
                table,
                a,
            )->Some_0.start_timestamp == t;
        assert(ids.contains(a));
    }
}

proof fn lemma_nothing_is_reached(table: Seq<EntryView>, roots: Set<Seq<char>>, d: nat)
    requires
        forall|id: Seq<char>| !#[trigger] roots.contains(id),
    ensures
        forall|id: Seq<char>| !#[trigger] reach(table, roots, d).contains(id),
    decreases d,
{
    if d > 0 {
        let r = reach(table, roots, (d - 1) as nat);
        lemma_nothing_is_reached(table, roots, (d - 1) as nat);
        assert forall|id: Seq<char>| !#[trigger] reach(table, roots, d).contains(id) by {
            assert(!r.contains(id));
            assert(!exists|a: Seq<char>| #[trigger] r.contains(a) && parents(table, a).contains(id));
        }
    }
}

/// The model sees of an entry whether it may be acted on, which one it is, and all that it says.
pub proof fn entries_are_shown_whole(p: PromptEntry, label: Seq<char>)
    ensures
        starts_with(entry_block(p, label), label),
        contains(entry_block(p, label), " ID: "@ + p.entry.id@ + " | "@),
        contains(entry_block(p, label), " | Tags: "@ + p.entry.topic_tags@ + " | "@),
        contains(entry_block(p, label), " | Key: "@ + p.entry.topic_key@ + " | "@),
        contains(entry_block(p, label), " | Confidence: "@ + p.confidence_text@),
        ends_with(entry_block(p, label), p.entry.summary_text@),
        contains(entry_block(p, label), p.entry.start_timestamp@),
        p.entry.start_timestamp@.len() > 0 ==> contains(entry_block(p, label), p.entry.end_timestamp@)
            || p.entry.end_timestamp@.len() == 0,
{
    lemma_shown_head(p, label);
    lemma_shown_tail(p, label);
}

proof fn lemma_shown_head(p: PromptEntry, label: Seq<char>)
    ensures
        starts_with(entry_block(p, label), label),
        contains(entry_block(p, label), " ID: "@ + p.entry.id@ + " | "@),
        contains(entry_block(p, label), " | Tags: "@ + p.entry.topic_tags@ + " | "@),
        contains(entry_block(p, label), " | Key: "@ + p.entry.topic_key@ + " | "@),
{
    reveal_strlit(" | ");
    reveal_strlit(" | Tags: ");
    reveal_strlit(" | Key: ");
    reveal_strlit(" | Confidence: ");
    let s = entry_block(p, label);
    let (id, tags, key) = (p.entry.id@, p.entry.topic_tags@, p.entry.topic_key@);
    let tail = p.confidence_text@ + time_part(p.entry.start_timestamp@, p.entry.end_timestamp@) + "\n  "@
        + p.entry.summary_text@;
    let conf = " | Confidence: "@;
    assert(s =~= label + " ID: "@ + id + " | Tags: "@ + tags + " | Key: "@ + key + conf + tail);
    assert(s.subrange(0, label.len() as int) =~= label);
    let bar = " | "@;
    let (t, k, c) = (" | Tags: "@.skip(3), " | Key: "@.skip(3), conf.skip(3));
    assert(" | Tags: "@ =~= bar + t);
    assert(" | Key: "@ =~= bar + k);
    assert(conf =~= bar + c);
    let x = " ID: "@ + id + bar;
    assert(s =~= label + x + (t + tags + " | Key: "@ + key + conf + tail));
    the_middle_is_contained(label, x, t + tags + " | Key: "@ + key + conf + tail);
    let y = " | Tags: "@ + tags + bar;
    let a = label + " ID: "@ + id;
    assert(s =~= a + y + (k + key + conf + tail));
    the_middle_is_contained(a, y, k + key + conf + tail);
    let z = " | Key: "@ + key + bar;
    let b = a + " | Tags: "@ + tags;
    assert(s =~= b + z + (c + tail));
    the_middle_is_contained(b, z, c + tail);
}

proof fn lemma_shown_tail(p: PromptEntry, label: Seq<char>)
    ensures
        contains(entry_block(p, label), " | Confidence: "@ + p.confidence_text@),
        ends_with(entry_block(p, label), p.entry.summary_text@),
        contains(entry_block(p, label), p.entry.start_timestamp@),
        p.entry.start_timestamp@.len() > 0 ==> contains(entry_block(p, label), p.entry.end_timestamp@)
            || p.entry.end_timestamp@.len() == 0,
{
    let s = entry_block(p, label);
    let head = label + " ID: "@ + p.entry.id@ + " | Tags: "@ + p.entry.topic_tags@ + " | Key: "@
        + p.entry.topic_key@;
    let (start, end) = (p.entry.start_timestamp@, p.entry.end_timestamp@);
    let time = time_part(start, end);
    let text = p.entry.summary_text@;
    let conf = " | Confidence: "@ + p.confidence_text@;
    assert(s =~= head + conf + (time + "\n  "@ + text));
    the_middle_is_contained(head, conf, time + "\n  "@ + text);
    assert(s.subrange(s.len() - text.len(), s.len() as int) =~= text);
    let e = Seq::<char>::empty();
    let before = head + conf;
    let after = "\n  "@ + text;
    assert(s =~= before + time + after);
    if start.len() == 0 {
        assert(start =~= e);
        the_middle_is_contained(s, e, e);
        assert(s + e + e =~= s);
    } else if end.len() > 0 && end != start {
        assert(s =~= (before + " | Time: "@) + start + (".."@ + end + after));
        the_middle_is_contained(before + " | Time: "@, start, ".."@ + end + after);
        let q = before + " | Time: "@ + start + ".."@;
        assert(s =~= q + end + after);
        the_middle_is_contained(q, end, after);
    } else {
        assert(s =~= (before + " | Time: "@) + start + after);
        the_middle_is_contained(before + " | Time: "@, start, after);
    }
}

/// Entries are shown one after the other, none is left out.
pub proof fn entries_are_shown_in_order(s: Seq<PromptEntry>, label: Seq<char>, i: int)
    requires
        0 <= i < s.len(),
    ensures
        contains(entry_blocks(s, label), entry_block(s[i], label)),
        entry_blocks(s, label) == entry_blocks(s.drop_last(), label) + entry_block(s.last(), label)
            + "\n"@,
    decreases s.len(),
{
    let t = entry_blocks(s.drop_last(), label);
    let e = Seq::<char>::empty();
    let x = entry_block(s[i], label);
    if i < s.len() - 1 {
        entries_are_shown_in_order(s.drop_last(), label, i);
        containing_survives_framing(e, t, entry_block(s.last(), label) + "\n"@, x);
        assert(e + t + (entry_block(s.last(), label) + "\n"@) =~= entry_blocks(s, label));
    } else {
        the_middle_is_contained(t, x, "\n"@);
    }
}

/// A variable has the value that is given under its name; an empty one counts as missing.
pub proof fn variables_go_by_their_names(vars: Seq<(String, String)>, key: Seq<char>, i: int)
    requires
        0 <= i <= vars.len(),
        forall|k: int| 0 <= k < i ==> (#[trigger] vars[k]).0@ != key,
        i < vars.len() ==> vars[i].0@ == key,
    ensures
        i < vars.len() && vars[i].1@.len() > 0 ==> filled_var(vars, key) == Some(vars[i].1@),
        i == vars.len() || vars[i].1@.len() == 0 ==> filled_var(vars, key) is None,
    decreases i,
{
    if i > 0 {
        let rest = vars.skip(1);
        assert(vars[0].0@ != key);
        assert forall|k: int| 0 <= k < i - 1 implies (#[trigger] rest[k]).0@ != key by {
            assert(rest[k] == vars[k + 1]);
        }
        variables_go_by_their_names(rest, key, i - 1);
    }
}

/// The definitions say who the character and the user are, where that is known, and nothing where it is not.
pub proof fn definitions_say_who_is_who(vars: Seq<(String, String)>)
    ensures
        filled_var(vars, "char_description"@) is Some ==> contains(
            definitions(vars),
            "## Character definition\n"@ + filled_var(vars, "char_description"@)->Some_0 + "\n\n"@,
        ),
        filled_var(vars, "user_description"@) is Some ==> contains(
            definitions(vars),
            "## User definition\n"@ + filled_var(vars, "user_description"@)->Some_0 + "\n\n"@,
        ),
        filled_var(vars, "char_description"@) is None && filled_var(vars, "user_description"@) is None
            ==> definitions(vars).len() == 0,
{
    let e = Seq::<char>::empty();
    let a = section("## Character definition\n"@, filled_var(vars, "char_description"@));
    let b = section("## User definition\n"@, filled_var(vars, "user_description"@));
    assert(e + a + b =~= a + b);
    the_middle_is_contained(e, a, b);
    lemma_holds_end(a, b);
}

proof fn lemma_brace_free(s: Seq<char>, pat: Seq<char>, to: Seq<char>)
    requires
        !s.contains('{'),
        pat.len() > 0,
        pat[0] == '{',
    ensures
        replace_all(s, pat, to) == s,
{
    if contains(s, pat) {
        let i = choose|i: int| #[trigger] occurs_at(s, pat, i);
        assert(s.subrange(i, i + pat.len())[0] == s[i]);
    }
    replace_absent_is_identity(s, pat, to);
}

proof fn lemma_no_vars(s: Seq<char>, vars: Seq<(String, String)>)
    requires
        !s.contains('{'),
    ensures
        with_vars(s, vars) == s,
    decreases vars.len(),
{
    reveal_strlit("{{");
    if vars.len() > 0 {
        lemma_no_vars(s, vars.drop_last());
        lemma_brace_free(s, "{{"@ + vars.last().0@ + "}}"@, vars.last().1@);
    }
}

proof fn lemma_three_free(a: Seq<char>, b: Seq<char>, c: Seq<char>)
    requires
        !a.contains('{') && !b.contains('{') && !c.contains('{'),
    ensures
        !(a + b + c).contains('{'),
{
    let s = a + b + c;
    if s.contains('{') {
        let i = choose|i: int| 0 <= i < s.len() && s[i] == '{';
        if i < a.len() {
            assert(a[i] == '{');
        } else if i < a.len() + b.len() {
            assert(b[i - a.len()] == '{');
        } else {
            assert(c[i - a.len() - b.len()] == '{');
        }
    }
}

/// The model is shown the definitions, the candidates and the context, each in its own place.
pub proof fn prompts_show_candidates_and_context(
    a: Seq<char>,
    b: Seq<char>,
    c: Seq<char>,
    d: Seq<char>,
    candidates: Seq<PromptEntry>,
    context: Seq<PromptEntry>,
    vars: Seq<(String, String)>,
)
    requires
        !a.contains('{') && !b.contains('{') && !c.contains('{') && !d.contains('{'),
        !definitions(vars).contains('{'),
        !entry_blocks(candidates, "[CANDIDATE]"@).contains('{'),
        !entry_blocks(context, "[CONTEXT]"@).contains('{'),
    ensures
        refine_prompt(
            a + "{{definitions}}"@ + b + "{{candidates}}"@ + c + "{{context}}"@ + d,
            candidates,
            context,
            vars,
        ) == a + definitions(vars) + b + entry_blocks(candidates, "[CANDIDATE]"@) + c + entry_blocks(
            context,
            "[CONTEXT]"@,
        ) + d,
{
    reveal_strlit("{{definitions}}");
    reveal_strlit("{{candidates}}");
    reveal_strlit("{{context}}");
    let (f, g, h) = ("{{definitions}}"@, "{{candidates}}"@, "{{context}}"@);
    assert(is_placeholder(f) && is_placeholder(g) && is_placeholder(h));
    assert(f[2] == 'd' && g[2] == 'c' && g[3] == 'a' && h[3] == 'o');
    let x = definitions(vars);
    let y = entry_blocks(candidates, "[CANDIDATE]"@);
    let z = entry_blocks(context, "[CONTEXT]"@);
    lemma_brace_free(a, f, x);
    lemma_brace_free(b, f, x);
    lemma_brace_free(c, f, x);
    lemma_brace_free(d, f, x);
    filling_leaves_other_placeholders(a + f + b + g + c, h, d, f, x);
    filling_leaves_other_placeholders(a + f + b, g, c, f, x);
    filling_a_placeholder(a, b, f, x);
    let ab = a + x + b;
    lemma_three_free(a, x, b);
    lemma_brace_free(ab, g, y);
    lemma_brace_free(c, g, y);
    lemma_brace_free(d, g, y);
    filling_leaves_other_placeholders(ab + g + c, h, d, g, y);
    filling_a_placeholder(ab, c, g, y);
    let abc = ab + y + c;
    lemma_three_free(ab, y, c);
    lemma_brace_free(abc, h, z);
    lemma_brace_free(d, h, z);
    filling_a_placeholder(abc, d, h, z);
    lemma_three_free(abc, z, d);
    lemma_no_vars(abc + z + d, vars);
}

/// Further variables are filled in under their names.
pub proof fn further_variables_are_filled_in(
    a: Seq<char>,
    b: Seq<char>,
    vars: Seq<(String, String)>,
    var: (String, String),
)
    requires
        !a.contains('{') && !b.contains('{'),
        !var.0@.contains('{') && !var.0@.contains('}') && var.0@.len() > 0,
        forall|i: int|
            0 <= i < vars.len() ==> (#[trigger] vars[i]).0@ != var.0@ && !vars[i].0@.contains('{')
                && !vars[i].0@.contains('}') && vars[i].0@.len() > 0,
    ensures
        with_vars(a + ("{{"@ + var.0@ + "}}"@) + b, vars.push(var)) == a + var.1@ + b,
{
    let pat = "{{"@ + var.0@ + "}}"@;
    lemma_is_placeholder(var.0@);
    lemma_others_leave(a, pat, b, vars, var.0@);
    assert(vars.push(var).drop_last() =~= vars);
    reveal_strlit("{{");
    lemma_brace_free(a, pat, var.1@);
    lemma_brace_free(b, pat, var.1@);
    filling_a_placeholder(a, b, pat, var.1@);
}

proof fn lemma_is_placeholder(name: Seq<char>)
    requires
        name.len() > 0,
        !name.contains('{') && !name.contains('}'),
    ensures
        is_placeholder("{{"@ + name + "}}"@),
{
    reveal_strlit("{{");
    reveal_strlit("}}");
    let p = "{{"@ + name + "}}"@;
    assert forall|k: int| 2 <= k < p.len() - 2 implies #[trigger] p[k] != '{' && p[k] != '}' by {
        assert(p[k] == name[k - 2]);
        assert(name.contains(name[k - 2]));
    }
}

proof fn lemma_others_leave(
    a: Seq<char>,
    pat: Seq<char>,
    b: Seq<char>,
    vars: Seq<(String, String)>,
    name: Seq<char>,
)
    requires
        !a.contains('{') && !b.contains('{'),
        pat == "{{"@ + name + "}}"@,
        is_placeholder(pat),
        forall|i: int|
            0 <= i < vars.len() ==> (#[trigger] vars[i]).0@ != name && !vars[i].0@.contains('{')
                && !vars[i].0@.contains('}') && vars[i].0@.len() > 0,
    ensures
        with_vars(a + pat + b, vars) == a + pat + b,
    decreases vars.len(),
{
    reveal_strlit("{{");
    reveal_strlit("}}");
    if vars.len() > 0 {
        let t = vars.drop_last();
        assert forall|i: int| 0 <= i < t.len() implies (#[trigger] t[i]).0@ != name
            && !t[i].0@.contains('{') && !t[i].0@.contains('}') && t[i].0@.len() > 0 by {
            assert(t[i] == vars[i]);
        }
        lemma_others_leave(a, pat, b, t, name);
        let v = vars.last();
        assert(v == vars[vars.len() - 1]);
        let q = "{{"@ + v.0@ + "}}"@;
        lemma_is_placeholder(v.0@);
        assert(q != pat) by {
            if q == pat {
                assert(v.0@ =~= q.subrange(2, q.len() - 2));
                assert(name =~= pat.subrange(2, pat.len() - 2));
            }
        }
        lemma_brace_free(a, q, v.1@);
        lemma_brace_free(b, q, v.1@);
        filling_leaves_other_placeholders(a, pat, b, q, v.1@);
    }
}

/// A run looks at the entries that are due, all of them where it may, and at no others.
pub proof fn runs_look_at_due_entries(
    manager: CollationManager,
    entries: Seq<EntryView>,
    now: Seq<char>,
    limit: Option<usize>,
    r: Seq<EntryView>,
    e: EntryView,
)
    requires
        manager.are_selected(entries, now, limit, r),
    ensures
        r.contains(e) ==> entries.contains(e) && is_due(
            e,
            rfc3339_age(e.collated_at, now),
            manager.config.reconsider_ttl_seconds,
        ),
        (limit is None || limit->Some_0 >= entries.len()) && entries.contains(e) && is_due(
            e,
            rfc3339_age(e.collated_at, now),
            manager.config.reconsider_ttl_seconds,
        ) ==> r.contains(e),
        limit is Some ==> r.len() <= limit->Some_0,
{
    let ttl = manager.config.reconsider_ttl_seconds;
    let p = |x: EntryView|
        is_due(x, rfc3339_age(x.collated_at, now), manager.config.reconsider_ttl_seconds);
    let all = manager.due_entries(entries, now);
    assert(all == entries.filter(p));
    entries.lemma_filter_len(p);
    if r.contains(e) {
        let k = choose|k: int| 0 <= k < r.len() && r[k] == e;
        assert(all[k] == e);
        entries.lemma_filter_pred(p, k);
        assert(all.contains(all[k]));
        entries.lemma_filter_contains_rev(p, e);
    }
    if entries.contains(e) && is_due(e, rfc3339_age(e.collated_at, now), ttl) {
        let k = choose|k: int| 0 <= k < entries.len() && entries[k] == e;
        entries.lemma_filter_contains(p, k);
    }
}

/// The context of a cluster holds active entries that were found near it and are no candidates.
pub proof fn context_is_active_and_near(
    found: Seq<Seq<char>>,
    entries: Seq<EntryView>,
    candidate_ids: Set<Seq<char>>,
    r: Seq<EntryView>,
    e: EntryView,
)
    requires
        are_context(found, entries, candidate_ids, r),
    ensures
        r.contains(e) ==> entries.contains(e) && e.status == "active"@ && found.contains(e.id)
            && !candidate_ids.contains(e.id),
        found.len() <= 10 && entries.contains(e) && e.status == "active"@ && found.contains(e.id)
            && !candidate_ids.contains(e.id) ==> r.contains(e),
{
    let p = |x: EntryView| context_ids(found, candidate_ids).contains(x.id) && is_active(x);
    assert(r == entries.filter(p));
    context_holds_no_candidate(found, candidate_ids, e.id);
    if r.contains(e) {
        let k = choose|k: int| 0 <= k < r.len() && r[k] == e;
        entries.lemma_filter_pred(p, k);
        entries.lemma_filter_contains_rev(p, e);
    }
    if entries.contains(e) {
        let k = choose|k: int| 0 <= k < entries.len() && entries[k] == e;
        if p(e) {
            entries.lemma_filter_contains(p, k);
        }
    }
}

/// A run begins with what the database holds; its candidates are those that were selected, and all of them
/// will be stamped.
pub proof fn runs_begin_with_their_candidates(
    r: RefineRun,
    table: Seq<Entry>,
    candidates: Seq<Entry>,
    active_count: usize,
    outcome: CollationOutcome,
    i: int,
)
    requires
        begins(r, table, candidates, active_count, outcome),
    ensures
        r.table@ == table,
        r.candidate_ids@.len() == candidates.len(),
        0 <= i < candidates.len() ==> r.candidate_ids@[i]@ == candidates[i].id@ && r.processed@[i]@
            == candidates[i].id@,
        r.acted_on@.len() == 0,
        candidates.len() > 0 ==> r.outcome == outcome,
{
    let t = texts(r.candidate_ids@);
    let u = texts(r.processed@);
    assert(t.len() == r.candidate_ids@.len());
    assert(u.len() == r.processed@.len());
    if 0 <= i < candidates.len() {
        assert(t[i] == r.candidate_ids@[i]@);
        assert(u[i] == r.processed@[i]@);
    }
}

/// The end of a cluster changes no entry and no candidate; only what was kept is counted, and the next
/// cluster starts afresh.
pub proof fn closing_a_cluster_changes_no_entry(
    before: RefineRun,
    after: RefineRun,
    cluster: Seq<EntryView>,
)
    requires
        closing_step(before, after, cluster),
        before.outcome.refine_kept + cluster.len() <= usize::MAX,
    ensures
        after.table == before.table,
        after.candidate_ids == before.candidate_ids,
        after.processed == before.processed,
        after.acted_on@.len() == 0,
        after.outcome.refine_kept == before.outcome.refine_kept + cluster.filter(
            |e: EntryView| !text_set(before.acted_on@).contains(e.id),
        ).len(),
        after.outcome.refine_merges == before.outcome.refine_merges,
        after.outcome.entries_skipped == before.outcome.entries_skipped,
{
    untouched_entries_count_as_kept(cluster, text_set(before.acted_on@));
    cluster.lemma_filter_len(|e: EntryView| !text_set(before.acted_on@).contains(e.id));
}

/// Of all entries each is either lowered or passed over, and both are counted.
pub proof fn fading_counts_every_entry(
    entries: Seq<EntryView>,
    fadings: Seq<Fading>,
    floor_bits: u64,
    half_life_days: Seq<char>,
    now: Seq<char>,
    old_outcome: CollationOutcome,
    outcome: CollationOutcome,
    w: DecayWrites,
)
    requires
        decay_step(
            entries,
            fadings,
            floor_bits,
            half_life_days,
            now,
            old_outcome,
            outcome,
            w,
        ),
        entries.len() == fadings.len(),
        old_outcome.entries_decayed + entries.len() <= usize::MAX,
        old_outcome.entries_skipped + entries.len() <= usize::MAX,
    ensures
        outcome.entries_decayed - old_outcome.entries_decayed == w.updated@.len(),
        (outcome.entries_decayed - old_outcome.entries_decayed) + (outcome.entries_skipped
            - old_outcome.entries_skipped) == entries.len(),
        (w.changelog is Some) <==> outcome.entries_decayed > 0,
        w.changelog is Some ==> contains(w.changelog->Some_0@, half_life_days) && contains(
            w.changelog->Some_0@,
            decimal(outcome.entries_decayed as nat),
        ),
        outcome.refine_merges == old_outcome.refine_merges,
{
    lemma_lowered_len(entries, fadings, floor_bits, now);
    assert(entries_view(w.updated@).len() == w.updated@.len());
    let n = decimal(outcome.entries_decayed as nat);
    let (a, b, c) = ("Confidence decay: "@, " entries decayed (half-life "@, "d)"@);
    if w.changelog is Some {
        let s = w.changelog->Some_0@;
        assert(s == a + n + b + half_life_days + c);
        the_middle_is_contained(a + n + b, half_life_days, c);
        assert(s =~= a + n + (b + half_life_days + c));
        the_middle_is_contained(a, n, b + half_life_days + c);
    }
}

proof fn lemma_lowered_len(
    entries: Seq<EntryView>,
    fadings: Seq<Fading>,
    floor_bits: u64,
    now: Seq<char>,
)
    requires
        entries.len() == fadings.len(),
    ensures
        lowered_entries(entries, fadings, floor_bits, now).len() <= entries.len(),
    decreases entries.len(),
{
    if entries.len() > 0 {
        lemma_lowered_len(entries.drop_last(), fadings.drop_last(), floor_bits, now);
    }
}

/// Every entry that lacked timestamps is counted once, and the audit text says how many got theirs from
/// their ancestors.
pub proof fn dating_is_counted(
    before: Seq<EntryView>,
    after: Seq<EntryView>,
    todo: Seq<EntryView>,
    times: Seq<Seq<char>>,
    old_outcome: CollationOutcome,
    outcome: CollationOutcome,
    w: BackfillWrites,
)
    requires
        backfill_step(before, after, todo, times, old_outcome, outcome, w),
        old_outcome.timestamps_backfilled + todo.len() <= usize::MAX,
    ensures
        outcome.timestamps_backfilled == old_outcome.timestamps_backfilled + todo.len(),
        outcome.entries_decayed == old_outcome.entries_decayed,
        w.updated@.len() == todo.len(),
        (w.changelog is Some) <==> todo.len() > 0,
        w.changelog is Some ==> contains(
            w.changelog->Some_0@,
            " entries ("@ + decimal(
                texts(w.sources@).filter(|t: Seq<char>| t == "ancestors"@).len(),
            ) + " from ancestors, "@,
        ) && contains(
            w.changelog->Some_0@,
            " for "@ + decimal(outcome.timestamps_backfilled as nat) + " entries"@,
        ),
{
    let sources = texts(w.sources@);
    assert(entries_view(w.updated@).len() == w.updated@.len());
    lemma_from_ancestors(sources);
    if w.changelog is Some {
        let total = outcome.timestamps_backfilled as nat;
        let n = from_ancestors(sources);
        let m = (todo.len() - from_ancestors(sources)) as nat;
        assert(w.changelog->Some_0@ == backfill_audit(total, n, m));
        lemma_backfill_audit(total, n, m);
    }
}

#[verifier::spinoff_prover]
#[verifier::rlimit(30)]
proof fn lemma_backfill_audit(total: nat, n: nat, m: nat)
    ensures
        contains(
            backfill_audit(total, n, m),
            " entries ("@ + decimal(n) + " from ancestors, "@,
        ),
        contains(backfill_audit(total, n, m), " for "@ + decimal(total) + " entries"@),
{
    let (t, x, y) = (decimal(total), decimal(n), decimal(m));
    let (a, b, c, d) = (
        "Backfilled timestamps for "@,
        " entries ("@,
        " from ancestors, "@,
        " from created_at)"@,
    );
    let s = backfill_audit(total, n, m);
    assert(s == a + t + b + x + c + y + d);
    let end = y + d;
    assert(s =~= (a + t) + (b + x + c) + end);
    the_middle_is_contained(a + t, b + x + c, end);
    reveal_strlit("Backfilled timestamps for ");
    reveal_strlit("Backfilled timestamps");
    reveal_strlit(" for ");
    reveal_strlit(" entries (");
    reveal_strlit(" entries");
    assert(a =~= "Backfilled timestamps"@ + " for "@);
    assert(b =~= " entries"@ + seq![' ', '(']);
    let mid = " for "@ + t + " entries"@;
    let tail = seq![' ', '('] + (x + c + y + d);
    let rest = x + c + y + d;
    assert(s =~= a + t + b + rest);
    assert(a + t + b + rest =~= "Backfilled timestamps"@ + mid + tail);
    the_middle_is_contained("Backfilled timestamps"@, mid, tail);
}

proof fn lemma_from_ancestors(sources: Seq<Seq<char>>)
    ensures
        from_ancestors(sources) == sources.filter(|t: Seq<char>| t == "ancestors"@).len(),
    decreases sources.len(),
{
    reveal(Seq::filter);
    if sources.len() > 0 {
        lemma_from_ancestors(sources.drop_last());
    }
}

}
