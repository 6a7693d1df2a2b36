//! Carrying out what a model proposes for a cluster of entries. The run keeps a copy of the entries in
//! step with the database, decides on each proposal, and says what has to be written.
use crate::clock::{are_utc_texts, is_stamp, utc_now_text, utc_now_texts, utc_stamp};
use crate::memory::collation::ancestry::{
    can_be_listed, holds_text, listed_identifiers_are_read_back, listed_ids, text_set,
};
use crate::memory::collation::is_active;
use crate::memory::collation::types::{CollationOutcome, RefineAction, RefineEntryFields};
use crate::memory::confidence::{clamp_score, clamped, ONE_BITS, ZERO_BITS};
use crate::memory::db::{
    entries_view, entry_of, find_entry, replace_entry, replaced, Entry, EntryView,
};
use crate::memory::retrieval_agent::{entry_id_at, is_entry_id};
use crate::text::chars::is_space;
use crate::text::compose::{cat3, cat4, cat5, same_text};
use crate::text::number::{decimal, decimal_text, lemma_decimal_digits};
use crate::text::order::{is_before, text_before};
use crate::text::split::{join_texts, joined, lemma_texts_push, texts};
use vstd::prelude::*;
use vstd::string::*;

verus! {

broadcast use vstd::string::group_string_axioms;

/// The entry may be acted on: it is a candidate and still active.
pub open spec fn actionable(table: Seq<EntryView>, candidates: Set<Seq<char>>, id: Seq<char>) -> bool {
    candidates.contains(id) && entry_of(table, id) is Some && is_active(
        entry_of(table, id)->Some_0,
    )
}

/// The entries may be merged: there are at least two, and all may be acted on.
pub open spec fn mergeable(
    table: Seq<EntryView>,
    candidates: Set<Seq<char>>,
    ids: Seq<Seq<char>>,
) -> bool {
    ids.len() >= 2 && forall|i: int|
        0 <= i < ids.len() ==> actionable(table, candidates, #[trigger] ids[i])
}

/// The entries with these identifiers.
pub open spec fn entries_of(table: Seq<EntryView>, ids: Seq<Seq<char>>) -> Seq<EntryView> {
    Seq::new(ids.len(), |i: int| entry_of(table, ids[i])->Some_0)
}

/// The earliest start; empty where none is known.
pub open spec fn earliest_start(s: Seq<EntryView>) -> Seq<char>
    decreases s.len(),
{
    if s.len() == 0 {
        Seq::empty()
    } else {
        let t = earliest_start(s.drop_last());
        let x = s.last().start_timestamp;
        if x.len() > 0 && (t.len() == 0 || text_before(x, t)) {
            x
        } else {
            t
        }
    }
}

/// The latest end; empty where none is known.
pub open spec fn latest_end(s: Seq<EntryView>) -> Seq<char>
    decreases s.len(),
{
    if s.len() == 0 {
        Seq::empty()
    } else {
        let t = latest_end(s.drop_last());
        let x = s.last().end_timestamp;
        if x.len() > 0 && (t.len() == 0 || text_before(t, x)) {
            x
        } else {
            t
        }
    }
}

/// How many messages the entries sum up together.
pub open spec fn message_sum(s: Seq<EntryView>) -> int
    decreases s.len(),
{
    if s.len() == 0 {
        0
    } else {
        message_sum(s.drop_last()) + s.last().message_count
    }
}

/// The messages can be counted.
pub open spec fn countable(s: Seq<EntryView>) -> bool {
    forall|k: int|
        0 <= k <= s.len() ==> i64::MIN <= message_sum(#[trigger] s.take(k)) <= i64::MAX
}

/// The entry that takes the place of merged entries.
pub open spec fn merged_entry(
    sources: Seq<EntryView>,
    ids: Seq<Seq<char>>,
    result: RefineEntryFields,
    new_id: Seq<char>,
    now: Seq<char>,
) -> EntryView {
    EntryView {
        id: new_id,
        memory_type: sources[0].memory_type,
        source: "collation_refine"@,
        reason: "refine_merge"@,
        status: "active"@,
        confidence_bits: clamped(result.confidence_bits, ZERO_BITS, ONE_BITS),
        summary_text: result.summary_text@,
        topic_tags: result.topic_tags@,
        topic_key: result.topic_key@,
        start_timestamp: earliest_start(sources),
        end_timestamp: latest_end(sources),
        message_count: message_sum(sources) as i64,
        source_entry_ids: joined(ids, ","@),
        related_entry_ids: Seq::empty(),
        superseded_by: Seq::empty(),
        created_at: now,
        updated_at: now,
        entry_type: sources[0].entry_type,
        image_path: Seq::empty(),
        collated_at: Seq::empty(),
        file_path: Seq::empty(),
    }
}

/// One of the entries that take the place of a split entry.
pub open spec fn split_entry(
    original: EntryView,
    result: RefineEntryFields,
    source_id: Seq<char>,
    new_id: Seq<char>,
    now: Seq<char>,
) -> EntryView {
    EntryView {
        id: new_id,
        memory_type: original.memory_type,
        source: "collation_refine"@,
        reason: "refine_split"@,
        status: "active"@,
        confidence_bits: clamped(result.confidence_bits, ZERO_BITS, ONE_BITS),
        summary_text: result.summary_text@,
        topic_tags: result.topic_tags@,
        topic_key: result.topic_key@,
        start_timestamp: original.start_timestamp,
        end_timestamp: original.end_timestamp,
        message_count: original.message_count,
        source_entry_ids: source_id,
        related_entry_ids: Seq::empty(),
        superseded_by: Seq::empty(),
        created_at: now,
        updated_at: now,
        entry_type: original.entry_type,
        image_path: Seq::empty(),
        collated_at: Seq::empty(),
        file_path: Seq::empty(),
    }
}

/// A rewritten entry.
pub open spec fn rewritten(e: EntryView, result: RefineEntryFields, now: Seq<char>) -> EntryView {
    EntryView {
        summary_text: result.summary_text@,
        topic_tags: result.topic_tags@,
        topic_key: result.topic_key@,
        confidence_bits: clamped(result.confidence_bits, ZERO_BITS, ONE_BITS),
        updated_at: now,
        ..e
    }
}

/// The table with the entries called `id` superseded by `by` at a time.
pub open spec fn superseded_one(
    table: Seq<EntryView>,
    id: Seq<char>,
    by: Seq<char>,
    at: Seq<char>,
) -> Seq<EntryView> {
    Seq::new(
        table.len(),
        |i: int|
            if table[i].id == id {
                EntryView { status: "superseded"@, superseded_by: by, updated_at: at, ..table[i] }
            } else {
                table[i]
            },
    )
}

/// The table with the entries of `ids` superseded by `by`, one after the other, each at its own time.
pub open spec fn superseded(
    table: Seq<EntryView>,
    ids: Seq<Seq<char>>,
    by: Seq<char>,
    times: Seq<Seq<char>>,
) -> Seq<EntryView>
    decreases ids.len(),
{
    if ids.len() == 0 {
        table
    } else {
        superseded_one(
            superseded(table, ids.drop_last(), by, times.drop_last()),
            ids.last(),
            by,
            times.last(),
        )
    }
}

pub proof fn lemma_superseded_entry(
    table: Seq<EntryView>,
    ids: Seq<Seq<char>>,
    by: Seq<char>,
    times: Seq<Seq<char>>,
    i: int,
)
    requires
        0 <= i < table.len(),
    ensures
        superseded(table, ids, by, times).len() == table.len(),
        superseded(table, ids, by, times)[i] == if ids.contains(table[i].id) {
            EntryView {
                status: "superseded"@,
                superseded_by: by,
                updated_at: superseded(table, ids, by, times)[i].updated_at,
                ..table[i]
            }
        } else {
            table[i]
        },
    decreases ids.len(),
{
    if ids.len() > 0 {
        let t = ids.drop_last();
        lemma_superseded_entry(table, t, by, times.drop_last(), i);
        let id = table[i].id;
        if t.contains(id) {
            let k = choose|k: int| 0 <= k < t.len() && t[k] == id;
            assert(ids[k] == id);
        }
        if ids.contains(id) && ids.last() != id {
            let k = choose|k: int| 0 <= k < ids.len() && ids[k] == id;
            assert(t[k] == id);
        }
        if ids.last() == id {
            assert(ids[ids.len() - 1] == id);
        }
    }
}

/// One line of an audit text: an identifier and a summary.
pub open spec fn audit_line(id: Seq<char>, summary: Seq<char>) -> Seq<char> {
    "  - ["@ + id + "] "@ + summary
}

/// The audit lines of entries.
pub open spec fn audit_lines(s: Seq<EntryView>) -> Seq<Seq<char>> {
    Seq::new(s.len(), |i: int| audit_line(s[i].id, s[i].summary_text))
}

/// The audit text of a merge.
pub open spec fn merge_audit(
    sources: Seq<EntryView>,
    new_id: Seq<char>,
    summary: Seq<char>,
    reason: Seq<char>,
) -> Seq<char> {
    "Merge "@ + decimal(sources.len()) + " entries -> "@ + new_id + ":\n"@ + joined(
        audit_lines(sources),
        "\n"@,
    ) + "\n  => "@ + summary + "\n  Reason: "@ + reason
}

/// The audit text of a split.
pub open spec fn split_audit(
    source_id: Seq<char>,
    original: Seq<char>,
    parts: Seq<EntryView>,
    reason: Seq<char>,
) -> Seq<char> {
    "Split ["@ + source_id + "] \""@ + original + "\" into "@ + decimal(parts.len()) + " parts:\n"@
        + joined(audit_lines(parts), "\n"@) + "\n  Reason: "@ + reason
}

/// The audit text of a rewrite.
pub open spec fn update_audit(
    id: Seq<char>,
    old_summary: Seq<char>,
    new_summary: Seq<char>,
    reason: Seq<char>,
) -> Seq<char> {
    "Update ["@ + id + "]: \""@ + old_summary + "\" -> \""@ + new_summary + "\"\n  Reason: "@ + reason
}

/// What has to be written for a merge or a split.
#[derive(Debug)]
pub struct RefineWrites {
    /// New entries to store and to index.
    pub created: Vec<Entry>,
    /// Entries that are superseded.
    pub superseded_ids: Vec<String>,
    /// When each of them is superseded.
    pub superseded_at: Vec<String>,
    /// What supersedes them.
    pub superseded_by: String,
    /// The audit text, linked to the new entries.
    pub changelog: String,
}

/// What has to be written for a rewrite.
#[derive(Debug)]
pub struct UpdateWrites {
    /// The entry to store and to index.
    pub updated: Entry,
    /// The audit text.
    pub changelog: String,
}

/// A refine phase in progress.
#[derive(Debug)]
pub struct RefineRun {
    /// The entries of the database.
    pub table: Vec<Entry>,
    /// The entries that may be acted on.
    pub candidate_ids: Vec<String>,
    /// The entries to stamp as collated.
    pub processed: Vec<String>,
    /// The entries of the current cluster that were acted on.
    pub acted_on: Vec<String>,
    /// What was done so far.
    pub outcome: CollationOutcome,
    /// The number of the next new entry.
    pub id_counter: usize,
    /// The time of the run.
    pub now: String,
}

/// The identifiers of entries.
pub open spec fn ids_of(s: Seq<EntryView>) -> Seq<Seq<char>> {
    Seq::new(s.len(), |i: int| s[i].id)
}

fn collect_sources(table: &Vec<Entry>, candidates: &Vec<String>, ids: &Vec<String>) -> (r: Option<
    Vec<Entry>,
>)
    ensures
        match r {
            Some(v) => mergeable(entries_view(table@), text_set(candidates@), texts(ids@))
                && entries_view(v@) == entries_of(entries_view(table@), texts(ids@)),
            None => !mergeable(entries_view(table@), text_set(candidates@), texts(ids@)),
        },
{
    let ghost t = entries_view(table@);
    let ghost cand = text_set(candidates@);
    let ghost want = texts(ids@);
    if ids.len() < 2 {
        return None;
    }
    let mut out: Vec<Entry> = Vec::new();
    let mut i: usize = 0;
    while i < ids.len()
        invariant
            i <= ids.len(),
            ids.len() >= 2,
            t == entries_view(table@),
            cand == text_set(candidates@),
            want == texts(ids@),
            out.len() == i,
            forall|k: int| 0 <= k < i ==> actionable(t, cand, #[trigger] want[k]),
            forall|k: int| 0 <= k < i ==> #[trigger] out@[k]@ == entry_of(t, want[k])->Some_0,
        decreases ids.len() - i,
    {
        assert(want[i as int] == ids@[i as int]@);
        if !holds_text(candidates, ids[i].as_str()) {
            assert(!actionable(t, cand, want[i as int]));
            return None;
        }
        match find_entry(table, ids[i].as_str()) {
            Some(k) => {
                if !same_text(table[k].status.as_str(), "active") {
                    assert(!actionable(t, cand, want[i as int]));
                    return None;
                }
                out.push(table[k].copied());
            },
            None => {
                assert(!actionable(t, cand, want[i as int]));
                return None;
            },
        }
        i += 1;
    }
    assert(entries_view(out@) =~= entries_of(t, want));
    Some(out)
}

fn find_earliest_start(sources: &Vec<Entry>) -> (r: String)
    ensures
        r@ == earliest_start(entries_view(sources@)),
{
    let ghost s = entries_view(sources@);
    let mut out = String::new();
    let mut i: usize = 0;
    proof {
        assert(out@ =~= earliest_start(s.take(0)));
    }
    while i < sources.len()
        invariant
            i <= sources.len(),
            s == entries_view(sources@),
            out@ == earliest_start(s.take(i as int)),
        decreases sources.len() - i,
    {
        proof {
            assert(s.take(i + 1).drop_last() =~= s.take(i as int));
            assert(s.take(i + 1).last() == sources@[i as int]@);
        }
        let x = sources[i].start_timestamp.as_str();
        if !x.is_empty() && (out.as_str().is_empty() || is_before(x, out.as_str())) {
            out = x.to_owned();
        }
        i += 1;
    }
    proof {
        assert(s.take(i as int) =~= s);
    }
    out
}

fn find_latest_end(sources: &Vec<Entry>) -> (r: String)
    ensures
        r@ == latest_end(entries_view(sources@)),
{
    let ghost s = entries_view(sources@);
    let mut out = String::new();
    let mut i: usize = 0;
    proof {
        assert(out@ =~= latest_end(s.take(0)));
    }
    while i < sources.len()
        invariant
            i <= sources.len(),
            s == entries_view(sources@),
            out@ == latest_end(s.take(i as int)),
        decreases sources.len() - i,
    {
        proof {
            assert(s.take(i + 1).drop_last() =~= s.take(i as int));
            assert(s.take(i + 1).last() == sources@[i as int]@);
        }
        let x = sources[i].end_timestamp.as_str();
        if !x.is_empty() && (out.as_str().is_empty() || is_before(out.as_str(), x)) {
            out = x.to_owned();
        }
        i += 1;
    }
    proof {
        assert(s.take(i as int) =~= s);
    }
    out
}

fn sum_messages(sources: &Vec<Entry>) -> (r: i64)
    requires
        countable(entries_view(sources@)),
    ensures
        r == message_sum(entries_view(sources@)),
{
    let ghost s = entries_view(sources@);
    let mut sum: i64 = 0;
    let mut i: usize = 0;
    proof {
        assert(message_sum(s.take(0)) == 0);
    }
    while i < sources.len()
        invariant
            i <= sources.len(),
            s == entries_view(sources@),
            countable(s),
            sum == message_sum(s.take(i as int)),
        decreases sources.len() - i,
    {
        proof {
            assert(s.take(i + 1).drop_last() =~= s.take(i as int));
            assert(s.take(i + 1).last() == sources@[i as int]@);
            assert(i64::MIN <= message_sum(s.take(i + 1)) <= i64::MAX);
        }
        sum = sum + sources[i].message_count;
        i += 1;
    }
    proof {
        assert(s.take(i as int) =~= s);
    }
    sum
}

fn can_count(sources: &Vec<Entry>) -> (r: bool)
    ensures
        r == countable(entries_view(sources@)),
{
    let ghost s = entries_view(sources@);
    let mut sum: i64 = 0;
    let mut i: usize = 0;
    proof {
        assert(message_sum(s.take(0)) == 0);
    }
    while i < sources.len()
        invariant
            i <= sources.len(),
            s == entries_view(sources@),
            s.len() == sources@.len(),
            sum == message_sum(s.take(i as int)),
            forall|k: int|
                0 <= k <= i ==> i64::MIN <= message_sum(#[trigger] s.take(k)) <= i64::MAX,
        decreases sources.len() - i,
    {
        proof {
            assert(s.take(i + 1).drop_last() =~= s.take(i as int));
            assert(s.take(i + 1).last() == sources@[i as int]@);
        }
        match sum.checked_add(sources[i].message_count) {
            Some(n) => {
                sum = n;
            },
            None => {
                assert(!(i64::MIN <= message_sum(s.take(i + 1)) <= i64::MAX));
                return false;
            },
        }
        i += 1;
    }
    true
}

fn list_entries(entries: &Vec<Entry>) -> (r: String)
    ensures
        r@ == joined(audit_lines(entries_view(entries@)), "\n"@),
{
    let ghost s = entries_view(entries@);
    let mut lines: Vec<String> = Vec::new();
    let mut i: usize = 0;
    while i < entries.len()
        invariant
            i <= entries.len(),
            s == entries_view(entries@),
            lines.len() == i,
            forall|k: int| 0 <= k < i ==> #[trigger] lines@[k]@ == audit_lines(s)[k],
        decreases entries.len() - i,
    {
        lines.push(
            cat4("  - [", entries[i].id.as_str(), "] ", entries[i].summary_text.as_str()),
        );
        i += 1;
    }
    assert(texts(lines@) =~= audit_lines(s));
    join_texts(&lines, "\n")
}

fn clamp_confidence(bits: u64) -> (r: u64)
    ensures
        r == clamped(bits, ZERO_BITS, ONE_BITS),
{
    clamp_score(bits, ZERO_BITS, ONE_BITS)
}

impl RefineRun {
    /// The entries as plain values.
    pub open spec fn entries(&self) -> Seq<EntryView> {
        entries_view(self.table@)
    }

    /// The entries that may be acted on.
    pub open spec fn candidates(&self) -> Set<Seq<char>> {
        text_set(self.candidate_ids@)
    }

    /// There is room for `n` more of everything that is counted.
    pub open spec fn has_room(&self, n: nat) -> bool {
        &&& self.id_counter + n <= usize::MAX
        &&& self.outcome.refine_merges < usize::MAX
        &&& self.outcome.refine_splits < usize::MAX
        &&& self.outcome.refine_updates < usize::MAX
        &&& self.outcome.refine_new_entries + n <= usize::MAX
    }

    fn supersede_one(&mut self, id: &str, by: &str, at: &str)
        ensures
            final(self).entries() == superseded_one(old(self).entries(), id@, by@, at@),
            final(self).candidate_ids == old(self).candidate_ids,
            final(self).processed == old(self).processed,
            final(self).acted_on == old(self).acted_on,
            final(self).outcome == old(self).outcome,
            final(self).id_counter == old(self).id_counter,
            final(self).now == old(self).now,
    {
        let ghost before = self.entries();
        let ghost want = superseded_one(before, id@, by@, at@);
        let mut i: usize = 0;
        while i < self.table.len()
            invariant
                i <= self.table.len(),
                self.table@.len() == before.len(),
                want == superseded_one(before, id@, by@, at@),
                forall|k: int| 0 <= k < i ==> #[trigger] self.table@[k]@ == want[k],
                forall|k: int|
                    i <= k < self.table@.len() ==> #[trigger] self.table@[k]@ == before[k],
                self.candidate_ids == old(self).candidate_ids,
                self.processed == old(self).processed,
                self.acted_on == old(self).acted_on,
                self.outcome == old(self).outcome,
                self.id_counter == old(self).id_counter,
                self.now == old(self).now,
            decreases self.table.len() - i,
        {
            assert(self.table@[i as int]@ == before[i as int]);
            if same_text(self.table[i].id.as_str(), id) {
                let mut e = self.table[i].copied();
                e.status = "superseded".to_owned();
                e.superseded_by = by.to_owned();
                e.updated_at = at.to_owned();
                assert(e@ == want[i as int]);
                self.table.set(i, e);
            }
            i += 1;
        }
        assert(self.entries() =~= want);
    }

    fn supersede(&mut self, ids: &Vec<String>, by: &str, times: &Vec<String>)
        requires
            times@.len() == ids@.len(),
        ensures
            final(self).entries() == superseded(
                old(self).entries(),
                texts(ids@),
                by@,
                texts(times@),
            ),
            final(self).candidate_ids == old(self).candidate_ids,
            final(self).processed == old(self).processed,
            final(self).acted_on == old(self).acted_on,
            final(self).outcome == old(self).outcome,
            final(self).id_counter == old(self).id_counter,
            final(self).now == old(self).now,
    {
        let ghost before = self.entries();
        let ghost all = texts(ids@);
        let ghost at = texts(times@);
        let mut i: usize = 0;
        while i < ids.len()
            invariant
                i <= ids.len(),
                times@.len() == ids@.len(),
                all == texts(ids@),
                at == texts(times@),
                self.entries() == superseded(before, all.take(i as int), by@, at.take(i as int)),
                self.candidate_ids == old(self).candidate_ids,
                self.processed == old(self).processed,
                self.acted_on == old(self).acted_on,
                self.outcome == old(self).outcome,
                self.id_counter == old(self).id_counter,
                self.now == old(self).now,
            decreases ids.len() - i,
        {
            proof {
                assert(all.take(i + 1).drop_last() =~= all.take(i as int));
                assert(at.take(i + 1).drop_last() =~= at.take(i as int));
                assert(all.take(i + 1).last() == ids@[i as int]@);
                assert(at.take(i + 1).last() == times@[i as int]@);
            }
            self.supersede_one(ids[i].as_str(), by, times[i].as_str());
            i += 1;
        }
        proof {
            assert(all.take(i as int) =~= all);
            assert(at.take(i as int) =~= at);
        }
    }

    fn note_processed(&mut self, id: &str)
        ensures
            text_set(final(self).processed@) == text_set(old(self).processed@).insert(id@),
            final(self).table == old(self).table,
            final(self).candidate_ids == old(self).candidate_ids,
            final(self).acted_on == old(self).acted_on,
            final(self).outcome == old(self).outcome,
            final(self).id_counter == old(self).id_counter,
            final(self).now == old(self).now,
    {
        if !holds_text(&self.processed, id) {
            let s = id.to_owned();
            proof {
                crate::memory::collation::ancestry::lemma_text_set_push(self.processed@, s);
            }
            self.processed.push(s);
        } else {
            assert(text_set(self.processed@) =~= text_set(self.processed@).insert(id@));
        }
    }

    fn note_acted_on(&mut self, id: &str)
        ensures
            text_set(final(self).acted_on@) == text_set(old(self).acted_on@).insert(id@),
            final(self).table == old(self).table,
            final(self).candidate_ids == old(self).candidate_ids,
            final(self).processed == old(self).processed,
            final(self).outcome == old(self).outcome,
            final(self).id_counter == old(self).id_counter,
            final(self).now == old(self).now,
    {
        if !holds_text(&self.acted_on, id) {
            let s = id.to_owned();
            proof {
                crate::memory::collation::ancestry::lemma_text_set_push(self.acted_on@, s);
            }
            self.acted_on.push(s);
        } else {
            assert(text_set(self.acted_on@) =~= text_set(self.acted_on@).insert(id@));
        }
    }

    /// Merges entries into a new one called `new_id`, if they may be merged. The entries are superseded
    /// by the new one, each at its time, and it is stored beside them.
    pub fn apply_merge_as(
        &mut self,
        source_entry_ids: &Vec<String>,
        result: &RefineEntryFields,
        reason: &str,
        new_id: String,
        times: Vec<String>,
    ) -> (r: Option<RefineWrites>)
        requires
            old(self).has_room(1),
            times@.len() == source_entry_ids@.len(),
            mergeable(old(self).entries(), old(self).candidates(), texts(source_entry_ids@))
                ==> countable(entries_of(old(self).entries(), texts(source_entry_ids@))),
        ensures
            ({
                let ids = texts(source_entry_ids@);
                let before = old(self).entries();
                let sources = entries_of(before, ids);
                let entry = merged_entry(sources, ids, *result, new_id@, old(self).now@);
                match r {
                    Some(w) => {
                        &&& mergeable(before, old(self).candidates(), ids)
                        &&& entries_view(w.created@) == seq![entry]
                        &&& texts(w.superseded_ids@) == ids
                        &&& w.superseded_at == times
                        &&& w.superseded_by@ == new_id@
                        &&& w.changelog@ == merge_audit(
                            sources,
                            new_id@,
                            result.summary_text@,
                            reason@,
                        )
                        &&& final(self).entries() == superseded(
                            before,
                            ids,
                            new_id@,
                            texts(times@),
                        ).push(entry)
                        &&& text_set(final(self).processed@) == text_set(
                            old(self).processed@,
                        ).insert(new_id@)
                        &&& text_set(final(self).acted_on@) == text_set(old(self).acted_on@).union(
                            ids.to_set(),
                        )
                        &&& final(self).outcome == (CollationOutcome {
                            refine_merges: (old(self).outcome.refine_merges + 1) as usize,
                            refine_new_entries: (old(self).outcome.refine_new_entries + 1) as usize,
                            ..old(self).outcome
                        })
                        &&& final(self).id_counter == old(self).id_counter + 1
                        &&& final(self).candidate_ids == old(self).candidate_ids
                        &&& final(self).now == old(self).now
                    },
                    None => !mergeable(before, old(self).candidates(), ids) && *final(self) == *old(
                        self,
                    ),
                }
            }),
    {
        let sources = match collect_sources(&self.table, &self.candidate_ids, source_entry_ids) {
            Some(v) => v,
            None => {
                return None;
            },
        };
        let ghost ids = texts(source_entry_ids@);
        let ghost src = entries_view(sources@);
        assert(src.len() == sources@.len());
        let entry = Entry {
            id: new_id.clone(),
            memory_type: sources[0].memory_type.clone(),
            source: "collation_refine".to_owned(),
            reason: "refine_merge".to_owned(),
            status: "active".to_owned(),
            confidence_bits: clamp_confidence(result.confidence_bits),
            summary_text: result.summary_text.clone(),
            topic_tags: result.topic_tags.clone(),
            topic_key: result.topic_key.clone(),
            start_timestamp: find_earliest_start(&sources),
            end_timestamp: find_latest_end(&sources),
            message_count: sum_messages(&sources),
            source_entry_ids: join_texts(source_entry_ids, ","),
            related_entry_ids: String::new(),
            superseded_by: String::new(),
            created_at: self.now.clone(),
            updated_at: self.now.clone(),
            entry_type: sources[0].entry_type.clone(),
            image_path: String::new(),
            collated_at: String::new(),
            file_path: String::new(),
        };
        proof {
            assert(src[0] == sources@[0]@);
            assert(entry@ == merged_entry(src, ids, *result, new_id@, self.now@));
        }
        let lines = list_entries(&sources);
        let count = decimal_text(sources.len() as u64);
        let head = cat5("Merge ", count.as_str(), " entries -> ", new_id.as_str(), ":\n");
        let mid = cat4(head.as_str(), lines.as_str(), "\n  => ", result.summary_text.as_str());
        let changelog = cat3(mid.as_str(), "\n  Reason: ", reason);
        self.supersede(source_entry_ids, new_id.as_str(), &times);
        let stored = entry.copied();
        let ghost before_push = self.table@;
        self.table.push(stored);
        assert(self.entries() =~= entries_view(before_push).push(entry@));
        self.note_processed(new_id.as_str());
        let mut superseded_ids: Vec<String> = Vec::new();
        let mut i: usize = 0;
        let ghost done = text_set(self.acted_on@);
        let ghost mid_state = *self;
        proof {
            assert(texts(superseded_ids@) =~= ids.take(0));
            assert(text_set(self.acted_on@) =~= done.union(ids.take(0).to_set()));
        }
        while i < source_entry_ids.len()
            invariant
                i <= source_entry_ids.len(),
                ids == texts(source_entry_ids@),
                texts(superseded_ids@) == ids.take(i as int),
                text_set(self.acted_on@) == done.union(ids.take(i as int).to_set()),
                self.table == mid_state.table,
                self.candidate_ids == mid_state.candidate_ids,
                self.processed == mid_state.processed,
                self.outcome == mid_state.outcome,
                self.id_counter == mid_state.id_counter,
                self.now == mid_state.now,
            decreases source_entry_ids.len() - i,
        {
            let id = source_entry_ids[i].clone();
            proof {
                assert(ids.take(i + 1) =~= ids.take(i as int).push(id@));
                lemma_texts_push(superseded_ids@, id);
                lemma_set_of_push(ids.take(i as int), id@);
                assert(done.union(ids.take(i + 1).to_set()) =~= done.union(
                    ids.take(i as int).to_set(),
                ).insert(id@));
            }
            self.note_acted_on(id.as_str());
            superseded_ids.push(id);
            i += 1;
        }
        proof {
            assert(ids.take(i as int) =~= ids);
        }
        self.outcome.refine_merges = self.outcome.refine_merges + 1;
        self.outcome.refine_new_entries = self.outcome.refine_new_entries + 1;
        self.id_counter = self.id_counter + 1;
        let created = vec![entry];
        assert(entries_view(created@) =~= seq![entry@]);
        Some(
            RefineWrites {
                created,
                superseded_ids,
                superseded_at: times,
                superseded_by: new_id,
                changelog,
            },
        )
    }

    /// Splits an entry into new ones called `new_ids`, if it may be acted on and becomes at least two.
    /// The entry is superseded by all of them at a given time, and they are stored beside it.
    pub fn apply_split_as(
        &mut self,
        source_entry_id: &str,
        results: &Vec<RefineEntryFields>,
        reason: &str,
        new_ids: &Vec<String>,
        at: String,
    ) -> (r: Option<RefineWrites>)
        requires
            old(self).has_room(results@.len()),
            new_ids@.len() == results@.len(),
        ensures
            ({
                let before = old(self).entries();
                let original = entry_of(before, source_entry_id@)->Some_0;
                let parts = Seq::new(
                    results@.len(),
                    |i: int|
                        split_entry(
                            original,
                            results@[i],
                            source_entry_id@,
                            new_ids@[i]@,
                            old(self).now@,
                        ),
                );
                let by = joined(texts(new_ids@), ","@);
                let allowed = results@.len() >= 2 && actionable(
                    before,
                    old(self).candidates(),
                    source_entry_id@,
                );
                match r {
                    Some(w) => {
                        &&& allowed
                        &&& entries_view(w.created@) == parts
                        &&& texts(w.superseded_ids@) == seq![source_entry_id@]
                        &&& texts(w.superseded_at@) == seq![at@]
                        &&& w.superseded_by@ == by
                        &&& w.changelog@ == split_audit(
                            source_entry_id@,
                            original.summary_text,
                            parts,
                            reason@,
                        )
                        &&& final(self).entries() == superseded(
                            before + parts,
                            seq![source_entry_id@],
                            by,
                            seq![at@],
                        )
                        &&& text_set(final(self).processed@) == text_set(
                            old(self).processed@,
                        ).union(text_set(new_ids@))
                        &&& text_set(final(self).acted_on@) == text_set(
                            old(self).acted_on@,
                        ).insert(source_entry_id@)
                        &&& final(self).outcome == (CollationOutcome {
                            refine_splits: (old(self).outcome.refine_splits + 1) as usize,
                            refine_new_entries: (old(self).outcome.refine_new_entries
                                + results@.len()) as usize,
                            ..old(self).outcome
                        })
                        &&& final(self).id_counter == old(self).id_counter + results@.len()
                        &&& final(self).candidate_ids == old(self).candidate_ids
                        &&& final(self).now == old(self).now
                    },
                    None => !allowed && *final(self) == *old(self),
                }
            }),
    {
        if results.len() < 2 || !holds_text(&self.candidate_ids, source_entry_id) {
            return None;
        }
        let original = match find_entry(&self.table, source_entry_id) {
            Some(k) => if same_text(self.table[k].status.as_str(), "active") {
                self.table[k].copied()
            } else {
                return None;
            },
            None => {
                return None;
            },
        };
        let ghost before = self.entries();
        let ghost parts = Seq::new(
            results@.len(),
            |i: int|
                split_entry(original@, results@[i], source_entry_id@, new_ids@[i]@, self.now@),
        );
        let mut created: Vec<Entry> = Vec::new();
        let mut i: usize = 0;
        let ghost start = *self;
        let ghost done = text_set(self.processed@);
        let ghost nids = texts(new_ids@);
        proof {
            assert(self.entries() =~= before + parts.take(0));
            assert(text_set(self.processed@) =~= done.union(nids.take(0).to_set()));
        }
        while i < results.len()
            invariant
                i <= results.len(),
                new_ids@.len() == results@.len(),
                nids == texts(new_ids@),
                parts == Seq::new(
                    results@.len(),
                    |k: int|
                        split_entry(
                            original@,
                            results@[k],
                            source_entry_id@,
                            new_ids@[k]@,
                            start.now@,
                        ),
                ),
                created.len() == i,
                forall|k: int| 0 <= k < i ==> #[trigger] created@[k]@ == parts[k],
                self.entries() == before + parts.take(i as int),
                text_set(self.processed@) == done.union(nids.take(i as int).to_set()),
                self.candidate_ids == start.candidate_ids,
                self.acted_on == start.acted_on,
                self.outcome == start.outcome,
                self.id_counter == start.id_counter,
                self.now == start.now,
            decreases results.len() - i,
        {
            let f = &results[i];
            let entry = Entry {
                id: new_ids[i].clone(),
                memory_type: original.memory_type.clone(),
                source: "collation_refine".to_owned(),
                reason: "refine_split".to_owned(),
                status: "active".to_owned(),
                confidence_bits: clamp_confidence(f.confidence_bits),
                summary_text: f.summary_text.clone(),
                topic_tags: f.topic_tags.clone(),
                topic_key: f.topic_key.clone(),
                start_timestamp: original.start_timestamp.clone(),
                end_timestamp: original.end_timestamp.clone(),
                message_count: original.message_count,
                source_entry_ids: source_entry_id.to_owned(),
                related_entry_ids: String::new(),
                superseded_by: String::new(),
                created_at: self.now.clone(),
                updated_at: self.now.clone(),
                entry_type: original.entry_type.clone(),
                image_path: String::new(),
                collated_at: String::new(),
                file_path: String::new(),
            };
            assert(entry@ == parts[i as int]);
            let ghost table_before = self.table@;
            self.table.push(entry.copied());
            proof {
                assert(self.entries() =~= entries_view(table_before).push(entry@));
                assert((before + parts.take(i as int)).push(entry@) =~= before + parts.take(i + 1));
            }
            self.note_processed(new_ids[i].as_str());
            proof {
                assert(nids[i as int] == new_ids@[i as int]@);
                assert(nids.take(i + 1) =~= nids.take(i as int).push(nids[i as int]));
                lemma_set_of_push(nids.take(i as int), nids[i as int]);
                assert(done.union(nids.take(i + 1).to_set()) =~= done.union(
                    nids.take(i as int).to_set(),
                ).insert(nids[i as int]));
            }
            created.push(entry);
            i += 1;
        }
        proof {
            assert(parts.take(i as int) =~= parts);
            assert(nids.take(i as int) =~= nids);
            assert(entries_view(created@) =~= parts);
        }
        let by = join_texts(new_ids, ",");
        let sources: Vec<String> = vec![source_entry_id.to_owned()];
        assert(texts(sources@) =~= seq![source_entry_id@]);
        let times: Vec<String> = vec![at];
        assert(texts(times@) =~= seq![at@]);
        self.supersede(&sources, by.as_str(), &times);
        self.note_acted_on(source_entry_id);
        let lines = list_entries(&created);
        let count = decimal_text(created.len() as u64);
        let head = cat5(
            "Split [",
            source_entry_id,
            "] \"",
            original.summary_text.as_str(),
            "\" into ",
        );
        let mid = cat4(head.as_str(), count.as_str(), " parts:\n", lines.as_str());
        let changelog = cat3(mid.as_str(), "\n  Reason: ", reason);
        self.outcome.refine_splits = self.outcome.refine_splits + 1;
        self.outcome.refine_new_entries = self.outcome.refine_new_entries + results.len();
        self.id_counter = self.id_counter + results.len();
        Some(
            RefineWrites {
                created,
                superseded_ids: sources,
                superseded_at: times,
                superseded_by: by,
                changelog,
            },
        )
    }

    /// Rewrites an entry, if it may be acted on.
    pub fn apply_update(&mut self, entry_id: &str, result: &RefineEntryFields, reason: &str) -> (r:
        Option<UpdateWrites>)
        requires
            old(self).has_room(0),
        ensures
            update_step(*old(self), *final(self), entry_id@, *result, reason@, r),
    {
        if !holds_text(&self.candidate_ids, entry_id) {
            return None;
        }
        let entry = match find_entry(&self.table, entry_id) {
            Some(k) => if same_text(self.table[k].status.as_str(), "active") {
                self.table[k].copied()
            } else {
                return None;
            },
            None => {
                return None;
            },
        };
        let mut updated = entry.copied();
        updated.summary_text = result.summary_text.clone();
        updated.topic_tags = result.topic_tags.clone();
        updated.topic_key = result.topic_key.clone();
        updated.confidence_bits = clamp_confidence(result.confidence_bits);
        updated.updated_at = self.now.clone();
        replace_entry(&mut self.table, &updated);
        self.note_acted_on(entry_id);
        let head = cat5(
            "Update [",
            entry_id,
            "]: \"",
            entry.summary_text.as_str(),
            "\" -> \"",
        );
        let changelog = cat4(
            head.as_str(),
            result.summary_text.as_str(),
            "\"\n  Reason: ",
            reason,
        );
        self.outcome.refine_updates = self.outcome.refine_updates + 1;
        Some(UpdateWrites { updated, changelog })
    }
}

/// A merge of the entries `ids` takes a run from one state to the next: the entries are superseded by a
/// new one, which is stored beside them. Where they may not be merged nothing changes.
pub open spec fn merge_step(
    before: RefineRun,
    after: RefineRun,
    ids: Seq<Seq<char>>,
    result: RefineEntryFields,
    reason: Seq<char>,
    r: Option<RefineWrites>,
) -> bool {
    let table = before.entries();
    let sources = entries_of(table, ids);
    match r {
        Some(w) => {
            &&& mergeable(table, before.candidates(), ids)
            &&& is_entry_id(w.superseded_by@, before.id_counter as int)
            &&& entries_view(w.created@) == seq![
                merged_entry(sources, ids, result, w.superseded_by@, before.now@),
            ]
            &&& texts(w.superseded_ids@) == ids
            &&& w.superseded_at@.len() == ids.len()
            &&& are_utc_texts(texts(w.superseded_at@))
            &&& w.changelog@ == merge_audit(
                sources,
                w.superseded_by@,
                result.summary_text@,
                reason,
            )
            &&& after.entries() == superseded(
                table,
                ids,
                w.superseded_by@,
                texts(w.superseded_at@),
            ).push(entries_view(w.created@)[0])
            &&& text_set(after.processed@) == text_set(before.processed@).insert(w.superseded_by@)
            &&& text_set(after.acted_on@) == text_set(before.acted_on@).union(ids.to_set())
            &&& after.outcome == (CollationOutcome {
                refine_merges: (before.outcome.refine_merges + 1) as usize,
                refine_new_entries: (before.outcome.refine_new_entries + 1) as usize,
                ..before.outcome
            })
            &&& after.id_counter == before.id_counter + 1
            &&& after.candidate_ids == before.candidate_ids
            &&& after.now == before.now
        },
        None => !mergeable(table, before.candidates(), ids) && after == before,
    }
}

/// A split of the entry `id` takes a run from one state to the next: the entry is superseded by new ones,
/// which are stored beside it. Where it may not be split nothing changes.
pub open spec fn split_step(
    before: RefineRun,
    after: RefineRun,
    id: Seq<char>,
    results: Seq<RefineEntryFields>,
    reason: Seq<char>,
    r: Option<RefineWrites>,
) -> bool {
    let table = before.entries();
    let original = entry_of(table, id)->Some_0;
    let allowed = results.len() >= 2 && actionable(table, before.candidates(), id);
    match r {
        Some(w) => {
            let parts = entries_view(w.created@);
            &&& allowed
            &&& parts.len() == results.len()
            &&& forall|i: int|
                0 <= i < parts.len() ==> is_entry_id((#[trigger] parts[i]).id, before.id_counter + i)
                    && parts[i] == split_entry(original, results[i], id, parts[i].id, before.now@)
            &&& texts(w.superseded_ids@) == seq![id]
            &&& w.superseded_at@.len() == 1
            &&& are_utc_texts(texts(w.superseded_at@))
            &&& w.superseded_by@ == joined(ids_of(parts), ","@)
            &&& w.changelog@ == split_audit(id, original.summary_text, parts, reason)
            &&& after.entries() == superseded(
                table + parts,
                seq![id],
                w.superseded_by@,
                texts(w.superseded_at@),
            )
            &&& text_set(after.processed@) == text_set(before.processed@).union(
                ids_of(parts).to_set(),
            )
            &&& text_set(after.acted_on@) == text_set(before.acted_on@).insert(id)
            &&& after.outcome == (CollationOutcome {
                refine_splits: (before.outcome.refine_splits + 1) as usize,
                refine_new_entries: (before.outcome.refine_new_entries + results.len()) as usize,
                ..before.outcome
            })
            &&& after.id_counter == before.id_counter + results.len()
            &&& after.candidate_ids == before.candidate_ids
            &&& after.now == before.now
        },
        None => !allowed && after == before,
    }
}

/// A rewrite of the entry `id` takes a run from one state to the next. Where it may not be acted on
/// nothing changes.
pub open spec fn update_step(
    before: RefineRun,
    after: RefineRun,
    id: Seq<char>,
    result: RefineEntryFields,
    reason: Seq<char>,
    r: Option<UpdateWrites>,
) -> bool {
    let table = before.entries();
    let entry = entry_of(table, id)->Some_0;
    let allowed = actionable(table, before.candidates(), id);
    match r {
        Some(w) => {
            &&& allowed
            &&& w.updated@ == rewritten(entry, result, before.now@)
            &&& w.changelog@ == update_audit(
                id,
                entry.summary_text,
                result.summary_text@,
                reason,
            )
            &&& after.entries() == replaced(table, id, w.updated@)
            &&& text_set(after.acted_on@) == text_set(before.acted_on@).insert(id)
            &&& after.outcome == (CollationOutcome {
                refine_updates: (before.outcome.refine_updates + 1) as usize,
                ..before.outcome
            })
            &&& after.processed == before.processed
            &&& after.id_counter == before.id_counter
            &&& after.candidate_ids == before.candidate_ids
            &&& after.now == before.now
        },
        None => !allowed && after == before,
    }
}

/// What has to be written for an action.
#[derive(Debug)]
pub enum ActionWrites {
    /// New entries take the place of others.
    Replace(RefineWrites),
    /// An entry is rewritten.
    Rewrite(UpdateWrites),
}

/// An action takes a run from one state to the next.
pub open spec fn action_step(
    before: RefineRun,
    after: RefineRun,
    action: RefineAction,
    r: Option<ActionWrites>,
) -> bool {
    match action {
        RefineAction::Merge { source_entry_ids, result, reason } => {
            &&& r is Some ==> r->Some_0 is Replace
            &&& merge_step(
                before,
                after,
                texts(source_entry_ids@),
                result,
                reason@,
                match r {
                    Some(ActionWrites::Replace(w)) => Some(w),
                    _ => None,
                },
            )
        },
        RefineAction::Split { source_entry_id, results, reason } => {
            &&& r is Some ==> r->Some_0 is Replace
            &&& split_step(
                before,
                after,
                source_entry_id@,
                results@,
                reason@,
                match r {
                    Some(ActionWrites::Replace(w)) => Some(w),
                    _ => None,
                },
            )
        },
        RefineAction::Update { entry_id, result, reason } => {
            &&& r is Some ==> r->Some_0 is Rewrite
            &&& update_step(
                before,
                after,
                entry_id@,
                result,
                reason@,
                match r {
                    Some(ActionWrites::Rewrite(w)) => Some(w),
                    _ => None,
                },
            )
        },
    }
}

/// How many new entries an action may make.
pub open spec fn new_entry_count(action: RefineAction) -> nat {
    match action {
        RefineAction::Merge { .. } => 1,
        RefineAction::Split { results, .. } => results@.len(),
        RefineAction::Update { .. } => 0,
    }
}

/// The messages of the entries that an action merges can be counted.
pub open spec fn is_countable(run: RefineRun, action: RefineAction) -> bool {
    match action {
        RefineAction::Merge { source_entry_ids, .. } => mergeable(
            run.entries(),
            run.candidates(),
            texts(source_entry_ids@),
        ) ==> countable(entries_of(run.entries(), texts(source_entry_ids@))),
        _ => true,
    }
}

/// The entries of a cluster that were not acted on.
pub open spec fn kept_count(cluster: Seq<EntryView>, acted_on: Set<Seq<char>>) -> nat
    decreases cluster.len(),
{
    if cluster.len() == 0 {
        0
    } else {
        kept_count(cluster.drop_last(), acted_on) + if acted_on.contains(cluster.last().id) {
            0nat
        } else {
            1
        }
    }
}

/// `r` is a run at its start, over a table and with candidates.
pub open spec fn begins(
    r: RefineRun,
    table: Seq<Entry>,
    candidates: Seq<Entry>,
    active_count: usize,
    outcome: CollationOutcome,
) -> bool {
    &&& r.table@ == table
    &&& texts(r.candidate_ids@) == ids_of(entries_view(candidates))
    &&& texts(r.processed@) == ids_of(entries_view(candidates))
    &&& r.acted_on@.len() == 0
    &&& r.outcome == if candidates.len() == 0 {
        CollationOutcome {
            entries_skipped: (outcome.entries_skipped + active_count) as usize,
            ..outcome
        }
    } else {
        outcome
    }
}

/// The end of a cluster takes a run from one state to the next.
pub open spec fn closing_step(before: RefineRun, after: RefineRun, cluster: Seq<EntryView>) -> bool {
    &&& after.outcome == (CollationOutcome {
        refine_kept: (before.outcome.refine_kept + kept_count(
            cluster,
            text_set(before.acted_on@),
        )) as usize,
        ..before.outcome
    })
    &&& after.acted_on@.len() == 0
    &&& after.table == before.table
    &&& after.candidate_ids == before.candidate_ids
    &&& after.processed == before.processed
    &&& after.id_counter == before.id_counter
    &&& after.now == before.now
}

impl RefineRun {
    /// A run over the entries of the database. The candidates are the only entries that may be acted
    /// on, and they are stamped whatever comes of them. Without candidates all entries are passed over.
    pub fn begin(
        table: Vec<Entry>,
        candidates: &Vec<Entry>,
        active_count: usize,
        outcome: CollationOutcome,
        id_counter: usize,
        now: String,
    ) -> (r: RefineRun)
        requires
            outcome.entries_skipped + active_count <= usize::MAX,
        ensures
            begins(r, table@, candidates@, active_count, outcome),
            r.id_counter == id_counter,
            r.now == now,
    {
        let ghost want = ids_of(entries_view(candidates@));
        let mut candidate_ids: Vec<String> = Vec::new();
        let mut processed: Vec<String> = Vec::new();
        let mut i: usize = 0;
        while i < candidates.len()
            invariant
                i <= candidates.len(),
                want == ids_of(entries_view(candidates@)),
                candidate_ids.len() == i,
                processed.len() == i,
                forall|k: int| 0 <= k < i ==> #[trigger] candidate_ids@[k]@ == want[k],
                forall|k: int| 0 <= k < i ==> #[trigger] processed@[k]@ == want[k],
            decreases candidates.len() - i,
        {
            candidate_ids.push(candidates[i].id.clone());
            processed.push(candidates[i].id.clone());
            i += 1;
        }
        assert(texts(candidate_ids@) =~= want);
        assert(texts(processed@) =~= want);
        let mut o = outcome;
        if candidates.len() == 0 {
            o.entries_skipped = o.entries_skipped + active_count;
        }
        RefineRun {
            table,
            candidate_ids,
            processed,
            acted_on: Vec::new(),
            outcome: o,
            id_counter,
            now,
        }
    }

    /// Merges entries into a new one, which is numbered and dated now.
    pub fn apply_merge(
        &mut self,
        source_entry_ids: &Vec<String>,
        result: &RefineEntryFields,
        reason: &str,
    ) -> (r: Option<RefineWrites>)
        requires
            old(self).has_room(1),
            mergeable(old(self).entries(), old(self).candidates(), texts(source_entry_ids@))
                ==> countable(entries_of(old(self).entries(), texts(source_entry_ids@))),
        ensures
            merge_step(*old(self), *final(self), texts(source_entry_ids@), *result, reason@, r),
    {
        let stamp = utc_stamp();
        let new_id = entry_id_at(stamp.as_str(), self.id_counter);
        proof {
            assert(new_id@ == (stamp@ + "_"@) + decimal(self.id_counter as nat));
            assert(is_entry_id(new_id@, self.id_counter as int));
        }
        let times = utc_now_texts(source_entry_ids.len());
        self.apply_merge_as(source_entry_ids, result, reason, new_id, times)
    }

    /// Splits an entry into new ones, which are numbered and dated now.
    pub fn apply_split(
        &mut self,
        source_entry_id: &str,
        results: &Vec<RefineEntryFields>,
        reason: &str,
    ) -> (r: Option<RefineWrites>)
        requires
            old(self).has_room(results@.len()),
        ensures
            split_step(*old(self), *final(self), source_entry_id@, results@, reason@, r),
    {
        let mut new_ids: Vec<String> = Vec::new();
        let mut i: usize = 0;
        let n: usize = self.id_counter;
        while i < results.len()
            invariant
                i <= results.len(),
                n + results@.len() <= usize::MAX,
                new_ids.len() == i,
                forall|k: int| 0 <= k < i ==> is_entry_id(#[trigger] new_ids@[k]@, n + k),
            decreases results.len() - i,
        {
            let stamp = utc_stamp();
            let id = entry_id_at(stamp.as_str(), n + i);
            proof {
                assert(id@ == (stamp@ + "_"@) + decimal((n + i) as nat));
                assert(is_entry_id(id@, n + i));
            }
            new_ids.push(id);
            i += 1;
        }
        let at = utc_now_text();
        let r = self.apply_split_as(source_entry_id, results, reason, &new_ids, at);
        proof {
            if r is Some {
                let parts = entries_view(r->Some_0.created@);
                assert(ids_of(parts) =~= texts(new_ids@));
                assert forall|k: int| 0 <= k < parts.len() implies is_entry_id(
                    (#[trigger] parts[k]).id,
                    n + k,
                ) by {
                    assert(parts[k].id == new_ids@[k]@);
                }
            }
        }
        r
    }

    /// Whether an action can be carried out or refused: everything that is done can be counted, and so
    /// can the messages of the entries that are merged.
    pub fn can_apply(&self, action: &RefineAction) -> (r: bool)
        ensures
            r == (self.has_room(new_entry_count(*action)) && is_countable(*self, *action)),
    {
        let n = match action {
            RefineAction::Merge { .. } => 1,
            RefineAction::Split { results, .. } => results.len(),
            RefineAction::Update { .. } => 0,
        };
        let has_room = n <= usize::MAX - self.id_counter && self.outcome.refine_merges < usize::MAX
            && self.outcome.refine_splits < usize::MAX && self.outcome.refine_updates < usize::MAX
            && n <= usize::MAX - self.outcome.refine_new_entries;
        let counts = match action {
            RefineAction::Merge { source_entry_ids, .. } => {
                match collect_sources(&self.table, &self.candidate_ids, source_entry_ids) {
                    Some(sources) => can_count(&sources),
                    None => true,
                }
            },
            _ => true,
        };
        has_room && counts
    }

    /// Carries out an action that a model proposes, if it is allowed.
    pub fn apply_action(&mut self, action: &RefineAction) -> (r: Option<ActionWrites>)
        requires
            old(self).has_room(new_entry_count(*action)),
            is_countable(*old(self), *action),
        ensures
            action_step(*old(self), *final(self), *action, r),
    {
        match action {
            RefineAction::Merge { source_entry_ids, result, reason } => {
                match self.apply_merge(source_entry_ids, result, reason.as_str()) {
                    Some(w) => Some(ActionWrites::Replace(w)),
                    None => None,
                }
            },
            RefineAction::Split { source_entry_id, results, reason } => {
                match self.apply_split(source_entry_id.as_str(), results, reason.as_str()) {
                    Some(w) => Some(ActionWrites::Replace(w)),
                    None => None,
                }
            },
            RefineAction::Update { entry_id, result, reason } => {
                match self.apply_update(entry_id.as_str(), result, reason.as_str()) {
                    Some(w) => Some(ActionWrites::Rewrite(w)),
                    None => None,
                }
            },
        }
    }

    /// Ends a cluster: the entries that were not acted on count as kept.
    pub fn close_cluster(&mut self, cluster: &Vec<Entry>)
        requires
            old(self).outcome.refine_kept + cluster@.len() <= usize::MAX,
        ensures
            closing_step(*old(self), *final(self), entries_view(cluster@)),
    {
        let ghost all = entries_view(cluster@);
        let mut kept: usize = 0;
        let mut i: usize = 0;
        proof {
            assert(all.take(0) =~= Seq::<EntryView>::empty());
        }
        while i < cluster.len()
            invariant
                i <= cluster.len(),
                kept <= i,
                all == entries_view(cluster@),
                kept == kept_count(all.take(i as int), text_set(self.acted_on@)),
            decreases cluster.len() - i,
        {
            proof {
                assert(all.take(i + 1).drop_last() =~= all.take(i as int));
                assert(all.take(i + 1).last() == cluster@[i as int]@);
            }
            if !holds_text(&self.acted_on, cluster[i].id.as_str()) {
                kept += 1;
            }
            i += 1;
        }
        proof {
            assert(all.take(i as int) =~= all);
        }
        self.outcome.refine_kept = self.outcome.refine_kept + kept;
        self.acted_on.clear();
    }
}

/// A merge changes nothing but the entries that it merges: all other entries stay as they were, every
/// entry stays in the table, and the merged ones point at the new one.
pub proof fn merge_touches_only_its_sources(
    table: Seq<EntryView>,
    ids: Seq<Seq<char>>,
    entry: EntryView,
    times: Seq<Seq<char>>,
    i: int,
)
    requires
        0 <= i < table.len(),
    ensures
        ({
            let after = superseded(table, ids, entry.id, times).push(entry);
            &&& after.len() == table.len() + 1
            &&& after[i].id == table[i].id
            &&& after[i].summary_text == table[i].summary_text
            &&& !ids.contains(table[i].id) ==> after[i] == table[i]
            &&& ids.contains(table[i].id) ==> after[i].status == "superseded"@
                && after[i].superseded_by == entry.id
        }),
{
    lemma_superseded_entry(table, ids, entry.id, times, i);
}

/// The entries that a merge or a split makes name the ones they were made from, as the search for ancestors
/// reads them.
pub proof fn new_entries_name_their_sources(
    sources: Seq<EntryView>,
    original: EntryView,
    ids: Seq<Seq<char>>,
    id: Seq<char>,
    result: RefineEntryFields,
    new_id: Seq<char>,
    now: Seq<char>,
)
    requires
        forall|i: int| 0 <= i < ids.len() ==> can_be_listed(#[trigger] ids[i]),
        can_be_listed(id),
    ensures
        listed_ids(merged_entry(sources, ids, result, new_id, now).source_entry_ids)
            == ids.to_set(),
        listed_ids(split_entry(original, result, id, new_id, now).source_entry_ids) == set![id],
{
    listed_identifiers_are_read_back(ids);
    let one = seq![id];
    assert(joined(one, ","@) == id);
    listed_identifiers_are_read_back(one);
    assert(one.to_set() =~= set![id]) by {
        assert(one[0] == id);
        assert forall|x: Seq<char>| one.to_set().contains(x) implies x == id by {
            let k = choose|k: int| 0 <= k < one.len() && one[k] == x;
        }
    }
}

/// The identifiers that are given to new entries can be listed.
pub proof fn new_identifiers_can_be_listed(id: Seq<char>, n: int)
    requires
        is_entry_id(id, n),
    ensures
        can_be_listed(id),
{
    reveal_strlit("_");
    let stamp = choose|stamp: Seq<char>|
        is_stamp(stamp, '_') && id == #[trigger] (stamp + "_"@) + decimal(n as nat);
    let number = decimal(n as nat);
    lemma_decimal_digits(n as nat);
    assert forall|i: int| 0 <= i < id.len() implies #[trigger] id[i] != ',' && !is_space(id[i]) by {
        if 0 < i < stamp.len() {
            assert(id[i] == stamp[i]);
        } else if i > stamp.len() {
            assert(id[i] == number[i - stamp.len() - 1]);
        }
    }
    assert(!is_space(id[0]) && !is_space(id.last()));
}

/// A merged entry is active no longer, so it cannot be acted on again in the same run.
pub proof fn merged_entries_are_not_reused(
    table: Seq<EntryView>,
    candidates: Set<Seq<char>>,
    ids: Seq<Seq<char>>,
    by: Seq<char>,
    times: Seq<Seq<char>>,
    id: Seq<char>,
)
    requires
        ids.contains(id),
    ensures
        !actionable(superseded(table, ids, by, times), candidates, id),
{
    reveal_strlit("active");
    reveal_strlit("superseded");
    assert("active"@.len() != "superseded"@.len());
    let after = superseded(table, ids, by, times);
    if entry_of(after, id) is Some {
        let i = lemma_entry_of_is_entry(after, id);
        lemma_superseded_length(table, ids, by, times);
        lemma_superseded_entry(table, ids, by, times, i);
    }
}

pub proof fn lemma_superseded_length(
    table: Seq<EntryView>,
    ids: Seq<Seq<char>>,
    by: Seq<char>,
    times: Seq<Seq<char>>,
)
    ensures
        superseded(table, ids, by, times).len() == table.len(),
    decreases ids.len(),
{
    if ids.len() > 0 {
        lemma_superseded_length(table, ids.drop_last(), by, times.drop_last());
    }
}

pub proof fn lemma_entry_of_is_entry(table: Seq<EntryView>, id: Seq<char>) -> (i: int)
    requires
        entry_of(table, id) is Some,
    ensures
        0 <= i < table.len(),
        table[i].id == id,
        entry_of(table, id) == Some(table[i]),
    decreases table.len(),
{
    if table[0].id == id {
        0
    } else {
        let k = lemma_entry_of_is_entry(table.skip(1), id);
        k + 1
    }
}

/// Whatever a model proposes, nothing is lost: every entry stays in the table, under its identifier, with
/// what it was made from and when it was made, and new entries come after all others.
pub proof fn actions_lose_nothing(
    before: RefineRun,
    after: RefineRun,
    action: RefineAction,
    r: Option<ActionWrites>,
    i: int,
)
    requires
        action_step(before, after, action, r),
        0 <= i < before.entries().len(),
    ensures
        after.entries().len() >= before.entries().len(),
        after.entries()[i].id == before.entries()[i].id,
        after.entries()[i].created_at == before.entries()[i].created_at,
{
    if r is Some {
        match action {
            RefineAction::Update { entry_id, .. } => {
                if entry_of(before.entries(), entry_id@) is Some {
                    let _ = lemma_entry_of_is_entry(before.entries(), entry_id@);
                }
            },
            RefineAction::Merge { source_entry_ids, .. } => {
                let w = r->Some_0->Replace_0;
                let times = texts(w.superseded_at@);
                let ids = texts(source_entry_ids@);
                lemma_superseded_entry(before.entries(), ids, w.superseded_by@, times, i);
            },
            RefineAction::Split { source_entry_id, .. } => {
                let w = r->Some_0->Replace_0;
                let times = texts(w.superseded_at@);
                let table = before.entries() + entries_view(w.created@);
                let ids = seq![source_entry_id@];
                lemma_superseded_entry(table, ids, w.superseded_by@, times, i);
            },
        }
    }
}

/// Whatever a model proposes, only candidates change: an entry that is no candidate, or is active no
/// longer, stays as it is. The candidates themselves stay the same.
pub proof fn actions_touch_only_candidates(
    before: RefineRun,
    after: RefineRun,
    action: RefineAction,
    r: Option<ActionWrites>,
    i: int,
)
    requires
        action_step(before, after, action, r),
        0 <= i < before.entries().len(),
        !actionable(before.entries(), before.candidates(), before.entries()[i].id),
    ensures
        after.candidates() == before.candidates(),
        after.entries()[i] == before.entries()[i],
{
    if r is Some {
        match action {
            RefineAction::Merge { source_entry_ids, .. } => {
                let ids = texts(source_entry_ids@);
                let w = r->Some_0->Replace_0;
                let times = texts(w.superseded_at@);
                lemma_superseded_entry(before.entries(), ids, w.superseded_by@, times, i);
                if ids.contains(before.entries()[i].id) {
                    let k = choose|k: int| 0 <= k < ids.len() && ids[k] == before.entries()[i].id;
                    assert(actionable(before.entries(), before.candidates(), ids[k]));
                }
            },
            RefineAction::Split { source_entry_id, .. } => {
                let one = seq![source_entry_id@];
                let w = r->Some_0->Replace_0;
                let times = texts(w.superseded_at@);
                let table = before.entries() + entries_view(w.created@);
                lemma_superseded_entry(table, one, w.superseded_by@, times, i);
                if one.contains(before.entries()[i].id) {
                    assert(one[0] == before.entries()[i].id);
                }
            },
            RefineAction::Update { .. } => {},
        }
    }
}

/// The set of a sequence with one more item.
pub proof fn lemma_set_of_push(s: Seq<Seq<char>>, x: Seq<char>)
    ensures
        s.push(x).to_set() == s.to_set().insert(x),
{
    assert forall|y: Seq<char>| s.push(x).to_set().contains(y) == s.to_set().insert(x).contains(
        y,
    ) by {
        if s.push(x).contains(y) {
            let i = choose|i: int| 0 <= i < s.push(x).len() && s.push(x)[i] == y;
            if i < s.len() {
                assert(s[i] == y);
            }
        }
        if s.contains(y) {
            let i = choose|i: int| 0 <= i < s.len() && s[i] == y;
            assert(s.push(x)[i] == y);
        }
        assert(s.push(x)[s.len() as int] == x);
    }
    assert(s.push(x).to_set() =~= s.to_set().insert(x));
}

}
