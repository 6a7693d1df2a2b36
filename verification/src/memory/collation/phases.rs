//! The phases of a collation that need no model: filling in missing timestamps, and letting the
//! confidence of old entries fade.
use crate::clock::{age_seconds, are_utc_texts, rfc3339_age, utc_now_texts};
use crate::memory::collation::ancestry::{is_resolution, resolve_timestamps_from_ancestors};
use crate::memory::collation::first_n;
use crate::memory::collation::types::CollationOutcome;
use crate::memory::confidence::{at_most, is_at_most};
use crate::memory::db::{entries_view, replace_entry, replaced, Entry, EntryView};
use crate::text::compose::{cat4, cat5, option_text, same_text};
use crate::text::number::{decimal, decimal_text};
use crate::text::split::{lemma_texts_push, texts};
use vstd::prelude::*;

verus! {

broadcast use vstd::string::group_string_axioms;

/// How many entries get timestamps in one run.
pub const BACKFILL_BATCH: usize = 20;

/// The entries without a start, at most `batch` of them.
pub open spec fn undated(entries: Seq<EntryView>, batch: nat) -> Seq<EntryView> {
    first_n(entries.filter(|e: EntryView| e.start_timestamp.len() == 0), batch)
}

/// The entries that get timestamps in this run: those without a start, at most `batch`.
pub fn backfill_candidates(entries: &Vec<Entry>, batch: usize) -> (r: Vec<Entry>)
    ensures
        entries_view(r@) == undated(entries_view(entries@), batch as nat),
{
    let ghost all = entries_view(entries@);
    let ghost pred = |e: EntryView| e.start_timestamp.len() == 0;
    let mut out: Vec<Entry> = Vec::new();
    let mut i: usize = 0;
    proof {
        reveal(Seq::filter);
        assert(entries_view(out@) =~= all.take(0).filter(pred));
    }
    while i < entries.len()
        invariant
            i <= entries.len(),
            all == entries_view(entries@),
            pred == (|e: EntryView| e.start_timestamp.len() == 0),
            entries_view(out@) == all.take(i as int).filter(pred),
        decreases entries.len() - i,
    {
        proof {
            reveal(Seq::filter);
            assert(all.take(i + 1).drop_last() =~= all.take(i as int));
            assert(all.take(i + 1).last() == entries@[i as int]@);
        }
        if entries[i].start_timestamp.as_str().is_empty() {
            let e = entries[i].copied();
            proof {
                assert(entries_view(out@.push(e)) =~= entries_view(out@).push(e@));
            }
            out.push(e);
        }
        i += 1;
    }
    proof {
        assert(all.take(i as int) =~= all);
    }
    let ghost found = entries_view(out@);
    if batch < out.len() {
        out.truncate(batch);
        assert(entries_view(out@) =~= found.take(batch as int));
    }
    out
}

/// An entry with its timestamps filled in.
pub open spec fn dated(e: EntryView, start: Seq<char>, end: Seq<char>, now: Seq<char>) -> EntryView {
    EntryView { start_timestamp: start, end_timestamp: end, updated_at: now, ..e }
}

/// An entry with its timestamps filled in.
pub fn with_timestamps(entry: &Entry, start: &str, end: &str, now: &str) -> (r: Entry)
    ensures
        r@ == dated(entry@, start@, end@, now@),
{
    let mut e = entry.copied();
    e.start_timestamp = start.to_owned();
    e.end_timestamp = end.to_owned();
    e.updated_at = now.to_owned();
    e
}

/// The audit text of filled in timestamps.
pub open spec fn backfill_audit(total: nat, from_ancestors: nat, from_created_at: nat) -> Seq<char> {
    "Backfilled timestamps for "@ + decimal(total) + " entries ("@ + decimal(from_ancestors)
        + " from ancestors, "@ + decimal(from_created_at) + " from created_at)"@
}

/// The audit text of filled in timestamps.
pub fn backfill_changelog(total: usize, from_ancestors: usize, from_created_at: usize) -> (r: String)
    ensures
        r@ == backfill_audit(total as nat, from_ancestors as nat, from_created_at as nat),
{
    let t = decimal_text(total as u64);
    let a = decimal_text(from_ancestors as u64);
    let c = decimal_text(from_created_at as u64);
    let head = cat4("Backfilled timestamps for ", t.as_str(), " entries (", a.as_str());
    cat4(head.as_str(), " from ancestors, ", c.as_str(), " from created_at)")
}

/// The table after the entries were stored in it, one after the other.
pub open spec fn stored(table: Seq<EntryView>, updated: Seq<EntryView>) -> Seq<EntryView>
    decreases updated.len(),
{
    if updated.len() == 0 {
        table
    } else {
        replaced(stored(table, updated.drop_last()), updated.last().id, updated.last())
    }
}

/// The entries of `todo` were filled in, each from the table as the ones before it had left it and each
/// at its own time.
pub open spec fn is_backfill(
    table: Seq<EntryView>,
    todo: Seq<EntryView>,
    updated: Seq<EntryView>,
    sources: Seq<Seq<char>>,
    times: Seq<Seq<char>>,
) -> bool {
    &&& updated.len() == todo.len()
    &&& sources.len() == todo.len()
    &&& forall|k: int|
        0 <= k < todo.len() ==> is_resolution(
            stored(table, updated.take(k)),
            todo[k],
            (#[trigger] updated[k]).start_timestamp,
            updated[k].end_timestamp,
            sources[k],
        ) && updated[k] == dated(
            todo[k],
            updated[k].start_timestamp,
            updated[k].end_timestamp,
            times[k],
        )
}

/// How many of the sources are ancestors.
pub open spec fn from_ancestors(sources: Seq<Seq<char>>) -> nat
    decreases sources.len(),
{
    if sources.len() == 0 {
        0
    } else {
        from_ancestors(sources.drop_last()) + if sources.last() == "ancestors"@ {
            1nat
        } else {
            0
        }
    }
}

/// What has to be written for filled in timestamps.
#[derive(Debug)]
pub struct BackfillWrites {
    /// The entries to store, in this order.
    pub updated: Vec<Entry>,
    /// Where the timestamps of each come from.
    pub sources: Vec<String>,
    /// The audit text, where there is anything to report.
    pub changelog: Option<String>,
}

/// What filling in timestamps does to the table and the outcome, and what it writes.
pub open spec fn backfill_step(
    before: Seq<EntryView>,
    after: Seq<EntryView>,
    todo: Seq<EntryView>,
    times: Seq<Seq<char>>,
    old_outcome: CollationOutcome,
    outcome: CollationOutcome,
    w: BackfillWrites,
) -> bool {
    let updated = entries_view(w.updated@);
    let sources = texts(w.sources@);
    let total = old_outcome.timestamps_backfilled + todo.len();
    &&& is_backfill(before, todo, updated, sources, times)
    &&& after == stored(before, updated)
    &&& outcome == (CollationOutcome { timestamps_backfilled: total as usize, ..old_outcome })
    &&& option_text(w.changelog) == if todo.len() == 0 {
        None
    } else {
        Some(
            backfill_audit(
                total as nat,
                from_ancestors(sources),
                (todo.len() - from_ancestors(sources)) as nat,
            ),
        )
    }
}

/// Fills in the timestamps of active entries that have none, at most `batch_size` of them. The table of
/// all entries is kept in step. The clock is read for each entry.
pub fn phase_backfill_timestamps(
    table: &mut Vec<Entry>,
    active: &Vec<Entry>,
    batch_size: usize,
    outcome: &mut CollationOutcome,
) -> (r: BackfillWrites)
    requires
        old(outcome).timestamps_backfilled + active@.len() <= usize::MAX,
    ensures
        exists|times: Seq<Seq<char>>|
            are_utc_texts(times) && times.len() >= undated(
                entries_view(active@),
                batch_size as nat,
            ).len() && #[trigger] backfill_step(
                entries_view(old(table)@),
                entries_view(final(table)@),
                undated(entries_view(active@), batch_size as nat),
                times,
                *old(outcome),
                *final(outcome),
                r,
            ),
{
    let n = if active.len() < batch_size {
        active.len()
    } else {
        batch_size
    };
    let times = utc_now_texts(n);
    proof {
        lemma_undated_is_part(entries_view(active@), batch_size as nat);
    }
    phase_backfill_timestamps_at(table, active, batch_size, &times, outcome)
}

/// Fills in timestamps, the first entry at the first of the times, and so on.
pub fn phase_backfill_timestamps_at(
    table: &mut Vec<Entry>,
    active: &Vec<Entry>,
    batch_size: usize,
    times: &Vec<String>,
    outcome: &mut CollationOutcome,
) -> (r: BackfillWrites)
    requires
        old(outcome).timestamps_backfilled + active@.len() <= usize::MAX,
        times@.len() >= active@.len() || times@.len() >= batch_size,
    ensures
        backfill_step(
            entries_view(old(table)@),
            entries_view(final(table)@),
            undated(entries_view(active@), batch_size as nat),
            texts(times@),
            *old(outcome),
            *final(outcome),
            r,
        ),
{
    let todo = backfill_candidates(active, batch_size);
    let ghost before = entries_view(table@);
    let ghost want = entries_view(todo@);
    let ghost start_outcome = *outcome;
    let mut updated: Vec<Entry> = Vec::new();
    let mut sources: Vec<String> = Vec::new();
    let mut ancestors: usize = 0;
    let mut i: usize = 0;
    proof {
        lemma_undated_is_part(entries_view(active@), batch_size as nat);
        assert(want.len() == todo@.len());
        assert(entries_view(active@).len() == active@.len());
        assert(entries_view(updated@) =~= Seq::<EntryView>::empty());
        assert(texts(sources@) =~= Seq::<Seq<char>>::empty());
    }
    while i < todo.len()
        invariant
            i <= todo.len(),
            want == entries_view(todo@),
            want.len() == todo@.len(),
            times@.len() >= todo@.len(),
            updated@.len() == i,
            sources@.len() == i,
            ancestors <= i,
            ancestors == from_ancestors(texts(sources@)),
            is_backfill(
                before,
                want.take(i as int),
                entries_view(updated@),
                texts(sources@),
                texts(times@),
            ),
            entries_view(table@) == stored(before, entries_view(updated@)),
            *outcome == (CollationOutcome {
                timestamps_backfilled: (start_outcome.timestamps_backfilled + i) as usize,
                ..start_outcome
            }),
            start_outcome.timestamps_backfilled + todo@.len() <= usize::MAX,
        decreases todo.len() - i,
    {
        let (start, end, source) = resolve_timestamps_from_ancestors(table, &todo[i]);
        let e = with_timestamps(&todo[i], start.as_str(), end.as_str(), times[i].as_str());
        replace_entry(table, &e);
        let ghost up = entries_view(updated@);
        let ghost src = texts(sources@);
        let from = same_text(source.as_str(), "ancestors");
        proof {
            assert(want[i as int] == todo@[i as int]@);
            assert(entries_view(updated@.push(e)) =~= up.push(e@));
            lemma_texts_push(sources@, source);
            lemma_backfill_push(before, want, up, src, texts(times@), i as int, e@, source@);
        }
        updated.push(e);
        sources.push(source);
        if from {
            ancestors += 1;
        }
        outcome.timestamps_backfilled = outcome.timestamps_backfilled + 1;
        i += 1;
    }
    proof {
        assert(want.take(i as int) =~= want);
    }
    let changelog = if todo.len() == 0 {
        None
    } else {
        Some(backfill_changelog(outcome.timestamps_backfilled, ancestors, todo.len() - ancestors))
    };
    BackfillWrites { updated, sources, changelog }
}

proof fn lemma_backfill_push(
    table: Seq<EntryView>,
    todo: Seq<EntryView>,
    updated: Seq<EntryView>,
    sources: Seq<Seq<char>>,
    times: Seq<Seq<char>>,
    n: int,
    e: EntryView,
    source: Seq<char>,
)
    requires
        0 <= n < todo.len(),
        is_backfill(table, todo.take(n), updated, sources, times),
        is_resolution(
            stored(table, updated),
            todo[n],
            e.start_timestamp,
            e.end_timestamp,
            source,
        ),
        e == dated(todo[n], e.start_timestamp, e.end_timestamp, times[n]),
    ensures
        is_backfill(table, todo.take(n + 1), updated.push(e), sources.push(source), times),
        stored(table, updated.push(e)) == replaced(stored(table, updated), e.id, e),
        from_ancestors(sources.push(source)) == from_ancestors(sources) + if source
            == "ancestors"@ {
            1nat
        } else {
            0
        },
{
    let up = updated.push(e);
    assert(up.drop_last() =~= updated);
    assert(sources.push(source).drop_last() =~= sources);
    assert(up.take(n) =~= updated);
    assert forall|k: int| 0 <= k < n + 1 implies is_resolution(
        stored(table, up.take(k)),
        todo.take(n + 1)[k],
        (#[trigger] up[k]).start_timestamp,
        up[k].end_timestamp,
        sources.push(source)[k],
    ) && up[k] == dated(
        todo.take(n + 1)[k],
        up[k].start_timestamp,
        up[k].end_timestamp,
        times[k],
    ) by {
        if k < n {
            assert(up.take(k) =~= updated.take(k));
            assert(up[k] == updated[k]);
            assert(todo.take(n + 1)[k] == todo.take(n)[k]);
        }
    }
}

proof fn lemma_undated_is_part(entries: Seq<EntryView>, batch: nat)
    ensures
        undated(entries, batch).len() <= entries.len(),
        undated(entries, batch).len() <= batch,
{
    entries.lemma_filter_len(|e: EntryView| e.start_timestamp.len() == 0);
}

/// Filling in works: an entry of which it is known when it was made has a start and an end afterwards.
pub proof fn backfilled_entries_are_dated(
    table: Seq<EntryView>,
    todo: Seq<EntryView>,
    updated: Seq<EntryView>,
    sources: Seq<Seq<char>>,
    times: Seq<Seq<char>>,
    k: int,
)
    requires
        is_backfill(table, todo, updated, sources, times),
        0 <= k < todo.len(),
        todo[k].created_at.len() > 0,
    ensures
        updated[k].start_timestamp.len() > 0,
        updated[k].end_timestamp.len() > 0,
        updated[k].id == todo[k].id,
        updated[k].summary_text == todo[k].summary_text,
{
    assert(updated[k] == dated(
        todo[k],
        updated[k].start_timestamp,
        updated[k].end_timestamp,
        times[k],
    ));
}

/// Whether the confidence of an entry fades: it is above the floor, and the entry was updated at least
/// a second ago. A time of update that cannot be read counts as now.
pub fn may_decay(confidence_bits: u64, floor_bits: u64, age: Option<i64>) -> (r: bool)
    ensures
        r == (!at_most(confidence_bits, floor_bits) && match age {
            Some(a) => a > 0,
            None => false,
        }),
{
    if is_at_most(confidence_bits, floor_bits) {
        return false;
    }
    match age {
        Some(a) => a > 0,
        None => false,
    }
}

/// An entry with a new confidence.
pub fn with_confidence(entry: &Entry, confidence_bits: u64, now: &str) -> (r: Entry)
    ensures
        r@ == (EntryView { confidence_bits, updated_at: now@, ..entry@ }),
{
    let mut e = entry.copied();
    e.confidence_bits = confidence_bits;
    e.updated_at = now.to_owned();
    e
}

/// The audit text of lowered confidences; the half-life is given in whole days.
pub open spec fn decay_audit(decayed: nat, half_life_days: Seq<char>) -> Seq<char> {
    "Confidence decay: "@ + decimal(decayed) + " entries decayed (half-life "@ + half_life_days
        + "d)"@
}

/// The audit text of lowered confidences; the half-life is given in whole days.
pub fn decay_changelog(decayed: usize, half_life_days: &str) -> (r: String)
    ensures
        r@ == decay_audit(decayed as nat, half_life_days@),
{
    let n = decimal_text(decayed as u64);
    cat5("Confidence decay: ", n.as_str(), " entries decayed (half-life ", half_life_days, "d)")
}

/// What becomes of the confidence of an entry.
#[derive(Debug)]
pub struct Fading {
    /// The bits of the faded confidence as a double.
    pub confidence_bits: u64,
    /// The change is too small to be stored.
    pub is_negligible: bool,
}

/// The confidence of an entry is lowered.
pub open spec fn is_lowered(e: EntryView, fading: Fading, floor_bits: u64, now: Seq<char>) -> bool {
    &&& !at_most(e.confidence_bits, floor_bits)
    &&& match rfc3339_age(e.updated_at, now) {
        Some(a) => a > 0,
        None => false,
    }
    &&& !fading.is_negligible
}

/// The entries whose confidence is lowered, with their new confidence.
pub open spec fn lowered_entries(
    entries: Seq<EntryView>,
    fadings: Seq<Fading>,
    floor_bits: u64,
    now: Seq<char>,
) -> Seq<EntryView>
    decreases entries.len(),
{
    if entries.len() == 0 {
        Seq::empty()
    } else {
        let t = lowered_entries(entries.drop_last(), fadings.drop_last(), floor_bits, now);
        if is_lowered(entries.last(), fadings.last(), floor_bits, now) {
            t.push(
                EntryView {
                    confidence_bits: fadings.last().confidence_bits,
                    updated_at: now,
                    ..entries.last()
                },
            )
        } else {
            t
        }
    }
}

/// What has to be written for lowered confidences.
#[derive(Debug)]
pub struct DecayWrites {
    /// The entries to store and to stamp as collated.
    pub updated: Vec<Entry>,
    /// The audit text, where there is anything to report.
    pub changelog: Option<String>,
}

/// What lowering confidences does to the outcome, and what it writes.
pub open spec fn decay_step(
    entries: Seq<EntryView>,
    fadings: Seq<Fading>,
    floor_bits: u64,
    half_life_days: Seq<char>,
    now: Seq<char>,
    old_outcome: CollationOutcome,
    outcome: CollationOutcome,
    w: DecayWrites,
) -> bool {
    let lowered = lowered_entries(entries, fadings, floor_bits, now);
    let decayed = old_outcome.entries_decayed + lowered.len();
    &&& entries_view(w.updated@) == lowered
    &&& outcome == (CollationOutcome {
        entries_decayed: decayed as usize,
        entries_skipped: (old_outcome.entries_skipped + entries.len() - lowered.len()) as usize,
        ..old_outcome
    })
    &&& option_text(w.changelog) == if decayed == 0 {
        None
    } else {
        Some(decay_audit(decayed as nat, half_life_days))
    }
}

/// Lowers the confidence of active entries that have not been updated for a while. `fadings` holds what
/// the confidence of each entry would become.
pub fn phase_confidence_decay(
    entries: &Vec<Entry>,
    fadings: &Vec<Fading>,
    floor_bits: u64,
    half_life_days: &str,
    now: &str,
    outcome: &mut CollationOutcome,
) -> (r: DecayWrites)
    requires
        fadings@.len() == entries@.len(),
        old(outcome).entries_decayed + entries@.len() <= usize::MAX,
        old(outcome).entries_skipped + entries@.len() <= usize::MAX,
    ensures
        decay_step(
            entries_view(entries@),
            fadings@,
            floor_bits,
            half_life_days@,
            now@,
            *old(outcome),
            *final(outcome),
            r,
        ),
{
    let ghost all = entries_view(entries@);
    let ghost start_outcome = *outcome;
    let mut updated: Vec<Entry> = Vec::new();
    let mut i: usize = 0;
    proof {
        assert(entries_view(updated@) =~= lowered_entries(
            all.take(0),
            fadings@.take(0),
            floor_bits,
            now@,
        ));
    }
    while i < entries.len()
        invariant
            i <= entries.len(),
            all == entries_view(entries@),
            fadings@.len() == entries@.len(),
            start_outcome.entries_decayed + entries@.len() <= usize::MAX,
            start_outcome.entries_skipped + entries@.len() <= usize::MAX,
            updated@.len() <= i,
            entries_view(updated@) == lowered_entries(
                all.take(i as int),
                fadings@.take(i as int),
                floor_bits,
                now@,
            ),
            *outcome == (CollationOutcome {
                entries_decayed: (start_outcome.entries_decayed + updated@.len()) as usize,
                entries_skipped: (start_outcome.entries_skipped + i - updated@.len()) as usize,
                ..start_outcome
            }),
        decreases entries.len() - i,
    {
        proof {
            assert(all.take(i + 1).drop_last() =~= all.take(i as int));
            assert(all.take(i + 1).last() == entries@[i as int]@);
            assert(fadings@.take(i + 1).drop_last() =~= fadings@.take(i as int));
            assert(fadings@.take(i + 1).last() == fadings@[i as int]);
        }
        let age = age_seconds(entries[i].updated_at.as_str(), now);
        if may_decay(entries[i].confidence_bits, floor_bits, age) && !fadings[i].is_negligible {
            let e = with_confidence(&entries[i], fadings[i].confidence_bits, now);
            proof {
                assert(entries_view(updated@.push(e)) =~= entries_view(updated@).push(e@));
            }
            updated.push(e);
            outcome.entries_decayed = outcome.entries_decayed + 1;
        } else {
            outcome.entries_skipped = outcome.entries_skipped + 1;
        }
        i += 1;
    }
    proof {
        assert(all.take(i as int) =~= all);
        assert(fadings@.take(i as int) =~= fadings@);
        assert(entries_view(updated@).len() == updated@.len());
    }
    let changelog = if outcome.entries_decayed > 0 {
        Some(decay_changelog(outcome.entries_decayed, half_life_days))
    } else {
        None
    };
    DecayWrites { updated, changelog }
}

/// Fading leaves everything but the confidence and the time of the update as it was, and never touches an
/// entry whose confidence is at the floor already.
pub proof fn decay_lowers_only_confidences(
    entries: Seq<EntryView>,
    fadings: Seq<Fading>,
    floor_bits: u64,
    now: Seq<char>,
    k: int,
)
    requires
        fadings.len() == entries.len(),
        0 <= k < lowered_entries(entries, fadings, floor_bits, now).len(),
    ensures
        exists|i: int|
            0 <= i < entries.len() && !at_most(entries[i].confidence_bits, floor_bits) && (
            EntryView {
                confidence_bits: fadings[i].confidence_bits,
                updated_at: now,
                ..#[trigger] entries[i]
            }) == lowered_entries(entries, fadings, floor_bits, now)[k],
    decreases entries.len(),
{
    let t = lowered_entries(entries.drop_last(), fadings.drop_last(), floor_bits, now);
    if k < t.len() {
        decay_lowers_only_confidences(entries.drop_last(), fadings.drop_last(), floor_bits, now, k);
        let i = choose|i: int|
            0 <= i < entries.len() - 1 && !at_most(
                entries.drop_last()[i].confidence_bits,
                floor_bits,
            ) && (EntryView {
                confidence_bits: fadings.drop_last()[i].confidence_bits,
                updated_at: now,
                ..#[trigger] entries.drop_last()[i]
            }) == t[k];
        assert(entries[i] == entries.drop_last()[i]);
    } else {
        assert(entries[entries.len() - 1] == entries.last());
    }
}

}
