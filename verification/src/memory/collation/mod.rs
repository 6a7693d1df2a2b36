//! Collation: keeping the memory tidy. Entries without timestamps get some, related entries are merged,
//! split or rewritten as a model proposes, and what was looked at is stamped.
use crate::clock::{age_seconds, is_utc_text, rfc3339_age, utc_now_text};
use crate::memory::collation::ancestry::{holds_text, text_set};
use crate::memory::collation::types::CollationConfig;
use crate::memory::db::{entries_view, Entry, EntryView};
use crate::text::compose::same_text;
use crate::text::order::{is_before, text_before};
use crate::text::split::{lemma_texts_push, texts};
use vstd::prelude::*;

pub mod ancestry;
pub mod clustering;
pub mod laws;
pub mod phases;
pub mod prompt;
pub mod refine;
pub mod types;

verus! {

broadcast use vstd::string::group_string_axioms;

/// The most context entries that a model is shown.
pub const MAX_CONTEXT: usize = 10;

/// The entry is to be looked at: it has no image, and it was never collated, was changed since, or was
/// collated longer ago than `ttl` seconds, or at a time that cannot be read. `age` is how long ago.
pub open spec fn is_due(e: EntryView, age: Option<i64>, ttl: i64) -> bool {
    &&& e.image_path.len() == 0
    &&& {
        ||| e.collated_at.len() == 0
        ||| text_before(e.collated_at, e.updated_at)
        ||| match age {
            Some(a) => a > ttl,
            None => true,
        }
    }
}

/// The active entries.
pub open spec fn is_active(e: EntryView) -> bool {
    e.status == "active"@
}

/// The first `n` items, or all where there are fewer.
pub open spec fn first_n<T>(s: Seq<T>, n: nat) -> Seq<T> {
    if s.len() <= n {
        s
    } else {
        s.take(n as int)
    }
}

/// Decides what a collation does.
#[derive(Debug)]
pub struct CollationManager {
    /// The configuration.
    pub config: CollationConfig,
}

impl CollationManager {
    /// A manager with a configuration.
    pub fn new(config: CollationConfig) -> (r: CollationManager)
        ensures
            r.config == config,
    {
        CollationManager { config }
    }

    /// Whether the entry, collated `age` seconds ago, is to be looked at.
    pub fn is_refine_candidate_aged(&self, e: &Entry, age: Option<i64>) -> (r: bool)
        ensures
            r == is_due(e@, age, self.config.reconsider_ttl_seconds),
    {
        if !e.image_path.as_str().is_empty() {
            return false;
        }
        if e.collated_at.as_str().is_empty() {
            return true;
        }
        if is_before(e.collated_at.as_str(), e.updated_at.as_str()) {
            return true;
        }
        match age {
            Some(a) => a > self.config.reconsider_ttl_seconds,
            None => true,
        }
    }

    /// Whether the entry is to be looked at, as of a given time.
    pub fn is_refine_candidate_at(&self, e: &Entry, now: &str) -> (r: bool)
        ensures
            r == is_due(
                e@,
                rfc3339_age(e.collated_at@, now@),
                self.config.reconsider_ttl_seconds,
            ),
    {
        let age = age_seconds(e.collated_at.as_str(), now);
        self.is_refine_candidate_aged(e, age)
    }

    /// Whether the entry is to be looked at now.
    pub fn is_refine_candidate(&self, e: &Entry) -> (r: bool)
        ensures
            exists|now: Seq<char>|
                is_utc_text(now) && r == is_due(
                    e@,
                    #[trigger] rfc3339_age(e.collated_at@, now),
                    self.config.reconsider_ttl_seconds,
                ),
    {
        let now = utc_now_text();
        self.is_refine_candidate_at(e, now.as_str())
    }

    /// The entries that are to be looked at, as of a given time.
    pub open spec fn due_entries(&self, entries: Seq<EntryView>, now: Seq<char>) -> Seq<EntryView> {
        entries.filter(
            |e: EntryView|
                is_due(e, rfc3339_age(e.collated_at, now), self.config.reconsider_ttl_seconds),
        )
    }

    /// `r` are the entries that a run looks at: those that are due, at most `limit` of them.
    pub open spec fn are_selected(
        &self,
        entries: Seq<EntryView>,
        now: Seq<char>,
        limit: Option<usize>,
        r: Seq<EntryView>,
    ) -> bool {
        r == match limit {
            Some(n) => first_n(self.due_entries(entries, now), n as nat),
            None => self.due_entries(entries, now),
        }
    }

    /// The entries that a run looks at: those that are due, at most `limit` of them.
    pub fn select_candidates(&self, entries: &Vec<Entry>, now: &str, limit: Option<usize>) -> (r: Vec<
        Entry,
    >)
        ensures
            self.are_selected(entries_view(entries@), now@, limit, entries_view(r@)),
    {
        let ghost all = entries_view(entries@);
        let mut out: Vec<Entry> = Vec::new();
        let mut i: usize = 0;
        proof {
            reveal(Seq::filter);
            assert(entries_view(out@) =~= self.due_entries(all.take(0), now@));
        }
        while i < entries.len()
            invariant
                i <= entries.len(),
                all == entries_view(entries@),
                entries_view(out@) == self.due_entries(all.take(i as int), now@),
            decreases entries.len() - i,
        {
            proof {
                reveal(Seq::filter);
                assert(all.take(i + 1).drop_last() =~= all.take(i as int));
                assert(all.take(i + 1).last() == entries@[i as int]@);
            }
            if self.is_refine_candidate_at(&entries[i], now) {
                let e = entries[i].copied();
                proof {
                    assert(entries_view(out@.push(e)) =~= entries_view(out@).push(e@));
                }
                out.push(e);
            }
            i += 1;
        }
        proof {
            assert(all.take(i as int) =~= all);
        }
        let ghost due = entries_view(out@);
        match limit {
            Some(n) => {
                if n < out.len() {
                    out.truncate(n);
                    assert(entries_view(out@) =~= due.take(n as int));
                }
            },
            None => {},
        }
        out
    }
}

/// The found entries that may serve as context: those that are no candidates, the first ten of them.
pub open spec fn context_ids(found: Seq<Seq<char>>, candidate_ids: Set<Seq<char>>) -> Seq<Seq<char>> {
    first_n(found.filter(|id: Seq<char>| !candidate_ids.contains(id)), MAX_CONTEXT as nat)
}

/// How many entries near a cluster are searched for, so that enough are left for context.
pub fn context_search_size(cluster_size: usize) -> (r: usize)
    requires
        cluster_size + MAX_CONTEXT <= usize::MAX,
    ensures
        r == MAX_CONTEXT + cluster_size,
{
    MAX_CONTEXT + cluster_size
}

/// `r` is the context of a cluster: of the active entries those that were found near it and are no
/// candidates.
pub open spec fn are_context(
    found: Seq<Seq<char>>,
    entries: Seq<EntryView>,
    candidate_ids: Set<Seq<char>>,
    r: Seq<EntryView>,
) -> bool {
    r == entries.filter(
        |e: EntryView| context_ids(found, candidate_ids).contains(e.id) && is_active(e),
    )
}

/// The context of a cluster: of the active entries those that were found near it and are no candidates.
pub fn fetch_context_entries(
    found: &Vec<String>,
    entries: &Vec<Entry>,
    candidate_ids: &Vec<String>,
) -> (r: Vec<Entry>)
    ensures
        are_context(
            texts(found@),
            entries_view(entries@),
            text_set(candidate_ids@),
            entries_view(r@),
        ),
{
    let ghost cand = text_set(candidate_ids@);
    let ghost f = texts(found@);
    let ghost not_cand = |id: Seq<char>| !cand.contains(id);
    let mut ids: Vec<String> = Vec::new();
    let mut i: usize = 0;
    proof {
        reveal(Seq::filter);
        assert(texts(ids@) =~= f.take(0).filter(not_cand));
    }
    while i < found.len()
        invariant
            i <= found.len(),
            f == texts(found@),
            cand == text_set(candidate_ids@),
            not_cand == (|id: Seq<char>| !cand.contains(id)),
            texts(ids@) == f.take(i as int).filter(not_cand),
        decreases found.len() - i,
    {
        proof {
            reveal(Seq::filter);
            assert(f.take(i + 1).drop_last() =~= f.take(i as int));
            assert(f.take(i + 1).last() == found@[i as int]@);
        }
        if !holds_text(candidate_ids, found[i].as_str()) {
            let s = found[i].clone();
            proof {
                lemma_texts_push(ids@, s);
            }
            ids.push(s);
        }
        i += 1;
    }
    proof {
        assert(f.take(i as int) =~= f);
    }
    let ghost kept = texts(ids@);
    if ids.len() > MAX_CONTEXT {
        ids.truncate(MAX_CONTEXT);
        assert(texts(ids@) =~= kept.take(MAX_CONTEXT as int));
    }
    let ghost wanted = context_ids(f, cand);
    assert(texts(ids@) == wanted);
    let ghost pred = |e: EntryView| wanted.contains(e.id) && is_active(e);
    let ghost all = entries_view(entries@);
    let mut out: Vec<Entry> = Vec::new();
    let mut k: usize = 0;
    proof {
        reveal(Seq::filter);
        assert(entries_view(out@) =~= all.take(0).filter(pred));
    }
    while k < entries.len()
        invariant
            k <= entries.len(),
            all == entries_view(entries@),
            texts(ids@) == wanted,
            pred == (|e: EntryView| wanted.contains(e.id) && is_active(e)),
            entries_view(out@) == all.take(k as int).filter(pred),
        decreases entries.len() - k,
    {
        proof {
            reveal(Seq::filter);
            assert(all.take(k + 1).drop_last() =~= all.take(k as int));
            assert(all.take(k + 1).last() == entries@[k as int]@);
        }
        if holds_text(&ids, entries[k].id.as_str()) && same_text(
            entries[k].status.as_str(),
            "active",
        ) {
            let e = entries[k].copied();
            proof {
                assert(entries_view(out@.push(e)) =~= entries_view(out@).push(e@));
            }
            out.push(e);
        }
        k += 1;
    }
    proof {
        assert(all.take(k as int) =~= all);
        assert(pred =~= (|e: EntryView|
            context_ids(texts(found@), text_set(candidate_ids@)).contains(e.id) && is_active(e)));
    }
    out
}

}
