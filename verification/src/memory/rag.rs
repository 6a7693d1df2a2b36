//! Fusing the results of several searches into one ranking.
use crate::clock::{age_seconds, rfc3339_age, rfc3339_instant};
use crate::memory::agent::tool_handlers::found_ids;
use crate::memory::collation::ancestry::text_set;
use crate::memory::confidence::{order_key, score_key};
use crate::text::compose::same_text;
use crate::text::order::{
    sort_ranked, sorting_keeps_members, sorting_orders_and_keeps, stable_sorted, Ranked,
};
use crate::text::split::texts;
use vstd::prelude::*;

verus! {

broadcast use vstd::string::group_string_axioms;

/// How many results are given by default.
pub const DEFAULT_TOP_K: usize = 32;

/// How many whole seconds lie between a time of an entry and now; none where one of them cannot be read.
pub fn entry_age(text: &str, now: &str) -> (r: Option<i64>)
    ensures
        r == rfc3339_age(text@, now@),
        r is Some == (rfc3339_instant(text@) is Some && rfc3339_instant(now@) is Some),
{
    age_seconds(text, now)
}

/// An entry that some search found, with its places in the results, counted from 1.
#[derive(Debug)]
pub struct FusedEntry {
    /// The entry.
    pub entry_id: String,
    /// Its places, those among the vector results first.
    pub ranks: Vec<usize>,
}

/// The places of an entry among the first `n` results, counted from 1.
pub open spec fn ranks_in(results: Seq<Seq<char>>, id: Seq<char>, n: int) -> Seq<int>
    decreases n,
{
    if n <= 0 {
        Seq::empty()
    } else {
        let r = ranks_in(results, id, n - 1);
        if results[n - 1] == id {
            r.push(n)
        } else {
            r
        }
    }
}

/// The places of an entry among all results of two searches.
pub open spec fn fused_ranks(a: Seq<Seq<char>>, b: Seq<Seq<char>>, id: Seq<char>) -> Seq<int> {
    ranks_in(a, id, a.len() as int) + ranks_in(b, id, b.len() as int)
}

/// Places as integers.
pub open spec fn as_ints(v: Seq<usize>) -> Seq<int> {
    Seq::new(v.len(), |i: int| v[i] as int)
}

/// The entries of fused results.
pub open spec fn fused_ids(v: Seq<FusedEntry>) -> Seq<Seq<char>> {
    Seq::new(v.len(), |i: int| v[i].entry_id@)
}

fn collect_ranks(ranks: &mut Vec<usize>, results: &Vec<String>, id: &str)
    ensures
        as_ints(final(ranks)@) == as_ints(old(ranks)@) + ranks_in(
            texts(results@),
            id@,
            results@.len() as int,
        ),
{
    let ghost before = as_ints(ranks@);
    let ghost t = texts(results@);
    let mut i: usize = 0;
    proof {
        assert(as_ints(ranks@) =~= before + ranks_in(t, id@, 0));
    }
    while i < results.len()
        invariant
            i <= results.len(),
            t == texts(results@),
            as_ints(ranks@) == before + ranks_in(t, id@, i as int),
        decreases results.len() - i,
    {
        assert(t[i as int] == results@[i as int]@);
        if same_text(results[i].as_str(), id) {
            proof {
                let n = (i + 1) as usize;
                assert(as_ints(ranks@.push(n)) =~= as_ints(ranks@).push(n as int));
                assert((before + ranks_in(t, id@, i as int)).push(n as int) =~= before + ranks_in(
                    t,
                    id@,
                    i + 1,
                ));
            }
            ranks.push(i + 1);
        }
        i += 1;
    }
}

/// Fuses the results of two searches, each sorted with the best first: every entry that either search
/// found, once, with all its places.
pub fn reciprocal_rank_fusion(vector_ids: &Vec<String>, keyword_ids: &Vec<String>) -> (r: Vec<
    FusedEntry,
>)
    ensures
        fused_ids(r@).no_duplicates(),
        fused_ids(r@).to_set() == text_set(vector_ids@).union(text_set(keyword_ids@)),
        forall|i: int|
            0 <= i < r@.len() ==> as_ints((#[trigger] r@[i]).ranks@) == fused_ranks(
                texts(vector_ids@),
                texts(keyword_ids@),
                r@[i].entry_id@,
            ),
{
    let ids = found_ids(vector_ids, keyword_ids);
    let ghost a = texts(vector_ids@);
    let ghost b = texts(keyword_ids@);
    let mut out: Vec<FusedEntry> = Vec::new();
    let mut i: usize = 0;
    while i < ids.len()
        invariant
            i <= ids.len(),
            a == texts(vector_ids@),
            b == texts(keyword_ids@),
            out@.len() == i,
            forall|k: int|
                0 <= k < i ==> (#[trigger] out@[k]).entry_id@ == ids@[k]@ && as_ints(out@[k].ranks@)
                    == fused_ranks(a, b, ids@[k]@),
        decreases ids.len() - i,
    {
        let mut ranks: Vec<usize> = Vec::new();
        collect_ranks(&mut ranks, vector_ids, ids[i].as_str());
        collect_ranks(&mut ranks, keyword_ids, ids[i].as_str());
        proof {
            let id = ids@[i as int]@;
            assert(as_ints(ranks@) =~= fused_ranks(a, b, id));
        }
        out.push(FusedEntry { entry_id: ids[i].clone(), ranks });
        i += 1;
    }
    assert(fused_ids(out@) =~= texts(ids@));
    out
}

/// An entry with the scores by which it is ranked, held by the bits of doubles: the greater, the better.
#[derive(Debug)]
pub struct RankedEntry {
    /// The entry.
    pub entry_id: String,
    /// The bits of its score.
    pub score_bits: u64,
    /// The bits of what the fusion alone gave it, by which entries with the same score are ranked.
    pub fusion_bits: u64,
}

impl Ranked for RankedEntry {
    open spec fn precedes(a: RankedEntry, b: RankedEntry) -> bool {
        ||| order_key(a.score_bits) > order_key(b.score_bits)
        ||| order_key(a.score_bits) == order_key(b.score_bits) && order_key(a.fusion_bits)
            > order_key(b.fusion_bits)
    }

    proof fn not_precedes_transitive(a: RankedEntry, b: RankedEntry, c: RankedEntry) {
    }

    proof fn precedes_asymmetric(a: RankedEntry, b: RankedEntry) {
    }

    fn ranks_before(&self, other: &RankedEntry) -> (r: bool) {
        let a: i128 = score_key(self.score_bits);
        let b: i128 = score_key(other.score_bits);
        a > b || (a == b && score_key(self.fusion_bits) > score_key(other.fusion_bits))
    }
}

/// The best of the scored entries.
pub open spec fn best_entries(scored: Seq<RankedEntry>, top_k: nat) -> Seq<RankedEntry> {
    let sorted = stable_sorted(scored);
    if sorted.len() <= top_k {
        sorted
    } else {
        sorted.take(top_k as int)
    }
}

/// Ranks scored entries.
#[derive(Debug)]
pub struct RagPipeline {
    /// How many results are given.
    pub top_k: usize,
}

impl Default for RagPipeline {
    fn default() -> (r: RagPipeline)
        ensures
            r.top_k == DEFAULT_TOP_K,
    {
        RagPipeline { top_k: DEFAULT_TOP_K }
    }
}

impl RagPipeline {
    /// A pipeline that gives `top_k` results.
    pub fn new(top_k: usize) -> (r: RagPipeline)
        ensures
            r.top_k == top_k,
    {
        RagPipeline { top_k }
    }

    /// The best of the scored entries, the best first, equally good ones in the order in which they
    /// came. In a private conversation nothing is given.
    pub fn retrieve(&self, scored: Vec<RankedEntry>, is_private: bool) -> (r: Vec<RankedEntry>)
        ensures
            r@ == if is_private {
                Seq::<RankedEntry>::empty()
            } else {
                best_entries(scored@, self.top_k as nat)
            },
    {
        if is_private {
            return Vec::new();
        }
        let mut sorted = sort_ranked(scored);
        if sorted.len() > self.top_k {
            sorted.truncate(self.top_k);
        }
        sorted
    }
}

/// What is given is ranked, at most as much as was asked for, and nothing better is left out: no entry
/// that is left out ranks before one that is given.
pub proof fn best_entries_are_best(scored: Seq<RankedEntry>, top_k: nat, i: int, j: int)
    requires
        0 <= i < best_entries(scored, top_k).len(),
        best_entries(scored, top_k).len() <= j < scored.len(),
    ensures
        best_entries(scored, top_k).len() <= top_k,
        best_entries(scored, top_k)[i] == stable_sorted(scored)[i],
        order_key(stable_sorted(scored)[j].score_bits) <= order_key(
            best_entries(scored, top_k)[i].score_bits,
        ),
{
    sorting_orders_and_keeps(scored);
    let s = stable_sorted(scored);
    assert(!RankedEntry::precedes(s[j], s[i]));
}

/// An entry has a place just where it stands among the results, counted from 1, and its places ascend.
pub proof fn places_are_where_entries_stand(results: Seq<Seq<char>>, id: Seq<char>, n: int, p: int)
    requires
        0 <= n <= results.len(),
    ensures
        ranks_in(results, id, n).contains(p) == (1 <= p <= n && results[p - 1] == id),
        forall|i: int, j: int|
            0 <= i < j < ranks_in(results, id, n).len() ==> #[trigger] ranks_in(results, id, n)[i]
                < #[trigger] ranks_in(results, id, n)[j],
    decreases n,
{
    let r = ranks_in(results, id, n);
    if n > 0 {
        places_are_where_entries_stand(results, id, n - 1, p);
        let t = ranks_in(results, id, n - 1);
        if r.contains(p) {
            let k = choose|k: int| 0 <= k < r.len() && r[k] == p;
            if k < t.len() {
                assert(t[k] == p);
            }
        }
        if t.contains(p) {
            let k = choose|k: int| 0 <= k < t.len() && t[k] == p;
            assert(r[k] == p);
        }
        if results[n - 1] == id {
            assert(r[r.len() - 1] == n);
            assert forall|i: int| 0 <= i < t.len() implies #[trigger] t[i] < n by {
                places_are_where_entries_stand(results, id, n - 1, t[i]);
                assert(t.contains(t[i]));
            }
        }
    }
}

/// The places in both searches count: an entry has all its places among the vector results and all among the
/// keyword results, and no others.
pub proof fn both_searches_count(a: Seq<Seq<char>>, b: Seq<Seq<char>>, id: Seq<char>, p: int)
    ensures
        fused_ranks(a, b, id).contains(p) == (1 <= p <= a.len() && a[p - 1] == id || 1 <= p <= b.len()
            && b[p - 1] == id),
        fused_ranks(a, b, id).len() == ranks_in(a, id, a.len() as int).len() + ranks_in(
            b,
            id,
            b.len() as int,
        ).len(),
{
    places_are_where_entries_stand(a, id, a.len() as int, p);
    places_are_where_entries_stand(b, id, b.len() as int, p);
    let (x, y) = (ranks_in(a, id, a.len() as int), ranks_in(b, id, b.len() as int));
    if x.contains(p) {
        let k = choose|k: int| 0 <= k < x.len() && x[k] == p;
        assert((x + y)[k] == p);
    }
    if y.contains(p) {
        let k = choose|k: int| 0 <= k < y.len() && y[k] == p;
        assert((x + y)[x.len() + k] == p);
    }
    if (x + y).contains(p) {
        let k = choose|k: int| 0 <= k < (x + y).len() && (x + y)[k] == p;
        if k < x.len() {
            assert(x[k] == p);
        } else {
            assert(y[k - x.len()] == p);
        }
    }
}

/// What is given are scored entries, as many as asked for or all, with the higher score first and, among
/// equal scores, the higher fusion first.
pub proof fn better_entries_come_first(scored: Seq<RankedEntry>, top_k: nat, i: int, j: int, x: RankedEntry)
    ensures
        best_entries(scored, top_k).len() == if scored.len() <= top_k {
            scored.len()
        } else {
            top_k
        },
        best_entries(scored, top_k).contains(x) ==> scored.contains(x),
        scored.len() <= top_k && scored.contains(x) ==> best_entries(scored, top_k).contains(x),
        0 <= i < j < best_entries(scored, top_k).len() ==> {
            let (a, b) = (best_entries(scored, top_k)[i], best_entries(scored, top_k)[j]);
            ||| order_key(a.score_bits) > order_key(b.score_bits)
            ||| order_key(a.score_bits) == order_key(b.score_bits) && order_key(a.fusion_bits)
                >= order_key(b.fusion_bits)
        },
{
    sorting_orders_and_keeps(scored);
    sorting_keeps_members(scored, x);
    let s = stable_sorted(scored);
    let r = best_entries(scored, top_k);
    if r.contains(x) {
        let k = choose|k: int| 0 <= k < r.len() && r[k] == x;
        assert(s[k] == x);
    }
    if 0 <= i < j < r.len() {
        let (a, b) = (s[i], s[j]);
        assert(!RankedEntry::precedes(s[j], s[i]));
    }
}

}
