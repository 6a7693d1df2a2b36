//! Timestamps of entries that have none, taken from the entries they were made from.
use crate::memory::db::{entries_view, entry_of, find_entry, Entry, EntryView};
use crate::text::compose::same_text;
use crate::text::order::{
    is_before, text_before, text_order_irreflexive, text_order_total, text_order_transitive,
};
use crate::text::split::{
    joined, lemma_texts_push, pieces, split_text, splitting_joined_restores, texts,
};
use crate::text::trim::{trim_text, trimmed, CharClass};
use vstd::prelude::*;

verus! {

broadcast use vstd::string::group_string_axioms;

/// How many generations are searched.
pub const MAX_DEPTH: usize = 10;

/// `id` is, trimmed, one of the first `n` pieces, and not empty.
pub open spec fn listed_among(p: Seq<Seq<char>>, n: int, id: Seq<char>) -> bool {
    id.len() > 0 && exists|k: int| 0 <= k < n && trimmed(#[trigger] p[k]) == id
}

/// The identifiers among the first `n` pieces.
pub open spec fn ids_among(p: Seq<Seq<char>>, n: int) -> Set<Seq<char>> {
    Set::new(|id: Seq<char>| listed_among(p, n, id))
}

/// The identifiers in a list separated by commas: trimmed, without empty ones.
pub open spec fn listed_ids(list: Seq<char>) -> Set<Seq<char>> {
    let p = pieces(list, CharClass::One(','));
    ids_among(p, p.len() as int)
}

/// An identifier that a list separated by commas can carry: not empty, without white space at its ends, and
/// without a comma.
pub open spec fn can_be_listed(id: Seq<char>) -> bool {
    id.len() > 0 && trimmed(id) == id && !id.contains(',')
}

/// The identifiers that are written into a list are the ones that are read from it.
pub proof fn listed_identifiers_are_read_back(ids: Seq<Seq<char>>)
    requires
        forall|i: int| 0 <= i < ids.len() ==> can_be_listed(#[trigger] ids[i]),
    ensures
        listed_ids(joined(ids, ","@)) == ids.to_set(),
{
    reveal_strlit(",");
    assert(","@ =~= seq![',']);
    let list = joined(ids, ","@);
    let p = pieces(list, CharClass::One(','));
    if ids.len() > 0 {
        assert forall|i: int| 0 <= i < ids.len() implies !(#[trigger] ids[i]).contains(',') by {
            assert(can_be_listed(ids[i]));
        }
        splitting_joined_restores(ids, ',');
        assert(p == ids);
    }
    assert forall|id: Seq<char>| listed_ids(list).contains(id) == ids.to_set().contains(id) by {
        if ids.contains(id) {
            let k = choose|k: int| 0 <= k < ids.len() && ids[k] == id;
            assert(can_be_listed(ids[k]));
            assert(trimmed(p[k]) == id);
        }
        if listed_among(p, p.len() as int, id) {
            let k = choose|k: int| 0 <= k < p.len() && trimmed(#[trigger] p[k]) == id;
            if ids.len() > 0 {
                assert(can_be_listed(ids[k]));
                assert(ids[k] == id);
            } else {
                assert(trimmed(p[k]).len() == 0);
            }
        }
    }
    assert(listed_ids(list) =~= ids.to_set());
}

/// The entries that are searched instead of an entry without a start: those it was made from.
pub open spec fn parents(table: Seq<EntryView>, id: Seq<char>) -> Set<Seq<char>> {
    match entry_of(table, id) {
        Some(e) => if e.start_timestamp.len() == 0 {
            listed_ids(e.source_entry_ids)
        } else {
            Set::empty()
        },
        None => Set::empty(),
    }
}

/// `roots`, and what is reached from them in `d` steps at most.
pub open spec fn reach(table: Seq<EntryView>, roots: Set<Seq<char>>, d: nat) -> Set<Seq<char>>
    decreases d,
{
    if d == 0 {
        roots
    } else {
        let r = reach(table, roots, (d - 1) as nat);
        r.union(
            Set::new(
                |x: Seq<char>|
                    exists|a: Seq<char>| #[trigger] r.contains(a) && parents(table, a).contains(x),
            ),
        )
    }
}

/// The ancestors of an entry that are looked at.
pub open spec fn ancestors(table: Seq<EntryView>, entry: EntryView) -> Set<Seq<char>> {
    reach(table, listed_ids(entry.source_entry_ids), (MAX_DEPTH - 1) as nat)
}

/// `t` is the start of one of the entries.
pub open spec fn is_start(table: Seq<EntryView>, ids: Set<Seq<char>>, t: Seq<char>) -> bool {
    t.len() > 0 && exists|a: Seq<char>| #[trigger]
        ids.contains(a) && entry_of(table, a) is Some && entry_of(table, a)->Some_0.start_timestamp
            == t
}

/// `t` is the end of one of the entries.
pub open spec fn is_end(table: Seq<EntryView>, ids: Set<Seq<char>>, t: Seq<char>) -> bool {
    t.len() > 0 && exists|a: Seq<char>| #[trigger]
        ids.contains(a) && entry_of(table, a) is Some && entry_of(table, a)->Some_0.end_timestamp
            == t
}

/// `t` is the earliest start of the entries.
pub open spec fn is_earliest_start(table: Seq<EntryView>, ids: Set<Seq<char>>, t: Seq<char>) -> bool {
    is_start(table, ids, t) && forall|u: Seq<char>| #[trigger]
        is_start(table, ids, u) ==> !text_before(u, t)
}

/// `t` is the latest end of the entries.
pub open spec fn is_latest_end(table: Seq<EntryView>, ids: Set<Seq<char>>, t: Seq<char>) -> bool {
    is_end(table, ids, t) && forall|u: Seq<char>| #[trigger]
        is_end(table, ids, u) ==> !text_before(t, u)
}

/// `start` and `end` are the timestamps of an entry: the earliest start and the latest end of its
/// ancestors, the start standing in for a missing end; where no ancestor has a start, the time at which
/// the entry was made.
pub open spec fn is_resolution(
    table: Seq<EntryView>,
    entry: EntryView,
    start: Seq<char>,
    end: Seq<char>,
    source: Seq<char>,
) -> bool {
    let ids = ancestors(table, entry);
    if exists|t: Seq<char>| #[trigger] is_start(table, ids, t) {
        &&& source == "ancestors"@
        &&& is_earliest_start(table, ids, start)
        &&& if exists|t: Seq<char>| #[trigger] is_end(table, ids, t) {
            is_latest_end(table, ids, end)
        } else {
            end == start
        }
    } else {
        &&& source == "created_at"@
        &&& start == entry.created_at
        &&& end == entry.created_at
    }
}

/// The earliest start of a set of entries is one text only, and so is the latest end.
pub proof fn resolution_is_unique(
    table: Seq<EntryView>,
    entry: EntryView,
    a: (Seq<char>, Seq<char>, Seq<char>),
    b: (Seq<char>, Seq<char>, Seq<char>),
)
    requires
        is_resolution(table, entry, a.0, a.1, a.2),
        is_resolution(table, entry, b.0, b.1, b.2),
    ensures
        a == b,
{
    text_order_total(a.0, b.0);
    text_order_total(a.1, b.1);
}

/// The set of the texts of a vector.
pub open spec fn text_set(v: Seq<String>) -> Set<Seq<char>> {
    texts(v).to_set()
}

pub proof fn lemma_text_set_push(v: Seq<String>, s: String)
    ensures
        text_set(v.push(s)) == text_set(v).insert(s@),
{
    lemma_texts_push(v, s);
    let a = texts(v);
    assert forall|x: Seq<char>| text_set(v.push(s)).contains(x) == text_set(v).insert(s@).contains(
        x,
    ) by {
        if a.push(s@).contains(x) {
            let i = choose|i: int| 0 <= i < a.push(s@).len() && a.push(s@)[i] == x;
            if i < a.len() {
                assert(a[i] == x);
            }
        }
        if a.contains(x) {
            let i = choose|i: int| 0 <= i < a.len() && a[i] == x;
            assert(a.push(s@)[i] == x);
        }
        assert(a.push(s@)[a.len() as int] == s@);
    }
    assert(text_set(v.push(s)) =~= text_set(v).insert(s@));
}

/// Whether the text is one of the strings.
pub fn holds_text(v: &Vec<String>, t: &str) -> (r: bool)
    ensures
        r == text_set(v@).contains(t@),
        r == texts(v@).contains(t@),
{
    let mut i: usize = 0;
    while i < v.len()
        invariant
            i <= v.len(),
            forall|k: int| 0 <= k < i ==> v@[k]@ != t@,
        decreases v.len() - i,
    {
        if same_text(v[i].as_str(), t) {
            assert(texts(v@)[i as int] == t@);
            return true;
        }
        i += 1;
    }
    false
}

proof fn lemma_ids_step(p: Seq<Seq<char>>, n: int)
    requires
        0 <= n < p.len(),
    ensures
        ids_among(p, n + 1) == if trimmed(p[n]).len() > 0 {
            ids_among(p, n).insert(trimmed(p[n]))
        } else {
            ids_among(p, n)
        },
{
    let t = trimmed(p[n]);
    assert forall|id: Seq<char>| #[trigger]
        listed_among(p, n + 1, id) == (listed_among(p, n, id) || (t.len() > 0 && id == t)) by {
        if listed_among(p, n + 1, id) {
            let k = choose|k: int| 0 <= k < n + 1 && trimmed(#[trigger] p[k]) == id;
            if k < n {
                assert(trimmed(p[k]) == id);
            }
        }
        if listed_among(p, n, id) {
            let k = choose|k: int| 0 <= k < n && trimmed(#[trigger] p[k]) == id;
            assert(trimmed(p[k]) == id);
        }
    }
    if t.len() > 0 {
        assert(ids_among(p, n + 1) =~= ids_among(p, n).insert(t));
    } else {
        assert(ids_among(p, n + 1) =~= ids_among(p, n));
    }
}

/// The identifiers in a list separated by commas.
pub fn split_ids(list: &str) -> (r: Vec<String>)
    ensures
        text_set(r@) == listed_ids(list@),
{
    let parts = split_text(list, CharClass::One(','));
    let ghost p = texts(parts@);
    let mut out: Vec<String> = Vec::new();
    let mut i: usize = 0;
    proof {
        assert(text_set(out@) =~= ids_among(p, 0));
    }
    while i < parts.len()
        invariant
            i <= parts.len(),
            p == texts(parts@),
            text_set(out@) == ids_among(p, i as int),
        decreases parts.len() - i,
    {
        let t = trim_text(parts[i].as_str());
        proof {
            assert(p[i as int] == parts@[i as int]@);
            lemma_ids_step(p, i as int);
        }
        if !t.as_str().is_empty() {
            proof {
                lemma_text_set_push(out@, t);
            }
            out.push(t);
        }
        i += 1;
    }
    out
}

/// The search so far: the entries that were looked at, and the earliest start and latest end among
/// them; both are empty where there is none.
struct Search {
    visited: Vec<String>,
    min_start: String,
    max_end: String,
}

impl Search {
    spec fn wf(&self, table: Seq<EntryView>) -> bool {
        let ids = text_set(self.visited@);
        &&& if self.min_start@.len() == 0 {
            forall|t: Seq<char>| !#[trigger] is_start(table, ids, t)
        } else {
            is_earliest_start(table, ids, self.min_start@)
        }
        &&& if self.max_end@.len() == 0 {
            forall|t: Seq<char>| !#[trigger] is_end(table, ids, t)
        } else {
            is_latest_end(table, ids, self.max_end@)
        }
    }
}

proof fn lemma_starts_grow(table: Seq<EntryView>, ids: Set<Seq<char>>, id: Seq<char>, t: Seq<char>)
    ensures
        is_start(table, ids.insert(id), t) == (is_start(table, ids, t) || (t.len() > 0 && entry_of(
            table,
            id,
        ) is Some && entry_of(table, id)->Some_0.start_timestamp == t)),
        is_end(table, ids.insert(id), t) == (is_end(table, ids, t) || (t.len() > 0 && entry_of(
            table,
            id,
        ) is Some && entry_of(table, id)->Some_0.end_timestamp == t)),
{
    let more = ids.insert(id);
    if is_start(table, ids, t) {
        let a = choose|a: Seq<char>| #[trigger]
            ids.contains(a) && entry_of(table, a) is Some && entry_of(
                table,
                a,
            )->Some_0.start_timestamp == t;
        assert(more.contains(a));
    }
    if is_end(table, ids, t) {
        let a = choose|a: Seq<char>| #[trigger]
            ids.contains(a) && entry_of(table, a) is Some && entry_of(
                table,
                a,
            )->Some_0.end_timestamp == t;
        assert(more.contains(a));
    }
    assert(more.contains(id));
    if is_start(table, more, t) {
        let a = choose|a: Seq<char>| #[trigger]
            more.contains(a) && entry_of(table, a) is Some && entry_of(
                table,
                a,
            )->Some_0.start_timestamp == t;
        if a != id {
            assert(ids.contains(a));
        }
    }
    if is_end(table, more, t) {
        let a = choose|a: Seq<char>| #[trigger]
            more.contains(a) && entry_of(table, a) is Some && entry_of(
                table,
                a,
            )->Some_0.end_timestamp == t;
        if a != id {
            assert(ids.contains(a));
        }
    }
}

proof fn lemma_better_start(
    table: Seq<EntryView>,
    ids: Set<Seq<char>>,
    id: Seq<char>,
    old_min: Seq<char>,
    new_min: Seq<char>,
)
    requires
        entry_of(table, id) is Some,
        if old_min.len() == 0 {
            forall|t: Seq<char>| !#[trigger] is_start(table, ids, t)
        } else {
            is_earliest_start(table, ids, old_min)
        },
        ({
            let s = entry_of(table, id)->Some_0.start_timestamp;
            new_min == if s.len() > 0 && (old_min.len() == 0 || text_before(s, old_min)) {
                s
            } else {
                old_min
            }
        }),
    ensures
        if new_min.len() == 0 {
            forall|t: Seq<char>| !#[trigger] is_start(table, ids.insert(id), t)
        } else {
            is_earliest_start(table, ids.insert(id), new_min)
        },
{
    let s = entry_of(table, id)->Some_0.start_timestamp;
    let more = ids.insert(id);
    assert forall|t: Seq<char>| #[trigger]
        is_start(table, more, t) == (is_start(table, ids, t) || (t.len() > 0 && s == t)) by {
        lemma_starts_grow(table, ids, id, t);
    }
    if new_min.len() > 0 {
        assert(is_start(table, more, new_min));
        assert forall|u: Seq<char>| #[trigger] is_start(table, more, u) implies !text_before(
            u,
            new_min,
        ) by {
            text_order_irreflexive(u);
            if is_start(table, ids, u) && new_min == s && s != old_min {
                if text_before(u, s) {
                    text_order_transitive(u, s, old_min);
                }
            }
        }
    }
}

proof fn lemma_better_end(
    table: Seq<EntryView>,
    ids: Set<Seq<char>>,
    id: Seq<char>,
    old_max: Seq<char>,
    new_max: Seq<char>,
)
    requires
        entry_of(table, id) is Some,
        if old_max.len() == 0 {
            forall|t: Seq<char>| !#[trigger] is_end(table, ids, t)
        } else {
            is_latest_end(table, ids, old_max)
        },
        ({
            let s = entry_of(table, id)->Some_0.end_timestamp;
            new_max == if s.len() > 0 && (old_max.len() == 0 || text_before(old_max, s)) {
                s
            } else {
                old_max
            }
        }),
    ensures
        if new_max.len() == 0 {
            forall|t: Seq<char>| !#[trigger] is_end(table, ids.insert(id), t)
        } else {
            is_latest_end(table, ids.insert(id), new_max)
        },
{
    let s = entry_of(table, id)->Some_0.end_timestamp;
    let more = ids.insert(id);
    assert forall|t: Seq<char>| #[trigger]
        is_end(table, more, t) == (is_end(table, ids, t) || (t.len() > 0 && s == t)) by {
        lemma_starts_grow(table, ids, id, t);
    }
    if new_max.len() > 0 {
        assert(is_end(table, more, new_max));
        assert forall|u: Seq<char>| #[trigger] is_end(table, more, u) implies !text_before(
            new_max,
            u,
        ) by {
            text_order_irreflexive(u);
            if is_end(table, ids, u) && new_max == s && s != old_max {
                if text_before(s, u) {
                    text_order_transitive(old_max, s, u);
                }
            }
        }
    }
}

impl Search {
    /// Looks at one more entry and returns what it was made from, if it has no start itself.
    fn visit(&mut self, table: &Vec<Entry>, id: &String) -> (r: Vec<String>)
        requires
            old(self).wf(entries_view(table@)),
            !text_set(old(self).visited@).contains(id@),
        ensures
            final(self).wf(entries_view(table@)),
            text_set(final(self).visited@) == text_set(old(self).visited@).insert(id@),
            text_set(r@) == parents(entries_view(table@), id@),
    {
        let ghost t = entries_view(table@);
        let ghost ids = text_set(self.visited@);
        proof {
            lemma_text_set_push(self.visited@, *id);
        }
        self.visited.push(id.clone());
        let none: Vec<String> = Vec::new();
        proof {
            assert(text_set(none@) =~= Set::<Seq<char>>::empty());
        }
        match find_entry(table, id.as_str()) {
            None => {
                proof {
                    assert forall|u: Seq<char>| #[trigger] is_start(t, ids.insert(id@), u)
                        == is_start(t, ids, u) by {
                        lemma_starts_grow(t, ids, id@, u);
                    }
                    assert forall|u: Seq<char>| #[trigger] is_end(t, ids.insert(id@), u) == is_end(
                        t,
                        ids,
                        u,
                    ) by {
                        lemma_starts_grow(t, ids, id@, u);
                    }
                }
                none
            },
            Some(k) => {
                let a = &table[k];
                let ghost old_min = self.min_start@;
                let ghost old_max = self.max_end@;
                if !a.start_timestamp.as_str().is_empty() {
                    if self.min_start.as_str().is_empty() || is_before(
                        a.start_timestamp.as_str(),
                        self.min_start.as_str(),
                    ) {
                        self.min_start = a.start_timestamp.clone();
                    }
                }
                if !a.end_timestamp.as_str().is_empty() {
                    if self.max_end.as_str().is_empty() || is_before(
                        self.max_end.as_str(),
                        a.end_timestamp.as_str(),
                    ) {
                        self.max_end = a.end_timestamp.clone();
                    }
                }
                proof {
                    lemma_better_start(t, ids, id@, old_min, self.min_start@);
                    lemma_better_end(t, ids, id@, old_max, self.max_end@);
                }
                if a.start_timestamp.as_str().is_empty() {
                    split_ids(a.source_entry_ids.as_str())
                } else {
                    none
                }
            },
        }
    }
}

proof fn lemma_reach_fixpoint(table: Seq<EntryView>, roots: Set<Seq<char>>, d: nat, n: nat)
    requires
        reach(table, roots, d + 1) == reach(table, roots, d),
        n >= d,
    ensures
        reach(table, roots, n) == reach(table, roots, d),
    decreases n,
{
    if n > d {
        lemma_reach_fixpoint(table, roots, d, (n - 1) as nat);
    }
}

proof fn lemma_reach_of_none(table: Seq<EntryView>, roots: Set<Seq<char>>, n: nat)
    requires
        roots == Set::<Seq<char>>::empty(),
    ensures
        reach(table, roots, n) == Set::<Seq<char>>::empty(),
    decreases n,
{
    if n > 0 {
        lemma_reach_of_none(table, roots, (n - 1) as nat);
        assert(reach(table, roots, n) =~= Set::<Seq<char>>::empty());
    }
}

/// The next generation is known once every entry of this one has been looked at.
proof fn lemma_next_generation(
    table: Seq<EntryView>,
    roots: Set<Seq<char>>,
    d: nat,
    next: Set<Seq<char>>,
)
    requires
        forall|x: Seq<char>| #[trigger]
            next.contains(x) ==> exists|a: Seq<char>| #[trigger]
                reach(table, roots, d).contains(a) && parents(table, a).contains(x),
        forall|a: Seq<char>, x: Seq<char>|
            reach(table, roots, d).contains(a) && #[trigger] parents(table, a).contains(x)
                ==> reach(table, roots, d).contains(x) || next.contains(x),
    ensures
        reach(table, roots, d).union(next) == reach(table, roots, d + 1),
{
    let r = reach(table, roots, d);
    assert forall|x: Seq<char>| #[trigger] r.union(next).contains(x) == reach(
        table,
        roots,
        d + 1,
    ).contains(x) by {
        if reach(table, roots, d + 1).contains(x) && !r.contains(x) {
            let a = choose|a: Seq<char>| #[trigger] r.contains(a) && parents(table, a).contains(x);
            assert(parents(table, a).contains(x));
        }
    }
    assert(r.union(next) =~= reach(table, roots, d + 1));
}

/// Looks at a whole generation and returns the next one.
fn visit_generation(
    search: &mut Search,
    table: &Vec<Entry>,
    to_visit: &Vec<String>,
    Ghost(roots): Ghost<Set<Seq<char>>>,
    Ghost(d): Ghost<nat>,
) -> (r: Vec<String>)
    requires
        old(search).wf(entries_view(table@)),
        text_set(old(search).visited@).union(text_set(to_visit@)) == reach(
            entries_view(table@),
            roots,
            d,
        ),
        forall|a: Seq<char>, x: Seq<char>|
            text_set(old(search).visited@).contains(a) && #[trigger] parents(
                entries_view(table@),
                a,
            ).contains(x) ==> reach(entries_view(table@), roots, d).contains(x),
    ensures
        final(search).wf(entries_view(table@)),
        text_set(final(search).visited@) == reach(entries_view(table@), roots, d),
        text_set(final(search).visited@).union(text_set(r@)) == reach(
            entries_view(table@),
            roots,
            d + 1,
        ),
{
    let ghost t = entries_view(table@);
    let ghost reached = reach(t, roots, d);
    let ghost v0 = text_set(search.visited@);
    let ghost todo = texts(to_visit@);
    let mut next: Vec<String> = Vec::new();
    let mut k: usize = 0;
    while k < to_visit.len()
        invariant
            k <= to_visit.len(),
            t == entries_view(table@),
            todo == texts(to_visit@),
            reached == reach(t, roots, d),
            v0.union(text_set(to_visit@)) == reached,
            search.wf(t),
            v0.subset_of(text_set(search.visited@)),
            text_set(search.visited@).subset_of(reached),
            forall|i: int| 0 <= i < k ==> text_set(search.visited@).contains(#[trigger] todo[i]),
            forall|a: Seq<char>, x: Seq<char>|
                v0.contains(a) && #[trigger] parents(t, a).contains(x) ==> reached.contains(x),
            forall|x: Seq<char>| #[trigger]
                text_set(next@).contains(x) ==> exists|a: Seq<char>| #[trigger]
                    reached.contains(a) && parents(t, a).contains(x),
            forall|a: Seq<char>, x: Seq<char>|
                text_set(search.visited@).contains(a) && !v0.contains(a) && #[trigger] parents(
                    t,
                    a,
                ).contains(x) ==> reached.contains(x) || text_set(next@).contains(x),
        decreases to_visit.len() - k,
    {
        let id = &to_visit[k];
        proof {
            assert(todo[k as int] == id@);
            assert(text_set(to_visit@).contains(id@));
            assert(reached.contains(id@));
        }
        if !holds_text(&search.visited, id.as_str()) {
            let ghost seen = text_set(search.visited@);
            let found = search.visit(table, id);
            let mut j: usize = 0;
            let ghost f = texts(found@);
            while j < found.len()
                invariant
                    j <= found.len(),
                    f == texts(found@),
                    text_set(found@) == parents(t, id@),
                    reached.contains(id@),
                    text_set(search.visited@).subset_of(reached),
                    forall|x: Seq<char>| #[trigger]
                        text_set(next@).contains(x) ==> exists|a: Seq<char>| #[trigger]
                            reached.contains(a) && parents(t, a).contains(x),
                    forall|a: Seq<char>, x: Seq<char>|
                        seen.contains(a) && !v0.contains(a) && #[trigger] parents(t, a).contains(x)
                            ==> reached.contains(x) || text_set(next@).contains(x),
                    forall|i: int|
                        0 <= i < j ==> reached.contains(#[trigger] f[i]) || text_set(
                            next@,
                        ).contains(f[i]),
                decreases found.len() - j,
            {
                proof {
                    assert(f[j as int] == found@[j as int]@);
                    assert(text_set(found@).contains(f[j as int]));
                }
                if !holds_text(&search.visited, found[j].as_str()) {
                    let s = found[j].clone();
                    proof {
                        lemma_text_set_push(next@, s);
                    }
                    next.push(s);
                }
                j += 1;
            }
            proof {
                assert forall|x: Seq<char>| #[trigger] parents(t, id@).contains(x) implies
                    reached.contains(x) || text_set(next@).contains(x) by {
                    assert(f.contains(x));
                    let i = choose|i: int| 0 <= i < f.len() && f[i] == x;
                    assert(f[i] == x);
                }
            }
        }
        k += 1;
    }
    proof {
        assert forall|x: Seq<char>| #[trigger] text_set(search.visited@).contains(x)
            == reached.contains(x) by {
            if reached.contains(x) && !v0.contains(x) {
                assert(text_set(to_visit@).contains(x));
                let i = choose|i: int| 0 <= i < todo.len() && todo[i] == x;
                assert(text_set(search.visited@).contains(todo[i]));
            }
        }
        assert(text_set(search.visited@) =~= reached);
        lemma_next_generation(t, roots, d, text_set(next@));
    }
    next
}

/// The timestamps of an entry that has none, and where they come from: `ancestors` or `created_at`.
pub fn resolve_timestamps_from_ancestors(table: &Vec<Entry>, entry: &Entry) -> (r: (
    String,
    String,
    String,
))
    ensures
        is_resolution(entries_view(table@), entry@, r.0@, r.1@, r.2@),
{
    let ghost t = entries_view(table@);
    let ghost roots = listed_ids(entry.source_entry_ids@);
    let mut to_visit = split_ids(entry.source_entry_ids.as_str());
    let mut search = Search {
        visited: Vec::new(),
        min_start: String::new(),
        max_end: String::new(),
    };
    let mut depth: usize = 0;
    proof {
        assert(text_set(search.visited@) =~= Set::<Seq<char>>::empty());
        assert(text_set(search.visited@).union(text_set(to_visit@)) =~= roots);
    }
    while to_visit.len() > 0 && depth < MAX_DEPTH
        invariant
            t == entries_view(table@),
            roots == listed_ids(entry.source_entry_ids@),
            depth <= MAX_DEPTH,
            search.wf(t),
            text_set(search.visited@).union(text_set(to_visit@)) == reach(t, roots, depth as nat),
            depth == 0 ==> text_set(search.visited@) == Set::<Seq<char>>::empty(),
            depth > 0 ==> text_set(search.visited@) == reach(t, roots, (depth - 1) as nat),
        decreases MAX_DEPTH - depth,
    {
        proof {
            assert forall|a: Seq<char>, x: Seq<char>|
                text_set(search.visited@).contains(a) && #[trigger] parents(t, a).contains(
                    x,
                ) implies reach(t, roots, depth as nat).contains(x) by {
                assert(reach(t, roots, (depth - 1) as nat).contains(a));
            }
        }
        to_visit = visit_generation(
            &mut search,
            table,
            &to_visit,
            Ghost(roots),
            Ghost(depth as nat),
        );
        depth += 1;
    }
    proof {
        let all = reach(t, roots, (MAX_DEPTH - 1) as nat);
        if depth < MAX_DEPTH {
            assert(text_set(to_visit@) =~= Set::<Seq<char>>::empty());
            assert(text_set(search.visited@) =~= reach(t, roots, depth as nat));
            if depth == 0 {
                lemma_reach_of_none(t, roots, (MAX_DEPTH - 1) as nat);
            } else {
                lemma_reach_fixpoint(
                    t,
                    roots,
                    (depth - 1) as nat,
                    (MAX_DEPTH - 1) as nat,
                );
            }
        }
        assert(text_set(search.visited@) == all);
        assert(all == ancestors(t, entry@));
        if search.min_start@.len() > 0 {
            assert(is_start(t, all, search.min_start@));
        }
        if search.max_end@.len() > 0 {
            assert(is_end(t, all, search.max_end@));
        }
    }
    if !search.min_start.as_str().is_empty() {
        let end = if search.max_end.as_str().is_empty() {
            search.min_start.clone()
        } else {
            search.max_end.clone()
        };
        (search.min_start, end, "ancestors".to_owned())
    } else {
        (entry.created_at.clone(), entry.created_at.clone(), "created_at".to_owned())
    }
}

}
