//! The list of running daemon instances.
use crate::text::compose::{cat2, same_text};
use crate::text::number::{decimal, decimal_text};
use vstd::prelude::*;

verus! {

broadcast use vstd::string::group_string_axioms;

/// A running instance.
#[derive(Debug)]
pub struct InstanceInfo {
    /// Its identifier.
    pub id: String,
    /// Its process.
    pub pid: u32,
    /// Its socket.
    pub socket_path: String,
    /// Its TCP address, where it has one.
    pub tcp_addr: Option<String>,
    /// When it was started.
    pub started_at: String,
}

/// The file in which the instances are listed.
#[derive(Debug)]
pub struct Registry {
    /// The file's path.
    pub path: String,
}

/// The instances whose process is alive.
pub open spec fn living(entries: Seq<InstanceInfo>, alive: Seq<u32>) -> Seq<InstanceInfo> {
    entries.filter(|e: InstanceInfo| alive.contains(e.pid))
}

/// The instances other than `id`.
pub open spec fn others(entries: Seq<InstanceInfo>, id: Seq<char>) -> Seq<InstanceInfo> {
    entries.filter(|e: InstanceInfo| e.id@ != id)
}

fn is_alive(alive: &Vec<u32>, pid: u32) -> (r: bool)
    ensures
        r == alive@.contains(pid),
{
    let mut i: usize = 0;
    while i < alive.len()
        invariant
            i <= alive.len(),
            forall|k: int| 0 <= k < i ==> alive@[k] != pid,
        decreases alive.len() - i,
    {
        if alive[i] == pid {
            assert(alive@[i as int] == pid);
            return true;
        }
        i += 1;
    }
    false
}

/// The path that exists as long as a process is alive.
pub fn pid_path(pid: u32) -> (r: String)
    ensures
        r@ == "/proc/"@ + decimal(pid as nat),
{
    cat2("/proc/", decimal_text(pid as u64).as_str())
}

/// The instances whose process is alive, in order.
pub fn prune(entries: Vec<InstanceInfo>, alive: &Vec<u32>) -> (r: Vec<InstanceInfo>)
    ensures
        r@ == living(entries@, alive@),
{
    let ghost all = entries@;
    let mut rest = entries;
    let mut out: Vec<InstanceInfo> = Vec::new();
    let ghost mut done: int = 0;
    proof {
        reveal(Seq::filter);
        assert(rest@ =~= all.skip(0));
        assert(out@ =~= living(all.take(0), alive@));
    }
    while rest.len() > 0
        invariant
            0 <= done <= all.len(),
            rest@ == all.skip(done),
            out@ == living(all.take(done), alive@),
        decreases rest.len(),
    {
        let e = rest.remove(0);
        proof {
            reveal(Seq::filter);
            assert(e == all[done]);
            assert(all.take(done + 1).drop_last() =~= all.take(done));
            assert(all.take(done + 1).last() == e);
            assert(all.skip(done).remove(0) =~= all.skip(done + 1));
        }
        if is_alive(alive, e.pid) {
            out.push(e);
        }
        proof {
            done = done + 1;
        }
    }
    proof {
        assert(all.take(done) =~= all);
    }
    out
}

fn without(entries: Vec<InstanceInfo>, id: &str) -> (r: Vec<InstanceInfo>)
    ensures
        r@ == others(entries@, id@),
{
    let ghost all = entries@;
    let mut rest = entries;
    let mut out: Vec<InstanceInfo> = Vec::new();
    let ghost mut done: int = 0;
    proof {
        reveal(Seq::filter);
        assert(rest@ =~= all.skip(0));
        assert(out@ =~= others(all.take(0), id@));
    }
    while rest.len() > 0
        invariant
            0 <= done <= all.len(),
            rest@ == all.skip(done),
            out@ == others(all.take(done), id@),
        decreases rest.len(),
    {
        let e = rest.remove(0);
        proof {
            reveal(Seq::filter);
            assert(e == all[done]);
            assert(all.take(done + 1).drop_last() =~= all.take(done));
            assert(all.take(done + 1).last() == e);
            assert(all.skip(done).remove(0) =~= all.skip(done + 1));
        }
        if !same_text(e.id.as_str(), id) {
            out.push(e);
        }
        proof {
            done = done + 1;
        }
    }
    proof {
        assert(all.take(done) =~= all);
    }
    out
}

impl Registry {
    /// The list at a path.
    pub fn at(path: &str) -> (r: Registry)
        ensures
            r.path@ == path@,
    {
        Registry { path: path.to_owned() }
    }

    /// The file's path.
    pub fn path(&self) -> (r: &str)
        ensures
            r@ == self.path@,
    {
        self.path.as_str()
    }

    /// The list with an instance entered: dead instances and an older entry of the same identifier are
    /// dropped.
    pub fn register(&self, entries: Vec<InstanceInfo>, alive: &Vec<u32>, info: InstanceInfo) -> (r: Vec<
        InstanceInfo,
    >)
        ensures
            r@ == others(living(entries@, alive@), info.id@).push(info),
    {
        let mut out = without(prune(entries, alive), info.id.as_str());
        out.push(info);
        out
    }

    /// The list without an instance and without dead instances.
    pub fn unregister(&self, entries: Vec<InstanceInfo>, alive: &Vec<u32>, id: &str) -> (r: Vec<
        InstanceInfo,
    >)
        ensures
            r@ == others(living(entries@, alive@), id@),
    {
        without(prune(entries, alive), id)
    }

    /// The instances that are alive, and whether the list has to be written back because some were not.
    pub fn list(&self, entries: Vec<InstanceInfo>, alive: &Vec<u32>) -> (r: (Vec<InstanceInfo>, bool))
        ensures
            r.0@ == living(entries@, alive@),
            r.1 == (r.0@.len() != entries@.len()),
    {
        let before: usize = entries.len();
        let out = prune(entries, alive);
        let changed = out.len() != before;
        (out, changed)
    }
}

/// No two instances share an identifier.
pub open spec fn distinct_instances(s: Seq<InstanceInfo>) -> bool {
    forall|i: int, j: int|
        0 <= i < j < s.len() ==> (#[trigger] s[i]).id@ != (#[trigger] s[j]).id@
}

proof fn lemma_filter_keeps_distinct(s: Seq<InstanceInfo>, pred: spec_fn(InstanceInfo) -> bool)
    requires
        distinct_instances(s),
    ensures
        distinct_instances(s.filter(pred)),
        forall|i: int|
            0 <= i < s.filter(pred).len() ==> pred(#[trigger] s.filter(pred)[i]) && s.contains(
                s.filter(pred)[i],
            ),
    decreases s.len(),
{
    reveal(Seq::filter);
    if s.len() > 0 {
        let t = s.drop_last();
        assert(distinct_instances(t));
        lemma_filter_keeps_distinct(t, pred);
        let f = t.filter(pred);
        let g = s.filter(pred);
        assert forall|i: int| 0 <= i < g.len() implies pred(#[trigger] g[i]) && s.contains(g[i]) by {
            if i < f.len() {
                assert(g[i] == f[i]);
                assert(t.contains(f[i]));
                let k = choose|k: int| 0 <= k < t.len() && t[k] == f[i];
                assert(s[k] == g[i]);
            } else {
                assert(s[s.len() - 1] == g[i]);
            }
        }
        assert forall|i: int, j: int| 0 <= i < j < g.len() implies (#[trigger] g[i]).id@ != (
        #[trigger] g[j]).id@ by {
            assert(g[i] == f[i]);
            if j < f.len() {
                assert(g[j] == f[j]);
            } else {
                assert(t.contains(f[i]));
                let k = choose|k: int| 0 <= k < t.len() && t[k] == f[i];
                assert(s[k].id@ != s[s.len() - 1].id@);
            }
        }
    }
}

/// Entering an instance keeps identifiers distinct: the list holds the new entry and no other of its
/// identifier.
pub proof fn registering_replaces(
    entries: Seq<InstanceInfo>,
    alive: Seq<u32>,
    info: InstanceInfo,
    i: int,
)
    requires
        distinct_instances(entries),
        0 <= i < others(living(entries, alive), info.id@).len(),
    ensures
        distinct_instances(others(living(entries, alive), info.id@).push(info)),
        others(living(entries, alive), info.id@)[i].id@ != info.id@,
        entries.contains(others(living(entries, alive), info.id@)[i]),
{
    let l = living(entries, alive);
    let o = others(l, info.id@);
    lemma_filter_keeps_distinct(entries, |e: InstanceInfo| alive.contains(e.pid));
    lemma_filter_keeps_distinct(l, |e: InstanceInfo| e.id@ != info.id@);
    assert(l.contains(o[i]));
    let k = choose|k: int| 0 <= k < l.len() && l[k] == o[i];
    assert(entries.contains(l[k]));
}

/// An instance that was entered is gone once it is taken out, and the others stay.
pub proof fn unregistering_undoes_registering(entries: Seq<InstanceInfo>, info: InstanceInfo)
    ensures
        others(others(entries, info.id@).push(info), info.id@) == others(entries, info.id@),
{
    reveal(Seq::filter);
    let o = others(entries, info.id@);
    assert(o.push(info).drop_last() =~= o);
    lemma_others_idempotent(entries, info.id@);
}

proof fn lemma_others_idempotent(entries: Seq<InstanceInfo>, id: Seq<char>)
    ensures
        others(others(entries, id), id) == others(entries, id),
    decreases entries.len(),
{
    reveal(Seq::filter);
    if entries.len() > 0 {
        let t = entries.drop_last();
        lemma_others_idempotent(t, id);
        let o = others(t, id);
        if entries.last().id@ != id {
            assert(o.push(entries.last()).drop_last() =~= o);
        }
    }
}

/// A list holds exactly the instances whose process is alive, and leaving one out leaves the others.
pub proof fn living_instances_are_listed(
    entries: Seq<InstanceInfo>,
    alive: Seq<u32>,
    id: Seq<char>,
    e: InstanceInfo,
)
    ensures
        living(entries, alive).contains(e) == (entries.contains(e) && alive.contains(e.pid)),
        others(entries, id).contains(e) == (entries.contains(e) && e.id@ != id),
{
    lemma_living(entries, alive, e);
    lemma_others(entries, id, e);
}

proof fn lemma_living(entries: Seq<InstanceInfo>, alive: Seq<u32>, e: InstanceInfo)
    ensures
        living(entries, alive).contains(e) == (entries.contains(e) && alive.contains(e.pid)),
    decreases entries.len(),
{
    reveal(Seq::filter);
    if entries.len() > 0 {
        let t = entries.drop_last();
        lemma_living(t, alive, e);
        lemma_contains_push(t, entries.last(), e);
        lemma_contains_push(living(t, alive), entries.last(), e);
        assert(entries =~= t.push(entries.last()));
    }
}

proof fn lemma_others(entries: Seq<InstanceInfo>, id: Seq<char>, e: InstanceInfo)
    ensures
        others(entries, id).contains(e) == (entries.contains(e) && e.id@ != id),
    decreases entries.len(),
{
    reveal(Seq::filter);
    if entries.len() > 0 {
        let t = entries.drop_last();
        lemma_others(t, id, e);
        lemma_contains_push(t, entries.last(), e);
        lemma_contains_push(others(t, id), entries.last(), e);
        assert(entries =~= t.push(entries.last()));
    }
}

proof fn lemma_contains_push(s: Seq<InstanceInfo>, x: InstanceInfo, e: InstanceInfo)
    ensures
        s.push(x).contains(e) == (s.contains(e) || x == e),
{
    if s.contains(e) {
        let k = choose|k: int| 0 <= k < s.len() && s[k] == e;
        assert(s.push(x)[k] == e);
    }
    if s.push(x).contains(e) {
        let k = choose|k: int| 0 <= k < s.push(x).len() && s.push(x)[k] == e;
        if k < s.len() {
            assert(s[k] == e);
        }
    }
    assert(s.push(x)[s.len() as int] == x);
}

}
