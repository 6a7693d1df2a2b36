//! Grouping entries into clusters of related ones before a model looks at them.
//!
//! Entries are numbered. For each entry with an embedding there is a list of the other entries that are
//! similar to it, the most similar first; entries without an embedding have no list.
use vstd::prelude::*;

verus! {

/// The most entries that a model is shown at once.
pub const MAX_CLUSTER_SIZE: usize = 15;

/// The lists of similar entries.
pub type Neighbors = Vec<Option<Vec<usize>>>;

/// The lists speak of other entries, of each once.
pub open spec fn neighbors_wf(nb: Seq<Option<Vec<usize>>>) -> bool {
    forall|i: int|
        0 <= i < nb.len() ==> match #[trigger] nb[i] {
            Some(list) => {
                &&& list@.no_duplicates()
                &&& forall|k: int|
                    0 <= k < list@.len() ==> (#[trigger] list@[k]) < nb.len() && list@[k] != i
            },
            None => true,
        }
}

/// The entries of a list that are in no cluster yet.
pub open spec fn free_of(list: Seq<usize>, clustered: Seq<bool>) -> Seq<usize> {
    list.filter(|j: usize| !clustered[j as int])
}

/// The similar entries of entry `i` that are in no cluster yet.
pub open spec fn free_neighbors(
    nb: Seq<Option<Vec<usize>>>,
    clustered: Seq<bool>,
    i: int,
) -> Seq<usize> {
    match nb[i] {
        Some(list) => free_of(list@, clustered),
        None => Seq::empty(),
    }
}

/// Entry `i` can be the seed of a cluster: it and some entry similar to it are in no cluster yet.
pub open spec fn can_seed(nb: Seq<Option<Vec<usize>>>, clustered: Seq<bool>, i: int) -> bool {
    0 <= i < nb.len() && !clustered[i] && free_neighbors(nb, clustered, i).len() > 0
}

/// At most `n` items of a sequence, from its start.
pub open spec fn at_most(s: Seq<usize>, n: int) -> Seq<usize> {
    if s.len() <= n {
        s
    } else {
        s.take(n)
    }
}

/// The cluster around a seed: the seed, then the similar entries that are in no cluster yet, the most
/// similar first, as many as there is room for.
pub open spec fn cluster_of(
    nb: Seq<Option<Vec<usize>>>,
    clustered: Seq<bool>,
    seed: usize,
) -> Seq<usize> {
    seq![seed] + at_most(free_neighbors(nb, clustered, seed as int), MAX_CLUSTER_SIZE - 1)
}

/// `cluster` is the cluster around a seed that has as many free similar entries as any other.
pub open spec fn is_greedy_cluster(
    nb: Seq<Option<Vec<usize>>>,
    clustered: Seq<bool>,
    cluster: Seq<usize>,
) -> bool {
    &&& cluster.len() > 0
    &&& can_seed(nb, clustered, cluster[0] as int)
    &&& cluster == cluster_of(nb, clustered, cluster[0])
    &&& forall|i: int| #[trigger]
        can_seed(nb, clustered, i) ==> free_neighbors(nb, clustered, i).len() <= free_neighbors(
            nb,
            clustered,
            cluster[0] as int,
        ).len()
}

/// The marks after the entries of a cluster are marked.
pub open spec fn marked(clustered: Seq<bool>, cluster: Seq<usize>) -> Seq<bool> {
    Seq::new(clustered.len(), |i: int| clustered[i] || cluster.contains(i as usize))
}

/// The entries from `from` on that are in no cluster yet, in order.
pub open spec fn unclustered_from(clustered: Seq<bool>, from: int) -> Seq<usize>
    decreases clustered.len() - from,
{
    if from < 0 || from >= clustered.len() {
        Seq::empty()
    } else if clustered[from] {
        unclustered_from(clustered, from + 1)
    } else {
        seq![from as usize] + unclustered_from(clustered, from + 1)
    }
}

/// A sequence cut into batches of the largest size.
pub open spec fn batches(s: Seq<usize>) -> Seq<Seq<usize>>
    decreases s.len(),
{
    if s.len() == 0 {
        Seq::empty()
    } else if s.len() <= MAX_CLUSTER_SIZE {
        seq![s]
    } else {
        seq![s.take(MAX_CLUSTER_SIZE as int)] + batches(s.skip(MAX_CLUSTER_SIZE as int))
    }
}

/// The clusters come about greedily: as long as an entry can be a seed, one with the most free similar
/// entries is; what is left is cut into batches.
pub open spec fn is_clustering(
    nb: Seq<Option<Vec<usize>>>,
    clustered: Seq<bool>,
    clusters: Seq<Seq<usize>>,
) -> bool
    decreases clusters.len(),
{
    if exists|i: int| #[trigger] can_seed(nb, clustered, i) {
        &&& clusters.len() > 0
        &&& is_greedy_cluster(nb, clustered, clusters[0])
        &&& is_clustering(nb, marked(clustered, clusters[0]), clusters.skip(1))
    } else {
        clusters == batches(unclustered_from(clustered, 0))
    }
}

/// The clusters as plain values.
pub open spec fn clusters_view(v: Seq<Vec<usize>>) -> Seq<Seq<usize>> {
    Seq::new(v.len(), |i: int| v[i]@)
}

/// How often `x` occurs in a sequence.
pub open spec fn count_of(s: Seq<usize>, x: usize) -> nat
    decreases s.len(),
{
    if s.len() == 0 {
        0
    } else {
        count_of(s.drop_last(), x) + if s.last() == x {
            1nat
        } else {
            0
        }
    }
}

/// How often `x` occurs in all clusters together.
pub open spec fn occurrences(clusters: Seq<Seq<usize>>, x: usize) -> nat
    decreases clusters.len(),
{
    if clusters.len() == 0 {
        0
    } else {
        count_of(clusters[0], x) + occurrences(clusters.skip(1), x)
    }
}

proof fn lemma_count_concat(a: Seq<usize>, b: Seq<usize>, x: usize)
    ensures
        count_of(a + b, x) == count_of(a, x) + count_of(b, x),
    decreases b.len(),
{
    if b.len() == 0 {
        assert(a + b =~= a);
    } else {
        assert((a + b).drop_last() =~= a + b.drop_last());
        lemma_count_concat(a, b.drop_last(), x);
    }
}

proof fn lemma_count_no_duplicates(s: Seq<usize>, x: usize)
    requires
        s.no_duplicates(),
    ensures
        count_of(s, x) == if s.contains(x) {
            1nat
        } else {
            0
        },
    decreases s.len(),
{
    if s.len() > 0 {
        let t = s.drop_last();
        assert(t.no_duplicates()) by {
            assert forall|i: int, j: int| 0 <= i < t.len() && 0 <= j < t.len() && i != j implies t[i]
                != t[j] by {
                assert(s[i] != s[j]);
            }
        }
        lemma_count_no_duplicates(t, x);
        if t.contains(x) {
            let i = choose|i: int| 0 <= i < t.len() && t[i] == x;
            assert(s[i] == x);
            assert(s[i] != s[s.len() - 1]);
        }
        if s.contains(x) && s.last() != x {
            let i = choose|i: int| 0 <= i < s.len() && s[i] == x;
            assert(t[i] == x);
        }
        if s.last() == x {
            assert(s[s.len() - 1] == x);
        }
    }
}

proof fn lemma_batches_count(s: Seq<usize>, x: usize)
    ensures
        occurrences(batches(s), x) == count_of(s, x),
        forall|i: int|
            0 <= i < batches(s).len() ==> 0 < (#[trigger] batches(s)[i]).len() <= MAX_CLUSTER_SIZE,
    decreases s.len(),
{
    if s.len() == 0 {
    } else if s.len() <= MAX_CLUSTER_SIZE {
        assert(seq![s].skip(1) =~= Seq::<Seq<usize>>::empty());
        assert(occurrences(seq![s].skip(1), x) == 0);
    } else {
        let a = s.take(MAX_CLUSTER_SIZE as int);
        let b = s.skip(MAX_CLUSTER_SIZE as int);
        lemma_batches_count(b, x);
        assert((seq![a] + batches(b)).skip(1) =~= batches(b));
        assert(a + b =~= s);
        lemma_count_concat(a, b, x);
        assert forall|i: int| 0 <= i < batches(s).len() implies 0 < (
        #[trigger] batches(s)[i]).len() <= MAX_CLUSTER_SIZE by {
            if i > 0 {
                assert(batches(s)[i] == batches(b)[i - 1]);
            }
        }
    }
}

proof fn lemma_unclustered_count(clustered: Seq<bool>, from: int, x: usize)
    requires
        0 <= from <= clustered.len(),
        clustered.len() <= usize::MAX,
    ensures
        count_of(unclustered_from(clustered, from), x) == if from <= x < clustered.len()
            && !clustered[x as int] {
            1nat
        } else {
            0
        },
    decreases clustered.len() - from,
{
    if from < clustered.len() {
        lemma_unclustered_count(clustered, from + 1, x);
        let rest = unclustered_from(clustered, from + 1);
        if !clustered[from] {
            lemma_count_concat(seq![from as usize], rest, x);
            assert(seq![from as usize].drop_last() =~= Seq::<usize>::empty());
            assert(count_of(Seq::<usize>::empty(), x) == 0);
            assert(seq![from as usize].last() == from as usize);
            assert(count_of(seq![from as usize], x) == if from as usize == x {
                1nat
            } else {
                0
            });
        }
    }
}

proof fn lemma_cluster_distinct(nb: Seq<Option<Vec<usize>>>, clustered: Seq<bool>, cluster: Seq<usize>)
    requires
        neighbors_wf(nb),
        clustered.len() == nb.len(),
        is_greedy_cluster(nb, clustered, cluster),
    ensures
        cluster.no_duplicates(),
        0 < cluster.len() <= MAX_CLUSTER_SIZE,
        forall|k: int|
            0 <= k < cluster.len() ==> (#[trigger] cluster[k]) < nb.len()
                && !clustered[cluster[k] as int],
{
    let seed = cluster[0];
    assert(nb[seed as int] is Some);
    let list = nb[seed as int]->Some_0@;
    let pred = |j: usize| !clustered[j as int];
    let free = list.filter(pred);
    let part = at_most(free, MAX_CLUSTER_SIZE - 1);
    lemma_filter_distinct(list, pred);
    assert forall|k: int| 0 <= k < free.len() implies (#[trigger] free[k]) < nb.len()
        && !clustered[free[k] as int] && free[k] != seed by {
        list.lemma_filter_pred(pred, k);
        assert(list.filter(pred).contains(free[k]));
        assert(list.contains(free[k]));
        let m = choose|m: int| 0 <= m < list.len() && list[m] == free[k];
        assert(list[m] < nb.len());
    }
    assert(cluster =~= seq![seed] + part);
    assert forall|k: int| 0 <= k < cluster.len() implies (#[trigger] cluster[k]) < nb.len()
        && !clustered[cluster[k] as int] by {
        if k > 0 {
            assert(cluster[k] == free[k - 1]);
        }
    }
    assert forall|i: int, j: int|
        0 <= i < cluster.len() && 0 <= j < cluster.len() && i != j implies cluster[i]
        != cluster[j] by {
        if i == 0 {
            assert(cluster[j] == free[j - 1]);
        } else if j == 0 {
            assert(cluster[i] == free[i - 1]);
        } else {
            assert(cluster[i] == free[i - 1]);
            assert(cluster[j] == free[j - 1]);
        }
    }
}

proof fn lemma_filter_distinct(s: Seq<usize>, pred: spec_fn(usize) -> bool)
    requires
        s.no_duplicates(),
    ensures
        s.filter(pred).no_duplicates(),
        forall|x: usize| #[trigger] s.filter(pred).contains(x) ==> s.contains(x),
    decreases s.len(),
{
    reveal(Seq::filter);
    if s.len() > 0 {
        let t = s.drop_last();
        assert(t.no_duplicates()) by {
            assert forall|i: int, j: int| 0 <= i < t.len() && 0 <= j < t.len() && i != j implies t[i]
                != t[j] by {
                assert(s[i] != s[j]);
            }
        }
        lemma_filter_distinct(t, pred);
        let f = t.filter(pred);
        let g = s.filter(pred);
        assert forall|x: usize| #[trigger] g.contains(x) implies s.contains(x) by {
            let k = choose|k: int| 0 <= k < g.len() && g[k] == x;
            if k < f.len() {
                assert(f[k] == x);
                assert(f.contains(x));
                let m = choose|m: int| 0 <= m < t.len() && t[m] == x;
                assert(s[m] == x);
            } else {
                assert(s[s.len() - 1] == x);
            }
        }
        if pred(s.last()) {
            assert(g =~= f.push(s.last()));
            assert forall|i: int, j: int| 0 <= i < g.len() && 0 <= j < g.len() && i != j implies g[i]
                != g[j] by {
                if i == f.len() || j == f.len() {
                    let k: int = if i == f.len() as int {
                        j
                    } else {
                        i
                    };
                    assert(f.contains(f[k]));
                    let m = choose|m: int| 0 <= m < t.len() && t[m] == f[k];
                    assert(s[m] != s[s.len() - 1]);
                }
            }
        }
    }
}

/// Every entry that was in no cluster ends up in exactly one, once; every cluster has at least one
/// entry and at most fifteen.
pub proof fn clustering_partitions(
    nb: Seq<Option<Vec<usize>>>,
    clustered: Seq<bool>,
    clusters: Seq<Seq<usize>>,
    x: usize,
)
    requires
        neighbors_wf(nb),
        clustered.len() == nb.len(),
        nb.len() <= usize::MAX,
        is_clustering(nb, clustered, clusters),
    ensures
        occurrences(clusters, x) == if x < nb.len() && !clustered[x as int] {
            1nat
        } else {
            0
        },
        forall|i: int|
            0 <= i < clusters.len() ==> 0 < (#[trigger] clusters[i]).len() <= MAX_CLUSTER_SIZE,
    decreases clusters.len(),
{
    if exists|i: int| #[trigger] can_seed(nb, clustered, i) {
        let c = clusters[0];
        lemma_cluster_distinct(nb, clustered, c);
        lemma_count_no_duplicates(c, x);
        clustering_partitions(nb, marked(clustered, c), clusters.skip(1), x);
        if c.contains(x) {
            let k = choose|k: int| 0 <= k < c.len() && c[k] == x;
            assert(c[k] < nb.len());
        }
        assert forall|i: int| 0 <= i < clusters.len() implies 0 < (
        #[trigger] clusters[i]).len() <= MAX_CLUSTER_SIZE by {
            if i > 0 {
                assert(clusters[i] == clusters.skip(1)[i - 1]);
            }
        }
    } else {
        let rest = unclustered_from(clustered, 0);
        lemma_batches_count(rest, x);
        lemma_unclustered_count(clustered, 0, x);
    }
}

fn free_in(list: &Vec<usize>, clustered: &Vec<bool>) -> (r: Vec<usize>)
    requires
        forall|k: int| 0 <= k < list@.len() ==> (#[trigger] list@[k]) < clustered@.len(),
    ensures
        r@ == free_of(list@, clustered@),
{
    let mut out: Vec<usize> = Vec::new();
    let mut i: usize = 0;
    proof {
        reveal(Seq::filter);
        assert(out@ =~= free_of(list@.take(0), clustered@));
    }
    while i < list.len()
        invariant
            i <= list.len(),
            forall|k: int| 0 <= k < list@.len() ==> (#[trigger] list@[k]) < clustered@.len(),
            out@ == free_of(list@.take(i as int), clustered@),
        decreases list.len() - i,
    {
        proof {
            reveal(Seq::filter);
            assert(list@.take(i + 1).drop_last() =~= list@.take(i as int));
            assert(list@.take(i + 1).last() == list@[i as int]);
        }
        let j: usize = list[i];
        if !clustered[j] {
            out.push(j);
        }
        i += 1;
    }
    proof {
        assert(list@.take(i as int) =~= list@);
    }
    out
}

fn free_neighbors_of(nb: &Neighbors, clustered: &Vec<bool>, i: usize) -> (r: Vec<usize>)
    requires
        neighbors_wf(nb@),
        clustered@.len() == nb@.len(),
        i < nb@.len(),
    ensures
        r@ == free_neighbors(nb@, clustered@, i as int),
{
    match &nb[i] {
        Some(list) => free_in(list, clustered),
        None => Vec::new(),
    }
}

/// An entry that can be a seed and has the most free similar entries, if any can.
fn best_seed(nb: &Neighbors, clustered: &Vec<bool>) -> (r: Option<usize>)
    requires
        neighbors_wf(nb@),
        clustered@.len() == nb@.len(),
    ensures
        match r {
            Some(s) => can_seed(nb@, clustered@, s as int) && forall|i: int| #[trigger]
                can_seed(nb@, clustered@, i) ==> free_neighbors(nb@, clustered@, i).len()
                    <= free_neighbors(nb@, clustered@, s as int).len(),
            None => forall|i: int| !#[trigger] can_seed(nb@, clustered@, i),
        },
{
    let mut best: Option<usize> = None;
    let mut best_count: usize = 0;
    let mut i: usize = 0;
    while i < nb.len()
        invariant
            i <= nb.len(),
            neighbors_wf(nb@),
            clustered@.len() == nb@.len(),
            match best {
                Some(s) => {
                    &&& can_seed(nb@, clustered@, s as int)
                    &&& best_count == free_neighbors(nb@, clustered@, s as int).len()
                },
                None => best_count == 0,
            },
            forall|k: int|
                0 <= k < i && #[trigger] can_seed(nb@, clustered@, k) ==> best is Some
                    && free_neighbors(nb@, clustered@, k).len() <= best_count,
        decreases nb.len() - i,
    {
        if !clustered[i] {
            let free = free_neighbors_of(nb, clustered, i);
            let count: usize = free.len();
            if count > 0 && count >= best_count {
                best = Some(i);
                best_count = count;
            }
        }
        i += 1;
    }
    best
}

fn batches_of(items: Vec<usize>) -> (r: Vec<Vec<usize>>)
    ensures
        clusters_view(r@) == batches(items@),
    decreases items@.len(),
{
    let mut first = items;
    if first.len() == 0 {
        let r: Vec<Vec<usize>> = Vec::new();
        assert(clusters_view(r@) =~= batches(items@));
        return r;
    }
    if first.len() <= MAX_CLUSTER_SIZE {
        let r: Vec<Vec<usize>> = vec![first];
        assert(clusters_view(r@) =~= batches(items@));
        return r;
    }
    let rest = first.split_off(MAX_CLUSTER_SIZE);
    assert(first@ =~= items@.take(MAX_CLUSTER_SIZE as int));
    assert(rest@ =~= items@.skip(MAX_CLUSTER_SIZE as int));
    let mut r = batches_of(rest);
    let ghost tail = r@;
    r.insert(0, first);
    assert(clusters_view(r@) =~= seq![first@] + clusters_view(tail));
    r
}

fn unclustered(clustered: &Vec<bool>) -> (r: Vec<usize>)
    ensures
        r@ == unclustered_from(clustered@, 0),
{
    let mut out: Vec<usize> = Vec::new();
    let mut i: usize = 0;
    proof {
        assert(out@ + unclustered_from(clustered@, 0) =~= unclustered_from(clustered@, 0));
    }
    while i < clustered.len()
        invariant
            i <= clustered.len(),
            out@ + unclustered_from(clustered@, i as int) == unclustered_from(clustered@, 0),
        decreases clustered.len() - i,
    {
        if !clustered[i] {
            proof {
                assert(out@ + (seq![i] + unclustered_from(clustered@, i + 1)) =~= out@.push(i)
                    + unclustered_from(clustered@, i + 1));
            }
            out.push(i);
        }
        i += 1;
    }
    proof {
        assert(out@ + Seq::<usize>::empty() =~= out@);
    }
    out
}

fn mark(clustered: &Vec<bool>, cluster: &Vec<usize>) -> (r: Vec<bool>)
    requires
        forall|k: int| 0 <= k < cluster@.len() ==> (#[trigger] cluster@[k]) < clustered@.len(),
    ensures
        r@ == marked(clustered@, cluster@),
{
    let mut out: Vec<bool> = Vec::new();
    let mut i: usize = 0;
    while i < clustered.len()
        invariant
            i <= clustered.len(),
            out.len() == i,
            forall|k: int|
                0 <= k < i ==> #[trigger] out@[k] == (clustered@[k] || cluster@.contains(
                    k as usize,
                )),
        decreases clustered.len() - i,
    {
        let mut inside = false;
        let mut k: usize = 0;
        while k < cluster.len()
            invariant
                k <= cluster.len(),
                inside == exists|m: int| 0 <= m < k && #[trigger] cluster@[m] == i,
            decreases cluster.len() - k,
        {
            if cluster[k] == i {
                assert(cluster@[k as int] == i);
                inside = true;
            }
            k += 1;
        }
        let m: bool = clustered[i] || inside;
        proof {
            if inside {
                let m = choose|m: int| 0 <= m < k && #[trigger] cluster@[m] == i;
                assert(cluster@[m] == i);
            }
        }
        out.push(m);
        i += 1;
    }
    assert(out@ =~= marked(clustered@, cluster@));
    out
}

proof fn lemma_marks_grow(clustered: Seq<bool>, cluster: Seq<usize>, x: int)
    requires
        clustered.len() <= usize::MAX,
        0 <= x < clustered.len(),
        !clustered[x],
        cluster.contains(x as usize),
    ensures
        unmarked(marked(clustered, cluster)) < unmarked(clustered),
{
    lemma_unmarked_le(clustered, marked(clustered, cluster), clustered.len() as int, x);
}

/// How many entries are in no cluster yet.
spec fn unmarked(clustered: Seq<bool>) -> nat
    decreases clustered.len(),
{
    if clustered.len() == 0 {
        0
    } else {
        unmarked(clustered.drop_last()) + if clustered.last() {
            0nat
        } else {
            1
        }
    }
}

proof fn lemma_unmarked_le(a: Seq<bool>, b: Seq<bool>, n: int, x: int)
    requires
        a.len() == b.len(),
        0 <= n <= a.len(),
        forall|i: int| 0 <= i < a.len() && a[i] ==> #[trigger] b[i],
        0 <= x < a.len(),
        !a[x],
        b[x],
    ensures
        unmarked(b.take(n)) <= unmarked(a.take(n)),
        n > x ==> unmarked(b.take(n)) < unmarked(a.take(n)),
        n == a.len() ==> unmarked(b) < unmarked(a),
    decreases n,
{
    if n > 0 {
        lemma_unmarked_le(a, b, n - 1, x);
        assert(a.take(n).drop_last() =~= a.take(n - 1));
        assert(b.take(n).drop_last() =~= b.take(n - 1));
        assert(a.take(n).last() == a[n - 1]);
        assert(b.take(n).last() == b[n - 1]);
    }
    if n == a.len() {
        assert(a.take(n) =~= a);
        assert(b.take(n) =~= b);
    }
}

fn cluster_from(nb: &Neighbors, clustered: Vec<bool>) -> (r: Vec<Vec<usize>>)
    requires
        neighbors_wf(nb@),
        clustered@.len() == nb@.len(),
    ensures
        is_clustering(nb@, clustered@, clusters_view(r@)),
    decreases unmarked(clustered@),
{
    match best_seed(nb, &clustered) {
        None => batches_of(unclustered(&clustered)),
        Some(seed) => {
            let mut free = free_neighbors_of(nb, &clustered, seed);
            free.truncate(MAX_CLUSTER_SIZE - 1);
            let mut cluster: Vec<usize> = vec![seed];
            cluster.append(&mut free);
            proof {
                assert(cluster@ =~= cluster_of(nb@, clustered@, seed));
                assert(is_greedy_cluster(nb@, clustered@, cluster@));
                lemma_cluster_distinct(nb@, clustered@, cluster@);
                assert(cluster@[0] == seed);
                assert(clustered.len() <= usize::MAX);
                lemma_marks_grow(clustered@, cluster@, seed as int);
            }
            let after = mark(&clustered, &cluster);
            let mut rest = cluster_from(nb, after);
            let ghost tail = rest@;
            rest.insert(0, cluster);
            proof {
                assert(clusters_view(rest@)[0] == cluster@);
                assert(clusters_view(rest@).skip(1) =~= clusters_view(tail));
            }
            rest
        },
    }
}

/// Clusters the entries greedily by similarity.
pub fn cluster_by_embeddings(nb: &Neighbors) -> (r: Vec<Vec<usize>>)
    requires
        neighbors_wf(nb@),
    ensures
        is_clustering(nb@, Seq::new(nb@.len(), |i: int| false), clusters_view(r@)),
{
    let mut clustered: Vec<bool> = Vec::new();
    let mut i: usize = 0;
    while i < nb.len()
        invariant
            i <= nb.len(),
            clustered@ == Seq::new(i as nat, |k: int| false),
        decreases nb.len() - i,
    {
        clustered.push(false);
        i += 1;
        assert(clustered@ =~= Seq::new(i as nat, |k: int| false));
    }
    cluster_from(nb, clustered)
}

/// The numbers below `n` in order.
pub open spec fn numbers(n: nat) -> Seq<usize> {
    Seq::new(n, |i: int| i as usize)
}

/// How many entries have an embedding.
pub open spec fn embedded(nb: Seq<Option<Vec<usize>>>) -> nat
    decreases nb.len(),
{
    if nb.len() == 0 {
        0
    } else {
        embedded(nb.drop_last()) + if nb.last() is Some {
            1nat
        } else {
            0
        }
    }
}

/// The clusters group `n` entries: few enough entries make one cluster; otherwise they are clustered by
/// similarity where at least half of them have an embedding, and cut into batches where not.
pub open spec fn is_grouping(
    n: usize,
    neighbors: Option<Neighbors>,
    clusters: Seq<Seq<usize>>,
) -> bool {
    if n <= MAX_CLUSTER_SIZE {
        clusters == seq![numbers(n as nat)]
    } else {
        match neighbors {
            Some(nb) => if 2 * embedded(nb@) >= n {
                is_clustering(nb@, Seq::new(nb@.len(), |i: int| false), clusters)
            } else {
                clusters == batches(numbers(n as nat))
            },
            None => clusters == batches(numbers(n as nat)),
        }
    }
}

/// Groups `n` entries. Few enough entries make one cluster; otherwise they are clustered by similarity
/// where at least half of them have an embedding, and cut into batches where not.
pub fn cluster_candidates(n: usize, neighbors: &Option<Neighbors>) -> (r: Vec<Vec<usize>>)
    requires
        match neighbors {
            Some(nb) => nb@.len() == n && neighbors_wf(nb@),
            None => true,
        },
    ensures
        is_grouping(n, *neighbors, clusters_view(r@)),
{
    let mut all: Vec<usize> = Vec::new();
    let mut i: usize = 0;
    while i < n
        invariant
            i <= n,
            all@ == numbers(i as nat),
        decreases n - i,
    {
        all.push(i);
        i += 1;
        assert(all@ =~= numbers(i as nat));
    }
    if n <= MAX_CLUSTER_SIZE {
        let r: Vec<Vec<usize>> = vec![all];
        assert(clusters_view(r@) =~= seq![numbers(n as nat)]);
        return r;
    }
    match neighbors {
        Some(nb) => {
            let mut count: usize = 0;
            let mut k: usize = 0;
            proof {
                assert(nb@.take(0) =~= Seq::<Option<Vec<usize>>>::empty());
            }
            while k < nb.len()
                invariant
                    k <= nb.len(),
                    count == embedded(nb@.take(k as int)),
                    count <= k,
                decreases nb.len() - k,
            {
                proof {
                    assert(nb@.take(k + 1).drop_last() =~= nb@.take(k as int));
                }
                if nb[k].is_some() {
                    count += 1;
                }
                k += 1;
            }
            proof {
                assert(nb@.take(k as int) =~= nb@);
            }
            if count >= n - count {
                cluster_by_embeddings(nb)
            } else {
                batches_of(all)
            }
        },
        None => batches_of(all),
    }
}

/// The entries that have an embedding.
pub open spec fn with_embedding(nb: Seq<Option<Vec<usize>>>) -> Set<int> {
    Set::new(|i: int| 0 <= i < nb.len() && nb[i] is Some)
}

proof fn lemma_embedded_is_size(nb: Seq<Option<Vec<usize>>>)
    ensures
        with_embedding(nb).finite(),
        with_embedding(nb).len() == embedded(nb),
    decreases nb.len(),
{
    if nb.len() == 0 {
        assert(with_embedding(nb) =~= Set::empty());
    } else {
        let t = nb.drop_last();
        lemma_embedded_is_size(t);
        let n = nb.len() - 1;
        if nb.last() is Some {
            assert(with_embedding(nb) =~= with_embedding(t).insert(n));
        } else {
            assert(with_embedding(nb) =~= with_embedding(t));
        }
    }
}

/// A text of numbers that is cut, in order, into batches of the largest size; only the last one may be
/// smaller.
pub open spec fn are_full_batches(clusters: Seq<Seq<usize>>, s: Seq<usize>) -> bool {
    &&& forall|c: int| 0 <= c < clusters.len() ==> 0 < (#[trigger] clusters[c]).len() <= 15
    &&& forall|c: int| 0 <= c < clusters.len() - 1 ==> (#[trigger] clusters[c]).len() == 15
    &&& clusters.flatten() == s
}

proof fn lemma_batches_are_full(s: Seq<usize>)
    ensures
        are_full_batches(batches(s), s),
    decreases s.len(),
{
    let b = batches(s);
    if s.len() == 0 {
        assert(b.flatten() =~= s);
    } else if s.len() <= MAX_CLUSTER_SIZE {
        assert(b.drop_first() =~= Seq::<Seq<usize>>::empty());
        assert(b.drop_first().flatten() =~= Seq::<usize>::empty());
        assert(b.flatten() == s + Seq::<usize>::empty());
        assert(s + Seq::<usize>::empty() =~= s);
    } else {
        let first = s.take(15);
        let rest = s.skip(15);
        lemma_batches_are_full(rest);
        assert(b.drop_first() =~= batches(rest));
        assert(b.flatten() == first + batches(rest).flatten());
        assert(first + rest =~= s);
        assert forall|c: int| 0 <= c < b.len() implies 0 < (#[trigger] b[c]).len() <= 15 by {
            if c > 0 {
                assert(b[c] == batches(rest)[c - 1]);
            }
        }
        assert forall|c: int| 0 <= c < b.len() - 1 implies (#[trigger] b[c]).len() == 15 by {
            if c > 0 {
                assert(b[c] == batches(rest)[c - 1]);
            }
        }
    }
}

/// Similarity decides where it is known: of more than 15 entries of which at least half have an embedding,
/// the clusters are made by similarity; where fewer have one, or none is known, the entries are cut into
/// batches in their order. Up to 15 entries stay together.
pub proof fn known_similarity_decides(
    n: usize,
    neighbors: Option<Neighbors>,
    clusters: Seq<Seq<usize>>,
)
    requires
        is_grouping(n, neighbors, clusters),
        neighbors is Some ==> neighbors->Some_0@.len() == n && neighbors_wf(neighbors->Some_0@),
    ensures
        n <= 15 ==> clusters.len() == 1 && clusters[0].len() == n && forall|i: int|
            0 <= i < n ==> #[trigger] clusters[0][i] == i,
        n > 15 && neighbors is Some && 2 * with_embedding(neighbors->Some_0@).len() >= n
            ==> is_clustering(neighbors->Some_0@, Seq::new(n as nat, |i: int| false), clusters),
        n > 15 && (neighbors is None || 2 * with_embedding(neighbors->Some_0@).len() < n)
            ==> are_full_batches(clusters, Seq::new(n as nat, |i: int| i as usize)),
{
    lemma_batches_are_full(numbers(n as nat));
    if neighbors is Some {
        lemma_embedded_is_size(neighbors->Some_0@);
    }
}

/// Entry `j` is on the list of entries similar to entry `i`.
pub open spec fn is_similar(nb: Seq<Option<Vec<usize>>>, i: int, j: usize) -> bool {
    nb[i] is Some && nb[i]->Some_0@.contains(j)
}

/// The first cluster is the one around the entry with the longest list of similar entries: that entry, and
/// then the entries on its list in their order, 15 in all at most.
pub proof fn the_first_cluster_is_the_largest_group(
    nb: Seq<Option<Vec<usize>>>,
    clusters: Seq<Seq<usize>>,
    i: int,
)
    requires
        neighbors_wf(nb),
        is_clustering(nb, Seq::new(nb.len(), |k: int| false), clusters),
        0 <= i < nb.len(),
        nb[i] is Some,
        nb[i]->Some_0@.len() > 0,
    ensures
        clusters.len() > 0,
        clusters[0].len() > 1,
        clusters[0][0] < nb.len(),
        nb[clusters[0][0] as int] is Some,
        ({
            let list = nb[clusters[0][0] as int]->Some_0@;
            &&& list.len() >= nb[i]->Some_0@.len()
            &&& clusters[0].len() == if list.len() < 14 {
                list.len() + 1
            } else {
                15
            }
            &&& forall|k: int|
                1 <= k < clusters[0].len() ==> #[trigger] clusters[0][k] == list[k - 1]
        }),
{
    let none = Seq::new(nb.len(), |k: int| false);
    lemma_all_are_free(nb, none, i);
    assert(can_seed(nb, none, i));
    let seed = clusters[0][0] as int;
    assert(can_seed(nb, none, seed));
    lemma_all_are_free(nb, none, seed);
}

proof fn lemma_all_are_free(nb: Seq<Option<Vec<usize>>>, none: Seq<bool>, i: int)
    requires
        neighbors_wf(nb),
        none == Seq::new(nb.len(), |k: int| false),
        0 <= i < nb.len(),
    ensures
        free_neighbors(nb, none, i) == match nb[i] {
            Some(list) => list@,
            None => Seq::empty(),
        },
{
    match nb[i] {
        Some(list) => {
            let l = list@;
            assert forall|k: int| 0 <= k < l.len() implies !none[#[trigger] l[k] as int] by {}
            lemma_filter_keeps_all(l, |j: usize| !none[j as int]);
        },
        None => {},
    }
}

proof fn lemma_filter_keeps_all(s: Seq<usize>, pred: spec_fn(usize) -> bool)
    requires
        forall|k: int| 0 <= k < s.len() ==> pred(#[trigger] s[k]),
    ensures
        s.filter(pred) == s,
    decreases s.len(),
{
    reveal(Seq::filter);
    if s.len() > 0 {
        let t = s.drop_last();
        assert forall|k: int| 0 <= k < t.len() implies pred(#[trigger] t[k]) by {
            assert(t[k] == s[k]);
        }
        lemma_filter_keeps_all(t, pred);
        assert(pred(s[s.len() - 1]));
        assert(t.push(s.last()) =~= s);
    }
}

/// Entry `x` is in none of the first `c` clusters.
pub open spec fn is_left_by(clusters: Seq<Seq<usize>>, c: int, x: usize) -> bool {
    forall|d: int| 0 <= d < c ==> !(#[trigger] clusters[d]).contains(x)
}

/// A cluster holds what belongs together: its first entry and entries similar to it; or it is a batch of
/// entries of which none has a similar one that is left.
pub open spec fn belongs_together(
    nb: Seq<Option<Vec<usize>>>,
    clustered: Seq<bool>,
    clusters: Seq<Seq<usize>>,
    c: int,
) -> bool {
    ||| {
        &&& clusters[c].len() > 1
        &&& forall|k: int|
            1 <= k < clusters[c].len() ==> is_similar(nb, clusters[c][0] as int, #[trigger] clusters[c][k])
    }
    ||| forall|k: int, y: usize|
        0 <= k < clusters[c].len() && #[trigger] is_similar(nb, clusters[c][k] as int, y)
            ==> clustered[y as int] || !is_left_by(clusters, c, y)
}

proof fn lemma_batch_members(s: Seq<usize>, c: int, k: int)
    requires
        0 <= c < batches(s).len(),
        0 <= k < batches(s)[c].len(),
    ensures
        s.contains(batches(s)[c][k]),
    decreases s.len(),
{
    if s.len() <= MAX_CLUSTER_SIZE {
        assert(s[k] == batches(s)[c][k]);
    } else if c == 0 {
        assert(s[k] == batches(s)[c][k]);
    } else {
        let rest = s.skip(15);
        assert(batches(s)[c] == batches(rest)[c - 1]);
        lemma_batch_members(rest, c - 1, k);
        let x = batches(s)[c][k];
        let m = choose|m: int| 0 <= m < rest.len() && rest[m] == x;
        assert(s[m + 15] == x);
    }
}

proof fn lemma_unclustered_members(clustered: Seq<bool>, from: int, x: usize)
    requires
        0 <= from,
        clustered.len() <= usize::MAX,
        unclustered_from(clustered, from).contains(x),
    ensures
        x < clustered.len(),
        !clustered[x as int],
    decreases clustered.len() - from,
{
    let u = unclustered_from(clustered, from);
    let m = choose|m: int| 0 <= m < u.len() && u[m] == x;
    if from < clustered.len() {
        let rest = unclustered_from(clustered, from + 1);
        if clustered[from] {
            lemma_unclustered_members(clustered, from + 1, x);
        } else if m > 0 {
            assert(rest[m - 1] == x);
            lemma_unclustered_members(clustered, from + 1, x);
        }
    }
}

/// Every cluster holds what belongs together.
pub proof fn clusters_hold_what_belongs_together(
    nb: Seq<Option<Vec<usize>>>,
    clustered: Seq<bool>,
    clusters: Seq<Seq<usize>>,
    c: int,
)
    requires
        neighbors_wf(nb),
        clustered.len() == nb.len(),
        nb.len() <= usize::MAX,
        is_clustering(nb, clustered, clusters),
        0 <= c < clusters.len(),
    ensures
        belongs_together(nb, clustered, clusters, c),
    decreases clusters.len(),
{
    if exists|i: int| #[trigger] can_seed(nb, clustered, i) {
        if c == 0 {
            let seed = clusters[0][0] as int;
            let free = free_neighbors(nb, clustered, seed);
            let list = nb[seed]->Some_0@;
            let pred = |j: usize| !clustered[j as int];
            assert forall|k: int| 1 <= k < clusters[0].len() implies is_similar(
                nb,
                seed,
                #[trigger] clusters[0][k],
            ) by {
                assert(clusters[0][k] == free[k - 1]);
                assert(free.contains(free[k - 1]));
                list.lemma_filter_contains_rev(pred, free[k - 1]);
            }
        } else {
            let rest = clusters.skip(1);
            let now = marked(clustered, clusters[0]);
            clusters_hold_what_belongs_together(nb, now, rest, c - 1);
            assert(rest[c - 1] == clusters[c]);
            if !(clusters[c].len() > 1 && forall|k: int|
                1 <= k < clusters[c].len() ==> is_similar(
                    nb,
                    clusters[c][0] as int,
                    #[trigger] clusters[c][k],
                )) {
                assert forall|k: int, y: usize|
                    0 <= k < clusters[c].len() && #[trigger] is_similar(
                        nb,
                        clusters[c][k] as int,
                        y,
                    ) implies clustered[y as int] || !is_left_by(clusters, c, y) by {
                    assert(now[y as int] || !is_left_by(rest, c - 1, y));
                    clustering_partitions(nb, clustered, clusters, clusters[c][k]);
                    if is_left_by(clusters, c, y) {
                        assert(!clusters[0].contains(y));
                        assert forall|d: int| 0 <= d < c - 1 implies !(#[trigger] rest[d]).contains(
                            y,
                        ) by {
                            assert(rest[d] == clusters[d + 1]);
                        }
                        lemma_member_occurs(clusters, c, k);
                        lemma_similar_in_range(nb, clusters, c, k, y);
                    }
                }
            }
        }
    } else {
        let u = unclustered_from(clustered, 0);
        assert forall|k: int, y: usize|
            0 <= k < clusters[c].len() && #[trigger] is_similar(
                nb,
                clusters[c][k] as int,
                y,
            ) implies clustered[y as int] || !is_left_by(clusters, c, y) by {
            lemma_batch_members(u, c, k);
            let x = clusters[c][k];
            lemma_unclustered_members(clustered, 0, x);
            assert(!can_seed(nb, clustered, x as int));
            if !clustered[y as int] {
                let list = nb[x as int]->Some_0@;
                let pred = |j: usize| !clustered[j as int];
                list.lemma_filter_contains(pred, list.index_of(y));
            }
        }
    }
}

proof fn lemma_count_member(s: Seq<usize>, k: int)
    requires
        0 <= k < s.len(),
    ensures
        count_of(s, s[k]) > 0,
    decreases s.len(),
{
    if k < s.len() - 1 {
        lemma_count_member(s.drop_last(), k);
    }
}

proof fn lemma_member_occurs(clusters: Seq<Seq<usize>>, c: int, k: int)
    requires
        0 <= c < clusters.len(),
        0 <= k < clusters[c].len(),
    ensures
        occurrences(clusters, clusters[c][k]) > 0,
    decreases clusters.len(),
{
    if c == 0 {
        lemma_count_member(clusters[0], k);
    } else {
        lemma_member_occurs(clusters.skip(1), c - 1, k);
    }
}

proof fn lemma_similar_in_range(
    nb: Seq<Option<Vec<usize>>>,
    clusters: Seq<Seq<usize>>,
    c: int,
    k: int,
    y: usize,
)
    requires
        neighbors_wf(nb),
        clusters[c][k] < nb.len(),
        is_similar(nb, clusters[c][k] as int, y),
    ensures
        y < nb.len(),
{
    let list = nb[clusters[c][k] as int]->Some_0@;
    let m = choose|m: int| 0 <= m < list.len() && list[m] == y;
    assert(list[m] < nb.len());
}

}
