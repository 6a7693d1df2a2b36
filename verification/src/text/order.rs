//! Dictionary order of texts and stable sorting.
use crate::text::chars::to_chars;
use vstd::prelude::*;

verus! {

broadcast use {
    vstd::string::group_string_axioms,
    vstd::multiset::group_multiset_axioms,
    vstd::seq_lib::group_to_multiset_ensures,
};

/// `a` comes strictly before `b` in dictionary order of character codes.
pub open spec fn text_before(a: Seq<char>, b: Seq<char>) -> bool
    decreases a.len(),
{
    if b.len() == 0 {
        false
    } else if a.len() == 0 {
        true
    } else if a[0] != b[0] {
        a[0] < b[0]
    } else {
        text_before(a.skip(1), b.skip(1))
    }
}

/// No text comes before itself.
pub proof fn text_order_irreflexive(a: Seq<char>)
    ensures
        !text_before(a, a),
    decreases a.len(),
{
    if a.len() > 0 {
        text_order_irreflexive(a.skip(1));
    }
}

/// The order of texts is transitive.
pub proof fn text_order_transitive(a: Seq<char>, b: Seq<char>, c: Seq<char>)
    requires
        text_before(a, b),
        text_before(b, c),
    ensures
        text_before(a, c),
    decreases a.len(),
{
    if a.len() > 0 && a[0] == b[0] && b[0] == c[0] {
        text_order_transitive(a.skip(1), b.skip(1), c.skip(1));
    }
}

/// Of two different texts one comes before the other.
pub proof fn text_order_total(a: Seq<char>, b: Seq<char>)
    ensures
        a == b || text_before(a, b) || text_before(b, a),
    decreases a.len(),
{
    if a.len() > 0 && b.len() > 0 && a[0] == b[0] {
        text_order_total(a.skip(1), b.skip(1));
        if a.skip(1) == b.skip(1) {
            assert(a =~= seq![a[0]] + a.skip(1));
            assert(b =~= seq![b[0]] + b.skip(1));
        }
    } else if a.len() == 0 && b.len() == 0 {
        assert(a =~= b);
    }
}

/// Being equal or later is transitive.
pub proof fn text_order_not_before_transitive(a: Seq<char>, b: Seq<char>, c: Seq<char>)
    ensures
        !text_before(a, b) && !text_before(b, c) ==> !text_before(a, c),
{
    text_order_total(a, b);
    text_order_total(b, c);
    if text_before(a, c) {
        if text_before(b, a) {
            text_order_transitive(b, a, c);
        }
    }
}

/// No two texts come before each other.
pub proof fn text_order_asymmetric(a: Seq<char>, b: Seq<char>)
    ensures
        !(text_before(a, b) && text_before(b, a)),
{
    if text_before(a, b) && text_before(b, a) {
        text_order_transitive(a, b, a);
        text_order_irreflexive(a);
    }
}

/// The first difference decides, and a text comes before every longer one that begins with it.
pub proof fn the_first_difference_decides(
    same: Seq<char>,
    x: char,
    a: Seq<char>,
    y: char,
    b: Seq<char>,
)
    requires
        x < y,
    ensures
        text_before(same + seq![x] + a, same + seq![y] + b),
        !text_before(same + seq![y] + b, same + seq![x] + a),
        text_before(same, same + seq![x] + a),
        !text_before(same + seq![x] + a, same),
    decreases same.len(),
{
    let (p, q) = (same + seq![x] + a, same + seq![y] + b);
    if same.len() > 0 {
        let rest = same.skip(1);
        the_first_difference_decides(rest, x, a, y, b);
        assert(p.skip(1) =~= rest + seq![x] + a);
        assert(q.skip(1) =~= rest + seq![y] + b);
    }
}

/// Whether `a` comes strictly before `b` in dictionary order.
pub fn is_before(a: &str, b: &str) -> (r: bool)
    ensures
        r == text_before(a@, b@),
{
    let x = to_chars(a);
    let y = to_chars(b);
    let mut i: usize = 0;
    proof {
        assert(x@.skip(0) =~= x@);
        assert(y@.skip(0) =~= y@);
    }
    loop
        invariant
            i <= x.len(),
            i <= y.len(),
            text_before(x@, y@) == text_before(x@.skip(i as int), y@.skip(i as int)),
            x@ == a@,
            y@ == b@,
        decreases x.len() - i,
    {
        if i == y.len() {
            return false;
        }
        if i == x.len() {
            return true;
        }
        if x[i] != y[i] {
            return x[i] < y[i];
        }
        proof {
            assert(x@.skip(i as int).skip(1) =~= x@.skip(i + 1));
            assert(y@.skip(i as int).skip(1) =~= y@.skip(i + 1));
        }
        i += 1;
    }
}

/// Items with a strict order in which some pairs may be tied.
pub trait Ranked: Sized {
    /// `a` must stand before `b`.
    spec fn precedes(a: Self, b: Self) -> bool;

    /// Being tied or later is transitive.
    proof fn not_precedes_transitive(a: Self, b: Self, c: Self)
        ensures
            !Self::precedes(a, b) && !Self::precedes(b, c) ==> !Self::precedes(a, c),
    ;

    /// No two items stand before each other.
    proof fn precedes_asymmetric(a: Self, b: Self)
        ensures
            !(Self::precedes(a, b) && Self::precedes(b, a)),
    ;

    /// Whether `self` must stand before `other`.
    fn ranks_before(&self, other: &Self) -> (r: bool)
        ensures
            r == Self::precedes(*self, *other),
    ;
}

/// The position after the last item that `x` need not precede.
pub open spec fn slot<T: Ranked>(s: Seq<T>, x: T) -> int
    decreases s.len(),
{
    if s.len() == 0 || !T::precedes(x, s.last()) {
        s.len() as int
    } else {
        slot(s.drop_last(), x)
    }
}

/// The items in rank order, tied items in the order in which they stood.
pub open spec fn stable_sorted<T: Ranked>(s: Seq<T>) -> Seq<T>
    decreases s.len(),
{
    if s.len() == 0 {
        s
    } else {
        let t = stable_sorted(s.drop_last());
        t.insert(slot(t, s.last()), s.last())
    }
}

/// No item stands behind one that it must precede.
pub open spec fn in_order<T: Ranked>(s: Seq<T>) -> bool {
    forall|i: int, j: int| 0 <= i < j < s.len() ==> !T::precedes(#[trigger] s[j], #[trigger] s[i])
}

proof fn lemma_slot<T: Ranked>(s: Seq<T>, x: T)
    ensures
        0 <= slot(s, x) <= s.len(),
        slot(s, x) > 0 ==> !T::precedes(x, s[slot(s, x) - 1]),
        forall|i: int| slot(s, x) <= i < s.len() ==> T::precedes(x, #[trigger] s[i]),
    decreases s.len(),
{
    if s.len() > 0 && T::precedes(x, s.last()) {
        lemma_slot(s.drop_last(), x);
        assert forall|i: int| slot(s, x) <= i < s.len() implies T::precedes(x, #[trigger] s[i]) by {
            if i < s.len() - 1 {
                assert(s.drop_last()[i] == s[i]);
            }
        }
    }
}

/// Sorting puts the items in order and keeps every one of them.
pub proof fn sorting_orders_and_keeps<T: Ranked>(s: Seq<T>)
    ensures
        in_order(stable_sorted(s)),
        stable_sorted(s).to_multiset() == s.to_multiset(),
        stable_sorted(s).len() == s.len(),
    decreases s.len(),
{
    if s.len() > 0 {
        let x = s.last();
        let t = stable_sorted(s.drop_last());
        sorting_orders_and_keeps(s.drop_last());
        lemma_slot(t, x);
        let k = slot(t, x);
        let r = t.insert(k, x);
        assert forall|i: int, j: int| 0 <= i < j < r.len() implies !T::precedes(
            #[trigger] r[j],
            #[trigger] r[i],
        ) by {
            let a: int = if i < k {
                i
            } else {
                i - 1
            };
            let b: int = if j < k {
                j
            } else {
                j - 1
            };
            if i == k {
                assert(r[j] == t[j - 1]);
                T::precedes_asymmetric(x, t[j - 1]);
            } else if j == k {
                assert(r[i] == t[i]);
                if i < k - 1 {
                    T::not_precedes_transitive(x, t[k - 1], t[i]);
                }
            } else {
                assert(r[i] == t[a]);
                assert(r[j] == t[b]);
            }
        }
        s.drop_last().to_multiset_ensures();
        assert(s =~= s.drop_last().push(x));
        t.to_multiset_ensures();
        vstd::seq_lib::to_multiset_insert(t, k, x);
        vstd::seq_lib::to_multiset_build(s.drop_last(), x);
    }
}

/// Items that are in order stay as they are, tied ones among them.
pub proof fn sorting_what_is_sorted_changes_nothing<T: Ranked>(s: Seq<T>)
    requires
        in_order(s),
    ensures
        stable_sorted(s) == s,
    decreases s.len(),
{
    if s.len() > 0 {
        let t = s.drop_last();
        assert forall|i: int, j: int| 0 <= i < j < t.len() implies !T::precedes(
            #[trigger] t[j],
            #[trigger] t[i],
        ) by {
            assert(!T::precedes(s[j], s[i]));
        }
        sorting_what_is_sorted_changes_nothing(t);
        if t.len() > 0 {
            assert(!T::precedes(s[s.len() - 1], s[s.len() - 2]));
            assert(t.last() == s[s.len() - 2]);
        }
        assert(t.insert(t.len() as int, s.last()) =~= s);
    }
}

/// What is sorted holds what it was made of, and nothing else.
pub proof fn sorting_keeps_members<T: Ranked>(s: Seq<T>, x: T)
    ensures
        stable_sorted(s).contains(x) == s.contains(x),
{
    sorting_orders_and_keeps(s);
    s.to_multiset_ensures();
    stable_sorted(s).to_multiset_ensures();
    assert(s.contains(x) == (s.to_multiset().count(x) > 0));
    assert(stable_sorted(s).contains(x) == (stable_sorted(s).to_multiset().count(x) > 0));
}

/// The items in rank order, tied items in the order in which they stood.
pub fn sort_ranked<T: Ranked>(items: Vec<T>) -> (r: Vec<T>)
    ensures
        r@ == stable_sorted(items@),
{
    let ghost all = items@;
    let mut rest = items;
    let mut out: Vec<T> = Vec::new();
    let ghost mut done: int = 0;
    proof {
        assert(rest@ =~= all.skip(0));
        assert(out@ =~= stable_sorted(all.take(0)));
    }
    while rest.len() > 0
        invariant
            0 <= done <= all.len(),
            rest@ == all.skip(done),
            out@ == stable_sorted(all.take(done)),
        decreases rest.len(),
    {
        let x = rest.remove(0);
        let mut k: usize = out.len();
        proof {
            assert(x == all[done]);
            assert(out@.take(k as int) =~= out@);
        }
        while k > 0 && x.ranks_before(&out[k - 1])
            invariant
                k <= out.len(),
                slot(out@.take(k as int), x) == slot(out@, x),
            decreases k,
        {
            proof {
                assert(out@.take(k as int).drop_last() =~= out@.take(k - 1));
                assert(out@.take(k as int).last() == out@[k - 1]);
            }
            k -= 1;
        }
        proof {
            if k > 0 {
                assert(out@.take(k as int).last() == out@[k - 1]);
            }
            assert(all.take(done + 1).drop_last() =~= all.take(done));
            assert(all.take(done + 1).last() == x);
            assert(all.skip(done).remove(0) =~= all.skip(done + 1));
        }
        out.insert(k, x);
        proof {
            done = done + 1;
        }
    }
    proof {
        assert(all.take(done) =~= all);
    }
    out
}

}
