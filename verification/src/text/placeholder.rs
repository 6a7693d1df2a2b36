//! Placeholders in templates: a name between double braces.
use crate::text::search::{
    contains, occurs_at, parts_cleanly, replace_absent_is_identity, replace_all,
    replacing_respects_borders, replacing_the_whole,
};
use vstd::prelude::*;

verus! {

/// Two opening braces, a name without braces, and two closing braces.
pub open spec fn is_placeholder(p: Seq<char>) -> bool {
    &&& p.len() >= 5
    &&& p[0] == '{' && p[1] == '{'
    &&& p[p.len() - 1] == '}' && p[p.len() - 2] == '}'
    &&& forall|k: int| 2 <= k < p.len() - 2 ==> #[trigger] p[k] != '{' && p[k] != '}'
}

/// Placeholders do not overlap.
pub proof fn placeholders_part_cleanly(a: Seq<char>, mark: Seq<char>, b: Seq<char>, pat: Seq<char>)
    requires
        is_placeholder(mark),
        is_placeholder(pat),
    ensures
        parts_cleanly(a, mark + b, pat),
        parts_cleanly(a + mark, b, pat),
        parts_cleanly(mark, b, pat),
{
    let len = pat.len() as int;
    let s = a + (mark + b);
    assert(s =~= (a + mark) + b);
    let n = a.len() as int;
    let m = n + mark.len();
    assert forall|i: int| i < n < i + len implies !#[trigger] occurs_at(s, pat, i) by {
        if occurs_at(s, pat, i) {
            let w = s.subrange(i, i + len);
            assert(w[n - i] == s[n] == '{');
            assert(n - i == 1);
            assert(w[2] == s[n + 1] == '{');
        }
    }
    assert forall|i: int| i < m < i + len implies !#[trigger] occurs_at((a + mark) + b, pat, i) by {
        if occurs_at(s, pat, i) {
            let w = s.subrange(i, i + len);
            assert(w[m - 1 - i] == s[m - 1] == '}');
            assert(m - 1 - i == len - 2);
            assert(w[len - 3] == s[m - 2] == '}');
        }
    }
    let t = mark + b;
    let k = mark.len() as int;
    assert forall|i: int| i < k < i + len implies !#[trigger] occurs_at(mark + b, pat, i) by {
        if occurs_at(t, pat, i) {
            let w = t.subrange(i, i + len);
            assert(w[k - 1 - i] == t[k - 1] == '}');
            assert(k - 1 - i == len - 2);
            assert(w[len - 3] == t[k - 2] == '}');
        }
    }
}

proof fn lemma_other_mark_stays(mark: Seq<char>, pat: Seq<char>, to: Seq<char>)
    requires
        is_placeholder(mark),
        is_placeholder(pat),
        mark != pat,
    ensures
        replace_all(mark, pat, to) == mark,
{
    if contains(mark, pat) {
        let i = choose|i: int| #[trigger] occurs_at(mark, pat, i);
        let w = mark.subrange(i, i + pat.len());
        assert(w[0] == mark[i] == '{');
        assert(w[1] == mark[i + 1] == '{');
        assert(i == 0);
        assert(w[pat.len() - 1] == mark[pat.len() - 1] == '}');
        assert(w[pat.len() - 2] == mark[pat.len() - 2] == '}');
        assert(pat.len() == mark.len());
        assert(w =~= mark);
    }
    replace_absent_is_identity(mark, pat, to);
}

/// Filling one placeholder leaves another one in its place.
pub proof fn filling_leaves_other_placeholders(
    a: Seq<char>,
    mark: Seq<char>,
    b: Seq<char>,
    pat: Seq<char>,
    to: Seq<char>,
)
    requires
        is_placeholder(mark),
        is_placeholder(pat),
        mark != pat,
    ensures
        replace_all(a + mark + b, pat, to) == replace_all(a, pat, to) + mark + replace_all(b, pat, to),
{
    placeholders_part_cleanly(a, mark, b, pat);
    assert(a + mark + b =~= a + (mark + b));
    replacing_respects_borders(a, mark + b, pat, to);
    replacing_respects_borders(mark, b, pat, to);
    lemma_other_mark_stays(mark, pat, to);
    assert(replace_all(a, pat, to) + (mark + replace_all(b, pat, to)) =~= replace_all(a, pat, to) + mark
        + replace_all(b, pat, to));
}

/// A text that holds a placeholder holds what it is filled with.
pub proof fn filling_a_placeholder(a: Seq<char>, b: Seq<char>, pat: Seq<char>, to: Seq<char>)
    requires
        is_placeholder(pat),
    ensures
        replace_all(a + pat + b, pat, to) == replace_all(a, pat, to) + to + replace_all(b, pat, to),
{
    placeholders_part_cleanly(a, pat, b, pat);
    assert(a + pat + b =~= a + (pat + b));
    replacing_respects_borders(a, pat + b, pat, to);
    replacing_respects_borders(pat, b, pat, to);
    replacing_the_whole(pat, to);
    assert(replace_all(a, pat, to) + (to + replace_all(b, pat, to)) =~= replace_all(a, pat, to) + to
        + replace_all(b, pat, to));
}

}
