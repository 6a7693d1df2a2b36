//! Substring search and replacement.
use crate::text::chars::{to_chars, to_text};
use vstd::prelude::*;
use vstd::string::*;

verus! {

broadcast use vstd::string::group_string_axioms;

/// `pat` stands in `s` at character position `i`.
pub open spec fn occurs_at(s: Seq<char>, pat: Seq<char>, i: int) -> bool {
    0 <= i && i + pat.len() <= s.len() && s.subrange(i, i + pat.len()) == pat
}

/// `pat` stands somewhere in `s`.
pub open spec fn contains(s: Seq<char>, pat: Seq<char>) -> bool {
    exists|i: int| #[trigger] occurs_at(s, pat, i)
}

/// `s` begins with `pat`.
pub open spec fn starts_with(s: Seq<char>, pat: Seq<char>) -> bool {
    occurs_at(s, pat, 0)
}

/// `s` ends with `pat`.
pub open spec fn ends_with(s: Seq<char>, pat: Seq<char>) -> bool {
    occurs_at(s, pat, s.len() - pat.len())
}

/// The first position at or after `from` at which `pat` stands.
pub open spec fn find_from(s: Seq<char>, pat: Seq<char>, from: int) -> Option<int>
    decreases s.len() - from + 1,
{
    if from < 0 || from + pat.len() > s.len() {
        None
    } else if occurs_at(s, pat, from) {
        Some(from)
    } else {
        find_from(s, pat, from + 1)
    }
}

/// The first position at which `pat` stands.
pub open spec fn find(s: Seq<char>, pat: Seq<char>) -> Option<int> {
    find_from(s, pat, 0)
}

/// The last position at or before `i` at which `pat` stands.
pub open spec fn rfind_to(s: Seq<char>, pat: Seq<char>, i: int) -> Option<int>
    decreases i + 1,
{
    if i < 0 {
        None
    } else if occurs_at(s, pat, i) {
        Some(i)
    } else {
        rfind_to(s, pat, i - 1)
    }
}

/// The last position at which `pat` stands.
pub open spec fn rfind(s: Seq<char>, pat: Seq<char>) -> Option<int> {
    rfind_to(s, pat, s.len() - pat.len())
}

/// `s[from..]` with every occurrence of `pat`, taken from left to right without overlap, replaced
/// by `to`.
pub open spec fn replace_from(s: Seq<char>, pat: Seq<char>, to: Seq<char>, from: int) -> Seq<char>
    decreases s.len() - from,
{
    if from < 0 || from >= s.len() || pat.len() == 0 {
        Seq::empty()
    } else if occurs_at(s, pat, from) {
        to + replace_from(s, pat, to, from + pat.len())
    } else {
        seq![s[from]] + replace_from(s, pat, to, from + 1)
    }
}

/// `s` with every occurrence of the nonempty `pat`, taken from left to right without overlap,
/// replaced by `to`.
pub open spec fn replace_all(s: Seq<char>, pat: Seq<char>, to: Seq<char>) -> Seq<char> {
    replace_from(s, pat, to, 0)
}

/// What `find_from` returns is the first occurrence, and it finds one if there is one.
pub proof fn lemma_find_from(s: Seq<char>, pat: Seq<char>, from: int)
    requires
        0 <= from,
    ensures
        match find_from(s, pat, from) {
            Some(i) => from <= i && occurs_at(s, pat, i) && forall|j: int|
                from <= j < i ==> !#[trigger] occurs_at(s, pat, j),
            None => forall|j: int| from <= j ==> !#[trigger] occurs_at(s, pat, j),
        },
    decreases s.len() - from + 1,
{
    if from + pat.len() > s.len() {
    } else if occurs_at(s, pat, from) {
    } else {
        lemma_find_from(s, pat, from + 1);
    }
}

/// `find` gives the least position at which `pat` stands, and `None` only where it stands nowhere.
pub proof fn lemma_find(s: Seq<char>, pat: Seq<char>)
    ensures
        contains(s, pat) <==> find(s, pat) is Some,
        match find(s, pat) {
            Some(i) => occurs_at(s, pat, i) && forall|j: int|
                j < i ==> !#[trigger] occurs_at(s, pat, j),
            None => forall|j: int| !#[trigger] occurs_at(s, pat, j),
        },
{
    lemma_find_from(s, pat, 0);
}

/// `rfind_to` gives the last position up to `i` at which `pat` stands.
pub proof fn lemma_rfind_to(s: Seq<char>, pat: Seq<char>, i: int)
    ensures
        match rfind_to(s, pat, i) {
            Some(k) => k <= i && occurs_at(s, pat, k) && forall|j: int|
                k < j <= i ==> !#[trigger] occurs_at(s, pat, j),
            None => forall|j: int| j <= i ==> !#[trigger] occurs_at(s, pat, j),
        },
    decreases i + 1,
{
    if i >= 0 && !occurs_at(s, pat, i) {
        lemma_rfind_to(s, pat, i - 1);
    }
}

/// `rfind` gives the greatest position at which `pat` stands, and `None` only where it stands
/// nowhere.
pub proof fn lemma_rfind(s: Seq<char>, pat: Seq<char>)
    ensures
        contains(s, pat) <==> rfind(s, pat) is Some,
        match rfind(s, pat) {
            Some(k) => occurs_at(s, pat, k) && forall|j: int|
                k < j ==> !#[trigger] occurs_at(s, pat, j),
            None => forall|j: int| !#[trigger] occurs_at(s, pat, j),
        },
{
    lemma_rfind_to(s, pat, s.len() - pat.len());
}

/// An occurrence with none before it is the one that is found.
pub proof fn lemma_find_is(s: Seq<char>, pat: Seq<char>, from: int, i: int)
    requires
        0 <= from <= i,
        occurs_at(s, pat, i),
        forall|j: int| from <= j < i ==> !#[trigger] occurs_at(s, pat, j),
    ensures
        find_from(s, pat, from) == Some(i),
{
    lemma_find_from(s, pat, from);
}

proof fn lemma_replace_from_absent(s: Seq<char>, pat: Seq<char>, to: Seq<char>, from: int)
    requires
        0 <= from <= s.len(),
        pat.len() > 0,
        !contains(s, pat),
    ensures
        replace_from(s, pat, to, from) == s.skip(from),
    decreases s.len() - from,
{
    if from < s.len() {
        assert(!occurs_at(s, pat, from));
        lemma_replace_from_absent(s, pat, to, from + 1);
        assert(s.skip(from) =~= seq![s[from]] + s.skip(from + 1));
    } else {
        assert(s.skip(from) =~= Seq::<char>::empty());
    }
}

/// Replacing a pattern that does not occur changes nothing.
pub proof fn replace_absent_is_identity(s: Seq<char>, pat: Seq<char>, to: Seq<char>)
    requires
        pat.len() > 0,
        !contains(s, pat),
    ensures
        replace_all(s, pat, to) == s,
{
    lemma_replace_from_absent(s, pat, to, 0);
    assert(s.skip(0) =~= s);
}

/// No `pat` in `a + b` lies across the border between them.
pub open spec fn parts_cleanly(a: Seq<char>, b: Seq<char>, pat: Seq<char>) -> bool {
    forall|i: int| i < a.len() < i + pat.len() ==> !#[trigger] occurs_at(a + b, pat, i)
}

proof fn lemma_occurs_left(a: Seq<char>, b: Seq<char>, pat: Seq<char>, i: int)
    requires
        0 <= i,
        i + pat.len() <= a.len(),
    ensures
        occurs_at(a + b, pat, i) == occurs_at(a, pat, i),
{
    assert((a + b).subrange(i, i + pat.len()) =~= a.subrange(i, i + pat.len()));
}

proof fn lemma_occurs_right(a: Seq<char>, b: Seq<char>, pat: Seq<char>, i: int)
    requires
        0 <= i,
    ensures
        occurs_at(a + b, pat, a.len() + i) == occurs_at(b, pat, i),
{
    let j = a.len() + i;
    if i + pat.len() <= b.len() {
        assert((a + b).subrange(j, j + pat.len()) =~= b.subrange(i, i + pat.len()));
    }
}

proof fn lemma_replace_right(a: Seq<char>, b: Seq<char>, pat: Seq<char>, to: Seq<char>, i: int)
    requires
        0 <= i <= b.len(),
        pat.len() > 0,
    ensures
        replace_from(a + b, pat, to, a.len() + i) == replace_from(b, pat, to, i),
    decreases b.len() - i,
{
    if i < b.len() {
        lemma_occurs_right(a, b, pat, i);
        if occurs_at(b, pat, i) {
            lemma_replace_right(a, b, pat, to, i + pat.len());
        } else {
            lemma_replace_right(a, b, pat, to, i + 1);
            assert((a + b)[a.len() + i] == b[i]);
        }
    }
}

proof fn lemma_replace_concat_from(
    a: Seq<char>,
    b: Seq<char>,
    pat: Seq<char>,
    to: Seq<char>,
    i: int,
)
    requires
        0 <= i <= a.len(),
        pat.len() > 0,
        parts_cleanly(a, b, pat),
    ensures
        replace_from(a + b, pat, to, i) == replace_from(a, pat, to, i) + replace_all(b, pat, to),
    decreases a.len() - i,
{
    let r = replace_all(b, pat, to);
    if i == a.len() {
        lemma_replace_right(a, b, pat, to, 0);
        assert(Seq::<char>::empty() + r =~= r);
    } else {
        if i + pat.len() <= a.len() {
            lemma_occurs_left(a, b, pat, i);
        } else {
            assert(!occurs_at(a + b, pat, i));
        }
        if occurs_at(a, pat, i) {
            lemma_replace_concat_from(a, b, pat, to, i + pat.len());
            assert(to + (replace_from(a, pat, to, i + pat.len()) + r) =~= to + replace_from(
                a,
                pat,
                to,
                i + pat.len(),
            ) + r);
        } else {
            lemma_replace_concat_from(a, b, pat, to, i + 1);
            assert((a + b)[i] == a[i]);
            assert(seq![a[i]] + (replace_from(a, pat, to, i + 1) + r) =~= seq![a[i]] + replace_from(
                a,
                pat,
                to,
                i + 1,
            ) + r);
        }
    }
}

/// Replacing in two texts and putting them together is replacing in what they are together, where nothing
/// that is replaced lies across the border.
pub proof fn replacing_respects_borders(a: Seq<char>, b: Seq<char>, pat: Seq<char>, to: Seq<char>)
    requires
        pat.len() > 0,
        parts_cleanly(a, b, pat),
    ensures
        replace_all(a + b, pat, to) == replace_all(a, pat, to) + replace_all(b, pat, to),
{
    lemma_replace_concat_from(a, b, pat, to, 0);
}

/// A pattern by itself becomes what replaces it.
pub proof fn replacing_the_whole(pat: Seq<char>, to: Seq<char>)
    requires
        pat.len() > 0,
    ensures
        replace_all(pat, pat, to) == to,
{
    assert(pat.subrange(0, pat.len() as int) =~= pat);
    assert(replace_from(pat, pat, to, pat.len() as int) =~= Seq::<char>::empty());
    assert(to + Seq::<char>::empty() =~= to);
}

/// Nothing lies across a border where a character stands that the pattern does not hold.
pub proof fn strange_characters_part_cleanly(a: Seq<char>, b: Seq<char>, pat: Seq<char>)
    requires
        (a.len() > 0 && !pat.contains(a.last())) || (b.len() > 0 && !pat.contains(b[0])),
    ensures
        parts_cleanly(a, b, pat),
{
    assert forall|i: int| i < a.len() < i + pat.len() implies !#[trigger] occurs_at(a + b, pat, i) by {
        if occurs_at(a + b, pat, i) {
            let n = a.len() as int;
            let w = (a + b).subrange(i, i + pat.len());
            assert(w[n - i] == (a + b)[n]);
            assert(pat[n - i] == b[0]);
            assert(w[n - 1 - i] == (a + b)[n - 1]);
            assert(pat[n - 1 - i] == a.last());
        }
    }
}

/// What a text holds, it holds with more in front of it and behind it.
pub proof fn containing_survives_framing(a: Seq<char>, s: Seq<char>, b: Seq<char>, pat: Seq<char>)
    requires
        contains(s, pat),
    ensures
        contains(a + s + b, pat),
{
    let i = choose|i: int| #[trigger] occurs_at(s, pat, i);
    lemma_occurs_right(a, s, pat, i);
    lemma_occurs_left(a + s, b, pat, a.len() + i);
}

/// The text in the middle is part of the whole.
pub proof fn the_middle_is_contained(a: Seq<char>, s: Seq<char>, b: Seq<char>)
    ensures
        contains(a + s + b, s),
{
    assert((a + s + b).subrange(a.len() as int, (a.len() + s.len()) as int) =~= s);
    assert(occurs_at(a + s + b, s, a.len() as int));
}

/// Whether `pat` stands in `s` at position `i`.
pub fn char_occurs_at(s: &Vec<char>, pat: &Vec<char>, i: usize) -> (r: bool)
    ensures
        r == occurs_at(s@, pat@, i as int),
{
    if i > s.len() || pat.len() > s.len() - i {
        return false;
    }
    let mut k: usize = 0;
    while k < pat.len()
        invariant
            k <= pat.len(),
            i + pat.len() <= s.len(),
            forall|j: int| 0 <= j < k ==> s@[i + j] == pat@[j],
        decreases pat@.len() - k,
    {
        if s[i + k] != pat[k] {
            assert(s@.subrange(i as int, i + pat@.len())[k as int] != pat@[k as int]);
            return false;
        }
        k += 1;
    }
    assert(s@.subrange(i as int, i + pat@.len()) =~= pat@);
    true
}

/// The first position at or after `from` at which `pat` stands.
pub fn char_find_from(s: &Vec<char>, pat: &Vec<char>, from: usize) -> (r: Option<usize>)
    ensures
        match r {
            Some(i) => find_from(s@, pat@, from as int) == Some(i as int) && i + pat.len() <= s.len(),
            None => find_from(s@, pat@, from as int) is None,
        },
{
    let mut i: usize = from;
    while i <= s.len() && pat.len() <= s.len() - i
        invariant
            find_from(s@, pat@, from as int) == find_from(s@, pat@, i as int),
            from <= i,
            i <= s@.len() + 1 || i == from,
        decreases s@.len() + 1 - i,
    {
        if char_occurs_at(s, pat, i) {
            return Some(i);
        }
        if i == s.len() {
            assert(find_from(s@, pat@, i + 1) is None);
            return None;
        }
        i += 1;
    }
    None
}

/// The first position at which `pat` stands in `s`, in characters.
pub fn find_text(s: &str, pat: &str) -> (r: Option<usize>)
    ensures
        match r {
            Some(i) => find(s@, pat@) == Some(i as int) && i + pat@.len() <= s@.len(),
            None => find(s@, pat@) is None,
        },
{
    let v = to_chars(s);
    let p = to_chars(pat);
    proof {
        lemma_find(s@, pat@);
    }
    char_find_from(&v, &p, 0)
}

/// The last position at which `pat` stands in `s`, in characters.
pub fn rfind_text(s: &str, pat: &str) -> (r: Option<usize>)
    ensures
        match r {
            Some(i) => rfind(s@, pat@) == Some(i as int) && i + pat@.len() <= s@.len(),
            None => rfind(s@, pat@) is None,
        },
{
    let v = to_chars(s);
    let p = to_chars(pat);
    if p.len() > v.len() {
        return None;
    }
    let mut i: usize = v.len() - p.len();
    loop
        invariant
            v@ == s@,
            p@ == pat@,
            i + p@.len() <= v@.len(),
            rfind(s@, pat@) == rfind_to(s@, pat@, i as int),
        decreases i,
    {
        if char_occurs_at(&v, &p, i) {
            return Some(i);
        }
        if i == 0 {
            proof {
                assert(rfind_to(s@, pat@, -1) is None);
            }
            return None;
        }
        i -= 1;
    }
}

/// Whether `pat` stands somewhere in `s`.
pub fn contains_text(s: &str, pat: &str) -> (r: bool)
    ensures
        r == contains(s@, pat@),
{
    proof {
        lemma_find(s@, pat@);
    }
    find_text(s, pat).is_some()
}

/// Whether `s` begins with `pat`.
pub fn starts_with_text(s: &str, pat: &str) -> (r: bool)
    ensures
        r == starts_with(s@, pat@),
{
    let v = to_chars(s);
    let p = to_chars(pat);
    char_occurs_at(&v, &p, 0)
}

/// Whether `s` ends with `pat`.
pub fn ends_with_text(s: &str, pat: &str) -> (r: bool)
    ensures
        r == ends_with(s@, pat@),
{
    let v = to_chars(s);
    let p = to_chars(pat);
    if p.len() > v.len() {
        return false;
    }
    char_occurs_at(&v, &p, v.len() - p.len())
}

/// `s` with every occurrence of `pat` replaced by `to`.
pub fn replace_text(s: &str, pat: &str, to: &str) -> (r: String)
    requires
        pat@.len() > 0,
    ensures
        r@ == replace_all(s@, pat@, to@),
{
    let v = to_chars(s);
    let p = to_chars(pat);
    let mut out = String::new();
    let mut i: usize = 0;
    proof {
        assert(Seq::<char>::empty() + replace_from(s@, pat@, to@, 0) =~= replace_all(s@, pat@, to@));
    }
    while i < v.len()
        invariant
            v@ == s@,
            p@ == pat@,
            pat@.len() > 0,
            i <= v@.len(),
            out@ + replace_from(s@, pat@, to@, i as int) == replace_all(s@, pat@, to@),
        decreases v@.len() - i,
    {
        let ghost before = out@;
        if char_occurs_at(&v, &p, i) {
            out.append(to);
            proof {
                assert(before + (to@ + replace_from(s@, pat@, to@, i + pat@.len())) =~= (before
                    + to@) + replace_from(s@, pat@, to@, i + pat@.len()));
            }
            i += p.len();
        } else {
            out.push(v[i]);
            proof {
                assert(before + (seq![v@[i as int]] + replace_from(s@, pat@, to@, i + 1)) =~= before.push(
                    v@[i as int],
                ) + replace_from(s@, pat@, to@, i + 1));
            }
            i += 1;
        }
    }
    proof {
        assert(out@ + Seq::<char>::empty() =~= out@);
    }
    out
}

/// `s` from character `from` up to character `to`.
pub fn slice_text(s: &str, from: usize, to: usize) -> (r: String)
    requires
        from <= to <= s@.len(),
    ensures
        r@ == s@.subrange(from as int, to as int),
{
    let v = to_chars(s);
    to_text(&v, from, to)
}

}
