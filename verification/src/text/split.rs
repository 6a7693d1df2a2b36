//! Splitting and joining.
use crate::text::chars::{to_chars, to_text};
use crate::text::search::{
    char_find_from, find_from, lemma_find_from, lemma_find_is, occurs_at,
};
use crate::text::trim::{char_in_class, in_class, CharClass};
use vstd::prelude::*;
use vstd::string::*;

verus! {

broadcast use vstd::string::group_string_axioms;

/// The texts of a sequence of strings.
pub open spec fn texts(v: Seq<String>) -> Seq<Seq<char>> {
    Seq::new(v.len(), |i: int| v[i]@)
}

/// The pieces of `s` between the characters of `class`, empty pieces among them.
pub open spec fn pieces(s: Seq<char>, class: CharClass) -> Seq<Seq<char>>
    decreases s.len(),
{
    if s.len() == 0 {
        seq![Seq::empty()]
    } else {
        let p = pieces(s.drop_last(), class);
        if in_class(class, s.last()) {
            p.push(Seq::empty())
        } else {
            p.drop_last().push(p.last().push(s.last()))
        }
    }
}

/// The pieces that are not empty.
pub open spec fn nonempty(p: Seq<Seq<char>>) -> Seq<Seq<char>> {
    p.filter(|t: Seq<char>| t.len() > 0)
}

/// The words of `s`: its nonempty pieces between the characters of `class`.
pub open spec fn words(s: Seq<char>, class: CharClass) -> Seq<Seq<char>> {
    nonempty(pieces(s, class))
}

/// The texts joined with `sep` between neighbours.
pub open spec fn joined(parts: Seq<Seq<char>>, sep: Seq<char>) -> Seq<char>
    decreases parts.len(),
{
    if parts.len() == 0 {
        Seq::empty()
    } else if parts.len() == 1 {
        parts[0]
    } else {
        joined(parts.drop_last(), sep) + sep + parts.last()
    }
}

/// A line without the carriage return that stands before its line feed.
pub open spec fn without_cr(line: Seq<char>) -> Seq<char> {
    if line.len() > 0 && line.last() == '\r' {
        line.drop_last()
    } else {
        line
    }
}

/// The lines of `s`: what stands between line feeds, each without a carriage return before its line
/// feed; a final line feed ends the last line and starts none.
pub open spec fn lines(s: Seq<char>) -> Seq<Seq<char>> {
    let p = pieces(s, CharClass::One('\n'));
    let ended = Seq::new((p.len() - 1) as nat, |i: int| without_cr(p[i]));
    if p.last().len() == 0 {
        ended
    } else {
        ended.push(p.last())
    }
}

/// There is always at least one piece.
pub proof fn lemma_pieces_nonempty(s: Seq<char>, class: CharClass)
    ensures
        pieces(s, class).len() > 0,
    decreases s.len(),
{
    if s.len() > 0 {
        lemma_pieces_nonempty(s.drop_last(), class);
    }
}

/// No piece holds a character of the class that separates the pieces.
pub proof fn pieces_hold_no_separator(s: Seq<char>, class: CharClass)
    ensures
        forall|k: int, i: int|
            0 <= k < pieces(s, class).len() && 0 <= i < pieces(s, class)[k].len() ==> !in_class(
                class,
                #[trigger] pieces(s, class)[k][i],
            ),
    decreases s.len(),
{
    lemma_pieces_nonempty(s, class);
    if s.len() > 0 {
        pieces_hold_no_separator(s.drop_last(), class);
        lemma_pieces_nonempty(s.drop_last(), class);
        let p = pieces(s.drop_last(), class);
        let q = pieces(s, class);
        assert forall|k: int, i: int| 0 <= k < q.len() && 0 <= i < q[k].len() implies !in_class(
            class,
            #[trigger] q[k][i],
        ) by {
            if k < p.len() - 1 {
                assert(q[k] == p[k]);
                assert(!in_class(class, p[k][i]));
            } else if !in_class(class, s.last()) {
                if i < p.last().len() {
                    assert(!in_class(class, p[p.len() - 1][i]));
                }
            } else if k == p.len() - 1 {
                assert(!in_class(class, p[k][i]));
            }
        }
    }
}

/// Joining the pieces between the occurrences of one character with that character gives the text
/// back.
pub proof fn joining_pieces_restores(s: Seq<char>, c: char)
    ensures
        joined(pieces(s, CharClass::One(c)), seq![c]) == s,
    decreases s.len(),
{
    let class = CharClass::One(c);
    if s.len() > 0 {
        let t = s.drop_last();
        joining_pieces_restores(t, c);
        lemma_pieces_nonempty(t, class);
        let p = pieces(t, class);
        let q = pieces(s, class);
        assert(s =~= t.push(s.last()));
        if s.last() == c {
            assert(q.drop_last() =~= p);
            assert(joined(q, seq![c]) =~= t + seq![c] + Seq::<char>::empty());
        } else {
            assert(q.drop_last() =~= p.drop_last());
            if p.len() == 1 {
                assert(joined(q, seq![c]) =~= p[0].push(s.last()));
            } else {
                assert(joined(q, seq![c]) =~= joined(p.drop_last(), seq![c]) + seq![c] + p.last().push(
                    s.last(),
                ));
                assert(joined(q, seq![c]) =~= joined(p, seq![c]).push(s.last()));
            }
        }
    }
}

/// Filtering out the empty pieces step by step.
pub proof fn lemma_nonempty_push(p: Seq<Seq<char>>, t: Seq<char>)
    ensures
        nonempty(p.push(t)) == if t.len() > 0 {
            nonempty(p).push(t)
        } else {
            nonempty(p)
        },
{
    reveal(Seq::filter);
    assert(p.push(t).drop_last() =~= p);
}

/// A word is not empty and holds no separator.
pub proof fn words_hold_no_separator(s: Seq<char>, class: CharClass, i: int)
    requires
        0 <= i < words(s, class).len(),
    ensures
        words(s, class)[i].len() > 0,
        forall|k: int|
            0 <= k < words(s, class)[i].len() ==> !in_class(class, #[trigger] words(s, class)[i][k]),
{
    let p = pieces(s, class);
    let filled = |t: Seq<char>| t.len() > 0;
    let w = words(s, class)[i];
    p.lemma_filter_pred(filled, i);
    assert(p.filter(filled).contains(w));
    p.lemma_filter_contains_rev(filled, w);
    let j = choose|j: int| 0 <= j < p.len() && p[j] == w;
    pieces_hold_no_separator(s, class);
    assert forall|k: int| 0 <= k < w.len() implies !in_class(class, #[trigger] w[k]) by {
        assert(p[j][k] == w[k]);
    }
}

/// Appending a text to a joined list.
pub proof fn lemma_joined_push(p: Seq<Seq<char>>, t: Seq<char>, sep: Seq<char>)
    ensures
        joined(p.push(t), sep) == if p.len() == 0 {
            t
        } else {
            joined(p, sep) + sep + t
        },
{
    assert(p.push(t).drop_last() =~= p);
}

/// Pushing onto a vector of strings.
pub proof fn lemma_texts_push(v: Seq<String>, s: String)
    ensures
        texts(v.push(s)) == texts(v).push(s@),
{
    assert(texts(v.push(s)) =~= texts(v).push(s@));
}

/// The pieces of `s` between the characters of `class`.
pub fn split_text(s: &str, class: CharClass) -> (r: Vec<String>)
    ensures
        texts(r@) == pieces(s@, class),
{
    let v = to_chars(s);
    let mut out: Vec<String> = Vec::new();
    let mut cur = String::new();
    let mut i: usize = 0;
    proof {
        assert(texts(out@).push(cur@) =~= pieces(s@.take(0), class));
    }
    while i < v.len()
        invariant
            v@ == s@,
            i <= v.len(),
            texts(out@).push(cur@) == pieces(s@.take(i as int), class),
        decreases v.len() - i,
    {
        let ghost p = pieces(s@.take(i as int), class);
        proof {
            assert(s@.take(i + 1).drop_last() =~= s@.take(i as int));
            assert(p.last() == cur@);
            assert(p.drop_last() =~= texts(out@));
        }
        if char_in_class(class, v[i]) {
            proof {
                lemma_texts_push(out@, cur);
            }
            out.push(cur);
            cur = String::new();
        } else {
            cur.push(v[i]);
        }
        i += 1;
    }
    proof {
        assert(s@.take(i as int) =~= s@);
        lemma_texts_push(out@, cur);
    }
    out.push(cur);
    out
}

/// The words of `s` between the characters of `class`.
pub fn split_words(s: &str, class: CharClass) -> (r: Vec<String>)
    ensures
        texts(r@) == words(s@, class),
{
    let parts = split_text(s, class);
    keep_nonempty(&parts)
}

/// The strings that are not empty, in order.
pub fn keep_nonempty(parts: &Vec<String>) -> (r: Vec<String>)
    ensures
        texts(r@) == nonempty(texts(parts@)),
{
    let mut out: Vec<String> = Vec::new();
    let mut i: usize = 0;
    proof {
        reveal(Seq::filter);
        assert(texts(out@) =~= nonempty(texts(parts@).take(0)));
    }
    while i < parts.len()
        invariant
            i <= parts.len(),
            texts(out@) == nonempty(texts(parts@).take(i as int)),
        decreases parts.len() - i,
    {
        proof {
            assert(texts(parts@).take(i + 1) =~= texts(parts@).take(i as int).push(
                texts(parts@)[i as int],
            ));
            lemma_nonempty_push(texts(parts@).take(i as int), texts(parts@)[i as int]);
        }
        if !parts[i].as_str().is_empty() {
            let t = parts[i].clone();
            proof {
                lemma_texts_push(out@, t);
            }
            out.push(t);
        }
        i += 1;
    }
    proof {
        assert(texts(parts@).take(i as int) =~= texts(parts@));
    }
    out
}

/// The strings joined with `sep`.
pub fn join_texts(parts: &Vec<String>, sep: &str) -> (r: String)
    ensures
        r@ == joined(texts(parts@), sep@),
{
    let mut out = String::new();
    let mut i: usize = 0;
    proof {
        assert(texts(parts@).take(0) =~= Seq::<Seq<char>>::empty());
    }
    while i < parts.len()
        invariant
            i <= parts.len(),
            out@ == joined(texts(parts@).take(i as int), sep@),
        decreases parts.len() - i,
    {
        proof {
            assert(texts(parts@).take(i + 1) =~= texts(parts@).take(i as int).push(
                texts(parts@)[i as int],
            ));
            lemma_joined_push(texts(parts@).take(i as int), texts(parts@)[i as int], sep@);
        }
        if i > 0 {
            out.append(sep);
        }
        out.append(parts[i].as_str());
        proof {
            if i == 0 {
                assert(Seq::<char>::empty() + parts@[0]@ =~= parts@[0]@);
            }
        }
        i += 1;
    }
    proof {
        assert(texts(parts@).take(i as int) =~= texts(parts@));
    }
    out
}

/// The lines of `s`.
pub fn split_lines(s: &str) -> (r: Vec<String>)
    ensures
        texts(r@) == lines(s@),
{
    let parts = split_text(s, CharClass::One('\n'));
    let ghost p = pieces(s@, CharClass::One('\n'));
    proof {
        lemma_pieces_nonempty(s@, CharClass::One('\n'));
        assert(parts@.len() == p.len());
    }
    let mut out: Vec<String> = Vec::new();
    let last: usize = parts.len() - 1;
    let ghost ended = Seq::new((p.len() - 1) as nat, |k: int| without_cr(p[k]));
    let mut i: usize = 0;
    proof {
        assert(texts(out@) =~= ended.take(0));
    }
    while i < last
        invariant
            last == parts.len() - 1,
            i <= last,
            texts(parts@) == p,
            ended == Seq::new((p.len() - 1) as nat, |k: int| without_cr(p[k])),
            texts(out@) == ended.take(i as int),
        decreases last - i,
    {
        let v = to_chars(parts[i].as_str());
        let n: usize = if v.len() > 0 && v[v.len() - 1] == '\r' {
            v.len() - 1
        } else {
            v.len()
        };
        let t = to_text(&v, 0, n);
        proof {
            assert(p[i as int] == parts@[i as int]@);
            assert(t@ =~= without_cr(p[i as int]));
            lemma_texts_push(out@, t);
            assert(ended.take(i + 1) =~= ended.take(i as int).push(ended[i as int]));
        }
        out.push(t);
        i += 1;
    }
    proof {
        assert(ended.take(i as int) =~= ended);
        assert(p.last() == parts@[last as int]@);
    }
    if !parts[last].as_str().is_empty() {
        let t = parts[last].clone();
        proof {
            lemma_texts_push(out@, t);
        }
        out.push(t);
    }
    out
}

/// The parts of `s` from `from` on, between the occurrences of `pat`.
pub open spec fn parts_from(s: Seq<char>, pat: Seq<char>, from: int) -> Seq<Seq<char>>
    decreases s.len() + 1 - from,
    via parts_from_decreases
{
    if from < 0 || pat.len() == 0 {
        Seq::empty()
    } else {
        match find_from(s, pat, from) {
            None => seq![s.skip(from)],
            Some(i) => seq![s.subrange(from, i)] + parts_from(s, pat, (i + pat.len()) as int),
        }
    }
}

#[via_fn]
proof fn parts_from_decreases(s: Seq<char>, pat: Seq<char>, from: int) {
    if from >= 0 && pat.len() > 0 {
        lemma_find_from(s, pat, from);
    }
}

/// The parts of `s` between the occurrences of `pat`.
pub fn split_on(s: &str, pat: &str) -> (r: Vec<String>)
    requires
        pat@.len() > 0,
    ensures
        texts(r@) == parts_from(s@, pat@, 0),
{
    let v = to_chars(s);
    let p = to_chars(pat);
    let mut out: Vec<String> = Vec::new();
    let mut from: usize = 0;
    let ghost all = parts_from(s@, pat@, 0);
    proof {
        assert(texts(out@) + all =~= all);
    }
    loop
        invariant
            v@ == s@,
            p@ == pat@,
            pat@.len() > 0,
            from <= v.len(),
            all == parts_from(s@, pat@, 0),
            texts(out@) + parts_from(s@, pat@, from as int) == all,
        decreases v.len() - from,
    {
        proof {
            lemma_find_from(s@, pat@, from as int);
        }
        match char_find_from(&v, &p, from) {
            None => {
                let t = to_text(&v, from, v.len());
                proof {
                    assert(t@ =~= s@.skip(from as int));
                    lemma_texts_push(out@, t);
                    assert(texts(out@) + seq![t@] =~= texts(out@).push(t@));
                }
                out.push(t);
                return out;
            },
            Some(i) => {
                let t = to_text(&v, from, i);
                let next: usize = i + p.len();
                proof {
                    lemma_texts_push(out@, t);
                    assert(texts(out@) + (seq![t@] + parts_from(s@, pat@, next as int)) =~= texts(
                        out@,
                    ).push(t@) + parts_from(s@, pat@, next as int));
                }
                out.push(t);
                from = next;
            },
        }
    }
}

/// Characters outside the class lengthen the last piece.
pub proof fn lemma_pieces_extend(s: Seq<char>, t: Seq<char>, class: CharClass)
    requires
        forall|i: int| 0 <= i < t.len() ==> !in_class(class, #[trigger] t[i]),
    ensures
        pieces(s + t, class) == pieces(s, class).drop_last().push(pieces(s, class).last() + t),
    decreases t.len(),
{
    lemma_pieces_nonempty(s, class);
    let p = pieces(s, class);
    if t.len() == 0 {
        assert(s + t =~= s);
        assert(p.last() + t =~= p.last());
        assert(p.drop_last().push(p.last()) =~= p);
    } else {
        let u = t.drop_last();
        assert forall|i: int| 0 <= i < u.len() implies !in_class(class, #[trigger] u[i]) by {
            assert(u[i] == t[i]);
        }
        lemma_pieces_extend(s, u, class);
        assert((s + t).drop_last() =~= s + u);
        assert((s + t).last() == t.last());
        let q = pieces(s + u, class);
        assert(q.drop_last() =~= p.drop_last());
        assert(q.last() == p.last() + u);
        assert((p.last() + u).push(t.last()) =~= p.last() + t);
    }
}

/// Texts without the separator are the pieces of what they are joined to.
pub proof fn splitting_joined_restores(parts: Seq<Seq<char>>, c: char)
    requires
        parts.len() > 0,
        forall|i: int| 0 <= i < parts.len() ==> !(#[trigger] parts[i]).contains(c),
    ensures
        pieces(joined(parts, seq![c]), CharClass::One(c)) == parts,
    decreases parts.len(),
{
    let class = CharClass::One(c);
    let t = parts.last();
    assert forall|i: int| 0 <= i < t.len() implies !in_class(class, #[trigger] t[i]) by {
        assert(!parts[parts.len() - 1].contains(c));
        assert(t.contains(t[i]));
    }
    if parts.len() == 1 {
        let none = Seq::<char>::empty();
        lemma_pieces_extend(none, t, class);
        assert(none + t =~= t);
        assert(pieces(t, class) =~= parts);
    } else {
        let rest = parts.drop_last();
        assert forall|i: int| 0 <= i < rest.len() implies !(#[trigger] rest[i]).contains(c) by {
            assert(rest[i] == parts[i]);
        }
        splitting_joined_restores(rest, c);
        let s = joined(rest, seq![c]);
        assert(s + seq![c] =~= s.push(c));
        assert(s.push(c).drop_last() =~= s);
        assert(pieces(s.push(c), class) == rest.push(Seq::empty()));
        lemma_pieces_extend(s.push(c), t, class);
        assert(rest.push(Seq::empty()).drop_last() =~= rest);
        assert(Seq::<char>::empty() + t =~= t);
        assert(rest.push(t) =~= parts);
    }
}

/// A text without separators is a word.
pub proof fn lemma_one_word(t: Seq<char>, class: CharClass)
    requires
        t.len() > 0,
        forall|i: int| 0 <= i < t.len() ==> !in_class(class, #[trigger] t[i]),
    ensures
        words(t, class) == seq![t],
{
    let none = Seq::<char>::empty();
    lemma_pieces_extend(none, t, class);
    assert(none + t =~= t);
    let p = Seq::<Seq<char>>::empty();
    lemma_nonempty_push(p, t);
    reveal(Seq::filter);
    assert(pieces(t, class) =~= p.push(t));
    assert(nonempty(p) =~= p);
}

/// One word more behind a separator.
pub proof fn lemma_words_add(s: Seq<char>, c: char, t: Seq<char>, class: CharClass)
    requires
        in_class(class, c),
        t.len() > 0,
        forall|i: int| 0 <= i < t.len() ==> !in_class(class, #[trigger] t[i]),
    ensures
        words(s.push(c) + t, class) == words(s, class).push(t),
{
    let p = pieces(s, class);
    assert(s.push(c).drop_last() =~= s);
    assert(pieces(s.push(c), class) == p.push(Seq::empty()));
    lemma_pieces_extend(s.push(c), t, class);
    assert(p.push(Seq::empty()).drop_last() =~= p);
    assert(Seq::<char>::empty() + t =~= t);
    lemma_nonempty_push(p, t);
}

/// A text that is empty or ends in a line feed has one line more when a line is added to it.
pub proof fn lemma_lines_append(s: Seq<char>, line: Seq<char>)
    requires
        s.len() == 0 || s.last() == '\n',
        line.len() > 0,
        line.last() != '\r',
        forall|i: int| 0 <= i < line.len() ==> #[trigger] line[i] != '\n',
    ensures
        lines(s + line.push('\n')) == lines(s).push(line),
{
    let class = CharClass::One('\n');
    let p = pieces(s, class);
    lemma_pieces_nonempty(s, class);
    assert(p.last().len() == 0);
    lemma_pieces_extend(s, line, class);
    assert(p.last() + line =~= line);
    let whole = s + line.push('\n');
    assert(whole.drop_last() =~= s + line);
    assert(whole.last() == '\n');
    let q = pieces(whole, class);
    assert(q == p.drop_last().push(line).push(Seq::<char>::empty()));
    assert(lines(whole) =~= lines(s).push(line)) by {
        assert(q.len() == p.len() + 1);
        assert forall|i: int| 0 <= i < p.len() - 1 implies q[i] == p[i] by {
            assert(p.drop_last()[i] == p[i]);
        }
        assert(q[p.len() - 1] == line);
    }
}

proof fn lemma_find_shifted(s: Seq<char>, pat: Seq<char>, k: int, j: int)
    requires
        0 <= k <= s.len(),
        0 <= j,
    ensures
        find_from(s, pat, k + j) == match find_from(s.skip(k), pat, j) {
            Some(i) => Some(i + k),
            None => None,
        },
    decreases s.len() - k - j + 1,
{
    let t = s.skip(k);
    if k + j + pat.len() <= s.len() {
        assert(t.subrange(j, j + pat.len()) =~= s.subrange(k + j, k + j + pat.len()));
        lemma_find_shifted(s, pat, k, j + 1);
    }
}

proof fn lemma_parts_shifted(s: Seq<char>, pat: Seq<char>, k: int, j: int)
    requires
        0 <= k <= s.len(),
        0 <= j <= s.len() - k,
        pat.len() > 0,
    ensures
        parts_from(s, pat, k + j) == parts_from(s.skip(k), pat, j),
    decreases s.len() - k - j,
{
    let t = s.skip(k);
    lemma_find_shifted(s, pat, k, j);
    lemma_find_from(t, pat, j);
    match find_from(t, pat, j) {
        None => {
            assert(s.skip(k + j) =~= t.skip(j));
        },
        Some(i) => {
            lemma_parts_shifted(s, pat, k, (i + pat.len()) as int);
            assert(s.subrange(k + j, i + k) =~= t.subrange(j, i));
        },
    }
}

proof fn lemma_parts_concat_from(a: Seq<char>, pat: Seq<char>, b: Seq<char>, from: int)
    requires
        pat.len() > 0,
        forall|k: int| 1 <= k < pat.len() ==> #[trigger] pat[k] != pat[0],
        0 <= from <= a.len(),
    ensures
        parts_from(a + pat + b, pat, from) == parts_from(a, pat, from) + parts_from(b, pat, 0),
    decreases a.len() - from,
{
    let s = a + pat + b;
    let n = a.len() as int;
    assert forall|i: int| 0 <= i < n implies (#[trigger] occurs_at(s, pat, i) <==> occurs_at(
        a,
        pat,
        i,
    )) by {
        if i + pat.len() <= n {
            assert(s.subrange(i, i + pat.len()) =~= a.subrange(i, i + pat.len()));
        } else if occurs_at(s, pat, i) {
            assert(s.subrange(i, i + pat.len())[n - i] == s[n]);
            assert(s[n] == pat[0]);
            assert(pat[n - i] != pat[0]);
        }
    }
    assert(s.subrange(n, n + pat.len()) =~= pat);
    lemma_find_from(a, pat, from);
    match find_from(a, pat, from) {
        None => {
            lemma_find_is(s, pat, from, n);
            lemma_parts_shifted(s, pat, (n + pat.len()) as int, 0);
            assert(s.skip((n + pat.len()) as int) =~= b);
            assert(s.subrange(from, n) =~= a.skip(from));
        },
        Some(i) => {
            lemma_find_is(s, pat, from, i);
            lemma_parts_concat_from(a, pat, b, (i + pat.len()) as int);
            assert(s.subrange(from, i) =~= a.subrange(from, i));
            let next = (i + pat.len()) as int;
            assert((seq![a.subrange(from, i)] + parts_from(a, pat, next)) + parts_from(b, pat, 0)
                =~= seq![a.subrange(from, i)] + (parts_from(a, pat, next) + parts_from(
                b,
                pat,
                0,
            )));
        },
    }
}

/// A text with an occurrence of `pat` in it has the parts of what stands before it and the parts of what
/// stands behind it, where `pat` cannot overlap itself.
pub proof fn lemma_parts_concat(a: Seq<char>, pat: Seq<char>, b: Seq<char>)
    requires
        pat.len() > 0,
        forall|k: int| 1 <= k < pat.len() ==> #[trigger] pat[k] != pat[0],
    ensures
        parts_from(a + pat + b, pat, 0) == parts_from(a, pat, 0) + parts_from(b, pat, 0),
{
    lemma_parts_concat_from(a, pat, b, 0);
}

/// A character that cannot end an occurrence of `pat` lengthens the last part.
pub proof fn lemma_parts_push(a: Seq<char>, pat: Seq<char>, c: char, from: int)
    requires
        pat.len() > 0,
        c != pat.last(),
        0 <= from <= a.len(),
    ensures
        parts_from(a, pat, from).len() > 0,
        parts_from(a.push(c), pat, from) == parts_from(a, pat, from).drop_last().push(
            parts_from(a, pat, from).last().push(c),
        ),
    decreases a.len() - from,
{
    let s = a.push(c);
    assert forall|i: int| 0 <= i implies (#[trigger] occurs_at(s, pat, i) <==> occurs_at(
        a,
        pat,
        i,
    )) by {
        if i + pat.len() <= a.len() {
            assert(s.subrange(i, i + pat.len()) =~= a.subrange(i, i + pat.len()));
        } else if occurs_at(s, pat, i) {
            assert(s.subrange(i, i + pat.len())[pat.len() - 1] == c);
        }
    }
    lemma_find_from(a, pat, from);
    lemma_find_from(s, pat, from);
    let p = parts_from(a, pat, from);
    match find_from(a, pat, from) {
        None => {
            assert(find_from(s, pat, from) is None);
            assert(s.skip(from) =~= a.skip(from).push(c));
            assert(p.drop_last().push(p.last().push(c)) =~= seq![s.skip(from)]);
        },
        Some(i) => {
            lemma_find_is(s, pat, from, i);
            let next = (i + pat.len()) as int;
            lemma_parts_push(a, pat, c, next);
            let q = parts_from(a, pat, next);
            assert(s.subrange(from, i) =~= a.subrange(from, i));
            assert(p == seq![a.subrange(from, i)] + q);
            assert(p.drop_last() =~= seq![a.subrange(from, i)] + q.drop_last());
            assert(parts_from(s, pat, from) =~= p.drop_last().push(p.last().push(c)));
        },
    }
}

/// A carriage return before a line feed belongs to the end of the line.
pub proof fn carriage_returns_belong_to_the_line_end(s: Seq<char>, line: Seq<char>)
    requires
        s.len() == 0 || s.last() == '\n',
        forall|i: int| 0 <= i < line.len() ==> #[trigger] line[i] != '\n',
    ensures
        lines(s + line.push('\r').push('\n')) == lines(s).push(line),
{
    let class = CharClass::One('\n');
    let whole_line = line.push('\r');
    let p = pieces(s, class);
    lemma_pieces_nonempty(s, class);
    assert(p.last().len() == 0);
    assert forall|i: int| 0 <= i < whole_line.len() implies !in_class(
        class,
        #[trigger] whole_line[i],
    ) by {
        if i < line.len() {
            assert(whole_line[i] == line[i]);
        }
    }
    lemma_pieces_extend(s, whole_line, class);
    assert(p.last() + whole_line =~= whole_line);
    let whole = s + whole_line.push('\n');
    assert(whole.drop_last() =~= s + whole_line);
    let q = pieces(whole, class);
    assert(q == p.drop_last().push(whole_line).push(Seq::<char>::empty()));
    assert(whole_line.drop_last() =~= line);
    assert(lines(whole) =~= lines(s).push(line)) by {
        assert(q.len() == p.len() + 1);
        assert forall|i: int| 0 <= i < p.len() - 1 implies q[i] == p[i] by {
            assert(p.drop_last()[i] == p[i]);
        }
        assert(q[p.len() - 1] == whole_line);
    }
}

}
