//! Whole words in a text.
use crate::text::chars::{is_alnum, is_alphanumeric, to_chars};
use crate::text::search::{char_occurs_at, occurs_at};
use vstd::prelude::*;
use vstd::string::*;

verus! {

broadcast use vstd::string::group_string_axioms;

/// No letter or digit stands before position `i`.
pub open spec fn is_word_start(s: Seq<char>, i: int) -> bool {
    i <= 0 || i > s.len() || !is_alnum(s[i - 1])
}

/// No letter or digit stands at position `i`.
pub open spec fn is_word_end(s: Seq<char>, i: int) -> bool {
    i < 0 || i >= s.len() || !is_alnum(s[i])
}

/// `pat` stands in `s` at position `i` and is not part of a longer word: where it begins with a letter or
/// a digit none stands before it, and where it ends with one none stands behind it.
pub open spec fn word_at(s: Seq<char>, pat: Seq<char>, i: int) -> bool {
    &&& occurs_at(s, pat, i)
    &&& is_alnum(pat[0]) ==> is_word_start(s, i)
    &&& is_alnum(pat.last()) ==> is_word_end(s, i + pat.len())
}

/// `pat` stands somewhere in `s` and is not part of a longer word.
pub open spec fn holds_word(s: Seq<char>, pat: Seq<char>) -> bool {
    exists|i: int| #[trigger] word_at(s, pat, i)
}

/// `s[from..]` with `pat`, wherever it is not part of a longer word, replaced by `to`.
pub open spec fn replace_words_from(s: Seq<char>, pat: Seq<char>, to: Seq<char>, from: int) -> Seq<char>
    decreases s.len() - from,
{
    if from < 0 || from >= s.len() || pat.len() == 0 {
        Seq::empty()
    } else if word_at(s, pat, from) {
        to + replace_words_from(s, pat, to, from + pat.len())
    } else {
        seq![s[from]] + replace_words_from(s, pat, to, from + 1)
    }
}

/// `s` with the nonempty `pat`, wherever it is not part of a longer word, replaced by `to`.
pub open spec fn replace_words(s: Seq<char>, pat: Seq<char>, to: Seq<char>) -> Seq<char> {
    replace_words_from(s, pat, to, 0)
}

fn char_word_at(s: &Vec<char>, pat: &Vec<char>, i: usize) -> (r: bool)
    requires
        pat@.len() > 0,
    ensures
        r == word_at(s@, pat@, i as int),
{
    if !char_occurs_at(s, pat, i) {
        return false;
    }
    assert(i + pat@.len() <= s.len());
    let end: usize = i + pat.len();
    if is_alphanumeric(pat[0]) && i > 0 && is_alphanumeric(s[i - 1]) {
        return false;
    }
    !(is_alphanumeric(pat[pat.len() - 1]) && end < s.len() && is_alphanumeric(s[end]))
}

/// `s` with `pat`, wherever it is not part of a longer word, replaced by `to`.
pub fn replace_word_text(s: &str, pat: &str, to: &str) -> (r: String)
    requires
        pat@.len() > 0,
    ensures
        r@ == replace_words(s@, pat@, to@),
{
    let v = to_chars(s);
    let p = to_chars(pat);
    let mut out = String::new();
    let mut i: usize = 0;
    proof {
        assert(Seq::<char>::empty() + replace_words(s@, pat@, to@) =~= replace_words(s@, pat@, to@));
    }
    while i < v.len()
        invariant
            v@ == s@,
            p@ == pat@,
            pat@.len() > 0,
            i <= v@.len(),
            out@ + replace_words_from(s@, pat@, to@, i as int) == replace_words(s@, pat@, to@),
        decreases v@.len() - i,
    {
        let ghost before = out@;
        if char_word_at(&v, &p, i) {
            out.append(to);
            proof {
                assert(before + (to@ + replace_words_from(s@, pat@, to@, i + pat@.len())) =~= (before
                    + to@) + replace_words_from(s@, pat@, to@, i + pat@.len()));
            }
            i += p.len();
        } else {
            out.push(v[i]);
            proof {
                let rest = replace_words_from(s@, pat@, to@, i + 1);
                assert(before + (seq![v@[i as int]] + rest) =~= before.push(v@[i as int]) + rest);
            }
            i += 1;
        }
    }
    proof {
        assert(out@ + Seq::<char>::empty() =~= out@);
    }
    out
}

proof fn lemma_replace_words_absent(s: Seq<char>, pat: Seq<char>, to: Seq<char>, from: int)
    requires
        0 <= from <= s.len(),
        pat.len() > 0,
        !holds_word(s, pat),
    ensures
        replace_words_from(s, pat, to, from) == s.skip(from),
    decreases s.len() - from,
{
    if from < s.len() {
        assert(!word_at(s, pat, from));
        lemma_replace_words_absent(s, pat, to, from + 1);
        assert(s.skip(from) =~= seq![s[from]] + s.skip(from + 1));
    } else {
        assert(s.skip(from) =~= Seq::<char>::empty());
    }
}

/// Replacing a word that the text does not hold changes nothing, though its letters may stand inside
/// other words.
pub proof fn replacing_absent_words_is_identity(s: Seq<char>, pat: Seq<char>, to: Seq<char>)
    requires
        pat.len() > 0,
        !holds_word(s, pat),
    ensures
        replace_words(s, pat, to) == s,
{
    lemma_replace_words_absent(s, pat, to, 0);
    assert(s.skip(0) =~= s);
}

proof fn lemma_replace_one_from(
    s: Seq<char>,
    pat: Seq<char>,
    to: Seq<char>,
    at: int,
    i: int,
)
    requires
        pat.len() > 0,
        0 <= i <= at,
        word_at(s, pat, at),
        forall|j: int| #[trigger] word_at(s, pat, j) ==> j == at,
    ensures
        replace_words_from(s, pat, to, i) == s.subrange(i, at) + to + s.skip(at + pat.len()),
    decreases at - i,
{
    if i < at {
        lemma_replace_one_from(s, pat, to, at, i + 1);
        assert(!word_at(s, pat, i));
        assert(seq![s[i]] + (s.subrange(i + 1, at) + to + s.skip(at + pat.len())) =~= s.subrange(i, at)
            + to + s.skip(at + pat.len()));
    } else {
        lemma_replace_none_from(s, pat, to, at + pat.len());
        assert(s.subrange(i, at) + to + s.skip(at + pat.len()) =~= to + s.skip(at + pat.len()));
    }
}

proof fn lemma_replace_none_from(s: Seq<char>, pat: Seq<char>, to: Seq<char>, i: int)
    requires
        pat.len() > 0,
        0 <= i <= s.len(),
        forall|j: int| i <= j ==> !#[trigger] word_at(s, pat, j),
    ensures
        replace_words_from(s, pat, to, i) == s.skip(i),
    decreases s.len() - i,
{
    if i < s.len() {
        lemma_replace_none_from(s, pat, to, i + 1);
        assert(seq![s[i]] + s.skip(i + 1) =~= s.skip(i));
    } else {
        assert(s.skip(i) =~= Seq::<char>::empty());
    }
}

/// The only word of its kind is replaced where it stands, and all else stays.
pub proof fn replacing_the_only_word(a: Seq<char>, pat: Seq<char>, b: Seq<char>, to: Seq<char>)
    requires
        pat.len() > 0,
        word_at(a + pat + b, pat, a.len() as int),
        forall|j: int| #[trigger] word_at(a + pat + b, pat, j) ==> j == a.len(),
    ensures
        replace_words(a + pat + b, pat, to) == a + to + b,
{
    let s = a + pat + b;
    lemma_replace_one_from(s, pat, to, a.len() as int, 0);
    assert(s.subrange(0, a.len() as int) =~= a);
    assert(s.skip((a.len() + pat.len()) as int) =~= b);
}

}
