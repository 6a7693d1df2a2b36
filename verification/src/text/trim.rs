//! Trimming and case mapping.
use crate::text::chars::{is_alnum, is_alphanumeric, is_space, is_whitespace, to_chars, to_text};
use vstd::prelude::*;

verus! {

broadcast use vstd::string::group_string_axioms;

/// A set of characters that separates or surrounds words.
#[derive(Clone, Copy)]
pub enum CharClass {
    /// One given character.
    One(char),
    /// White space.
    Space,
    /// Everything that is neither alphabetic nor numeric.
    NotAlphanumeric,
    /// Everything that is neither alphanumeric nor `_` nor `'`.
    NotQueryWord,
    /// Everything that is neither alphanumeric nor `_` nor `-`.
    NotSlugWord,
}

/// Membership in a class.
pub open spec fn in_class(class: CharClass, c: char) -> bool {
    match class {
        CharClass::One(d) => c == d,
        CharClass::Space => is_space(c),
        CharClass::NotAlphanumeric => !is_alnum(c),
        CharClass::NotQueryWord => !is_alnum(c) && c != '_' && c != '\'',
        CharClass::NotSlugWord => !is_alnum(c) && c != '_' && c != '-',
    }
}

/// Whether `c` belongs to `class`.
pub fn char_in_class(class: CharClass, c: char) -> (r: bool)
    ensures
        r == in_class(class, c),
{
    match class {
        CharClass::One(d) => c == d,
        CharClass::Space => is_whitespace(c),
        CharClass::NotAlphanumeric => !is_alphanumeric(c),
        CharClass::NotQueryWord => !is_alphanumeric(c) && c != '_' && c != '\'',
        CharClass::NotSlugWord => !is_alphanumeric(c) && c != '_' && c != '-',
    }
}

/// `s` without its longest prefix of characters of `class`.
pub open spec fn strip_start(s: Seq<char>, class: CharClass) -> Seq<char>
    decreases s.len(),
{
    if s.len() > 0 && in_class(class, s[0]) {
        strip_start(s.skip(1), class)
    } else {
        s
    }
}

/// `s` without its longest suffix of characters of `class`.
pub open spec fn strip_end(s: Seq<char>, class: CharClass) -> Seq<char>
    decreases s.len(),
{
    if s.len() > 0 && in_class(class, s.last()) {
        strip_end(s.drop_last(), class)
    } else {
        s
    }
}

/// `s` without white space at either end.
pub open spec fn trimmed(s: Seq<char>) -> Seq<char> {
    strip_end(strip_start(s, CharClass::Space), CharClass::Space)
}

/// `s` without white space at its end.
pub open spec fn trimmed_end(s: Seq<char>) -> Seq<char> {
    strip_end(s, CharClass::Space)
}

/// `s` without white space at its start.
pub open spec fn trimmed_start(s: Seq<char>) -> Seq<char> {
    strip_start(s, CharClass::Space)
}

/// A text with a character outside the class at its start keeps its start.
pub proof fn lemma_strip_start_shape(s: Seq<char>, class: CharClass)
    ensures
        strip_start(s, class).len() <= s.len(),
        strip_start(s, class) == s.skip(s.len() - strip_start(s, class).len()),
        strip_start(s, class).len() > 0 ==> !in_class(class, strip_start(s, class)[0]),
        forall|i: int|
            0 <= i < s.len() - strip_start(s, class).len() ==> in_class(class, #[trigger] s[i]),
    decreases s.len(),
{
    if s.len() > 0 && in_class(class, s[0]) {
        let t = s.skip(1);
        lemma_strip_start_shape(t, class);
        let n = t.len() - strip_start(t, class).len();
        assert(t.skip(n) =~= s.skip(n + 1));
        assert forall|i: int| 0 <= i < n + 1 implies in_class(class, #[trigger] s[i]) by {
            if i > 0 {
                assert(t[i - 1] == s[i]);
            }
        }
    } else {
        assert(s.skip(0) =~= s);
    }
}

/// `strip_end` keeps a prefix that does not end in the class; all it takes off is in the class.
pub proof fn lemma_strip_end_shape(s: Seq<char>, class: CharClass)
    ensures
        strip_end(s, class).len() <= s.len(),
        strip_end(s, class) == s.take(strip_end(s, class).len() as int),
        strip_end(s, class).len() > 0 ==> !in_class(class, strip_end(s, class).last()),
        forall|i: int|
            strip_end(s, class).len() <= i < s.len() ==> in_class(class, #[trigger] s[i]),
    decreases s.len(),
{
    if s.len() > 0 && in_class(class, s.last()) {
        let t = s.drop_last();
        lemma_strip_end_shape(t, class);
        let n = strip_end(t, class).len();
        assert(t.take(n as int) =~= s.take(n as int));
        assert forall|i: int| n <= i < s.len() implies in_class(class, #[trigger] s[i]) by {
            if i < t.len() {
                assert(t[i] == s[i]);
            }
        }
    } else {
        assert(s.take(s.len() as int) =~= s);
    }
}

/// Trimming twice is trimming once.
pub proof fn trimming_is_idempotent(s: Seq<char>)
    ensures
        trimmed(trimmed(s)) == trimmed(s),
{
    let a = strip_start(s, CharClass::Space);
    let b = strip_end(a, CharClass::Space);
    lemma_strip_start_shape(s, CharClass::Space);
    lemma_strip_end_shape(a, CharClass::Space);
    if b.len() > 0 {
        assert(b[0] == a[0]);
    }
}

/// White space behind a text is trimmed away.
pub proof fn lemma_trimmed_push_space(s: Seq<char>, c: char)
    requires
        is_space(c),
    ensures
        trimmed(s.push(c)) == trimmed(s),
{
    lemma_strip_start_push(s, c);
    let a = strip_start(s, CharClass::Space);
    if a.len() > 0 {
        assert(a.push(c).drop_last() =~= a);
    } else {
        assert(strip_start(s.push(c), CharClass::Space) =~= a);
    }
}

proof fn lemma_strip_start_push(s: Seq<char>, c: char)
    requires
        is_space(c),
    ensures
        strip_start(s, CharClass::Space).len() > 0 ==> strip_start(s.push(c), CharClass::Space)
            == strip_start(s, CharClass::Space).push(c),
        strip_start(s, CharClass::Space).len() == 0 ==> strip_start(
            s.push(c),
            CharClass::Space,
        ).len() == 0,
    decreases s.len(),
{
    if s.len() == 0 {
        assert(s.push(c).skip(1) =~= Seq::<char>::empty());
        assert(strip_start(s.push(c).skip(1), CharClass::Space).len() == 0);
    } else if is_space(s[0]) {
        lemma_strip_start_push(s.skip(1), c);
        assert(s.push(c).skip(1) =~= s.skip(1).push(c));
        assert(s.push(c)[0] == s[0]);
    } else {
        assert(s.push(c)[0] == s[0]);
    }
}

fn start_of(v: &Vec<char>, class: CharClass) -> (r: usize)
    ensures
        r <= v@.len(),
        v@.skip(r as int) == strip_start(v@, class),
{
    let mut i: usize = 0;
    assert(v@.skip(0) =~= v@);
    while i < v.len() && char_in_class(class, v[i])
        invariant
            i <= v@.len(),
            strip_start(v@.skip(i as int), class) == strip_start(v@, class),
        decreases v@.len() - i,
    {
        assert(v@.skip(i as int).skip(1) =~= v@.skip(i + 1));
        assert(v@.skip(i as int)[0] == v@[i as int]);
        i += 1;
    }
    if i < v.len() {
        assert(v@.skip(i as int)[0] == v@[i as int]);
    }
    i
}

fn end_of(v: &Vec<char>, from: usize, class: CharClass) -> (r: usize)
    requires
        from <= v@.len(),
    ensures
        from <= r <= v@.len(),
        v@.subrange(from as int, r as int) == strip_end(v@.skip(from as int), class),
{
    let mut i: usize = v.len();
    assert(v@.subrange(from as int, i as int) =~= v@.skip(from as int));
    while i > from && char_in_class(class, v[i - 1])
        invariant
            from <= i <= v@.len(),
            strip_end(v@.subrange(from as int, i as int), class) == strip_end(
                v@.skip(from as int),
                class,
            ),
        decreases i,
    {
        assert(v@.subrange(from as int, i as int).drop_last() =~= v@.subrange(from as int, i - 1));
        assert(v@.subrange(from as int, i as int).last() == v@[i - 1]);
        i -= 1;
    }
    if i > from {
        assert(v@.subrange(from as int, i as int).last() == v@[i - 1]);
    }
    i
}

/// `s` without white space at either end.
pub fn trim_text(s: &str) -> (r: String)
    ensures
        r@ == trimmed(s@),
{
    let v = to_chars(s);
    let a = start_of(&v, CharClass::Space);
    let b = end_of(&v, a, CharClass::Space);
    to_text(&v, a, b)
}

/// `s` without white space at its end.
pub fn trim_end_text(s: &str) -> (r: String)
    ensures
        r@ == trimmed_end(s@),
{
    let v = to_chars(s);
    assert(v@.skip(0) =~= v@);
    let b = end_of(&v, 0, CharClass::Space);
    to_text(&v, 0, b)
}

/// `s` without its leading characters of `class`.
pub fn strip_start_text(s: &str, class: CharClass) -> (r: String)
    ensures
        r@ == strip_start(s@, class),
{
    let v = to_chars(s);
    let a = start_of(&v, class);
    assert(v@.subrange(a as int, v@.len() as int) =~= v@.skip(a as int));
    to_text(&v, a, v.len())
}

/// `s` without its trailing characters of `class`.
pub fn strip_end_text(s: &str, class: CharClass) -> (r: String)
    ensures
        r@ == strip_end(s@, class),
{
    let v = to_chars(s);
    assert(v@.skip(0) =~= v@);
    let b = end_of(&v, 0, class);
    to_text(&v, 0, b)
}

/// Every character is ASCII.
pub open spec fn all_ascii(s: Seq<char>) -> bool {
    forall|i: int| 0 <= i < s.len() ==> (#[trigger] s[i] as u32) < 128
}

/// The ASCII lowercase letter of an ASCII uppercase letter, any other character unchanged.
pub open spec fn ascii_lower(c: char) -> char {
    if 'A' <= c && c <= 'Z' {
        ((c as u32 + 32) as u32) as char
    } else {
        c
    }
}

/// The ASCII uppercase letter of an ASCII lowercase letter, any other character unchanged.
pub open spec fn ascii_upper(c: char) -> char {
    if 'a' <= c && c <= 'z' {
        ((c as u32 - 32) as u32) as char
    } else {
        c
    }
}

/// The Unicode lowercase mapping of a text that is not all ASCII.
pub uninterp spec fn unicode_lowercase(s: Seq<char>) -> Seq<char>;

/// The Unicode uppercase mapping of a text that is not all ASCII.
pub uninterp spec fn unicode_uppercase(s: Seq<char>) -> Seq<char>;

/// The lowercase mapping of a text.
pub open spec fn lowercase(s: Seq<char>) -> Seq<char> {
    if all_ascii(s) {
        s.map_values(|c: char| ascii_lower(c))
    } else {
        unicode_lowercase(s)
    }
}

/// The uppercase mapping of a text.
pub open spec fn uppercase(s: Seq<char>) -> Seq<char> {
    if all_ascii(s) {
        s.map_values(|c: char| ascii_upper(c))
    } else {
        unicode_uppercase(s)
    }
}

/// `str::to_lowercase`: an ASCII text has its letters `A` to `Z` mapped to `a` to `z`; the result
/// for any other text depends on that text and the Unicode tables alone.
#[verifier::external_body]
pub(crate) fn to_lowercase(s: &str) -> (r: String)
    ensures
        all_ascii(s@) ==> r@ == s@.map_values(|c: char| ascii_lower(c)),
        !all_ascii(s@) ==> r@ == unicode_lowercase(s@),
{
    s.to_lowercase()
}

/// `str::to_uppercase`: an ASCII text has its letters `a` to `z` mapped to `A` to `Z`; the result
/// for any other text depends on that text and the Unicode tables alone.
#[verifier::external_body]
pub(crate) fn to_uppercase(s: &str) -> (r: String)
    ensures
        all_ascii(s@) ==> r@ == s@.map_values(|c: char| ascii_upper(c)),
        !all_ascii(s@) ==> r@ == unicode_uppercase(s@),
{
    s.to_uppercase()
}

}
