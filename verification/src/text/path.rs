//! File paths written as text with `/` between the components.
use crate::text::compose::{cat2, cat3, option_text, same_text};
use crate::text::search::{
    ends_with, ends_with_text, lemma_rfind, occurs_at, rfind, rfind_text, slice_text, starts_with,
    starts_with_text,
};
use crate::text::split::{
    joined, lemma_texts_push, pieces, split_text, splitting_joined_restores, texts,
};
use crate::text::trim::CharClass;
use vstd::prelude::*;

verus! {

broadcast use vstd::string::group_string_axioms;

/// `name` below `base`. An absolute name stands for itself.
pub open spec fn path_below(base: Seq<char>, name: Seq<char>) -> Seq<char> {
    if starts_with(name, "/"@) || base.len() == 0 {
        name
    } else if ends_with(base, "/"@) {
        base + name
    } else {
        base + "/"@ + name
    }
}

/// `name` below `base`.
pub fn join_path(base: &str, name: &str) -> (r: String)
    ensures
        r@ == path_below(base@, name@),
{
    if starts_with_text(name, "/") || base.is_empty() {
        name.to_owned()
    } else if ends_with_text(base, "/") {
        cat2(base, name)
    } else {
        cat3(base, "/", name)
    }
}

/// The pieces that are components, of the first `n` pieces of a path: neither empty nor `.`, but for a
/// `.` at the very start.
pub open spec fn component_pieces(p: Seq<Seq<char>>, n: int) -> Seq<Seq<char>>
    decreases n,
{
    if n <= 0 {
        Seq::empty()
    } else {
        let t = component_pieces(p, n - 1);
        let x = p[n - 1];
        if x.len() == 0 || (x == "."@ && n > 1) {
            t
        } else {
            t.push(x)
        }
    }
}

/// The components of a path: `/` where it is absolute, then what stands between the slashes.
pub open spec fn path_components(path: Seq<char>) -> Seq<Seq<char>> {
    let p = pieces(path, CharClass::One('/'));
    let rest = component_pieces(p, p.len() as int);
    if starts_with(path, "/"@) {
        seq!["/"@] + rest
    } else {
        rest
    }
}

/// The components of a path.
pub fn components_of(path: &str) -> (r: Vec<String>)
    ensures
        texts(r@) == path_components(path@),
{
    let parts = split_text(path, CharClass::One('/'));
    let ghost p = texts(parts@);
    let mut out: Vec<String> = Vec::new();
    let absolute = starts_with_text(path, "/");
    let ghost head = if absolute {
        seq!["/"@]
    } else {
        Seq::empty()
    };
    if absolute {
        out.push("/".to_owned());
    }
    proof {
        assert(texts(out@) =~= head + component_pieces(p, 0));
    }
    let mut i: usize = 0;
    while i < parts.len()
        invariant
            i <= parts.len(),
            p == texts(parts@),
            texts(out@) == head + component_pieces(p, i as int),
        decreases parts.len() - i,
    {
        proof {
            assert(p[i as int] == parts@[i as int]@);
        }
        let skip = parts[i].as_str().is_empty() || (same_text(parts[i].as_str(), ".") && i > 0);
        if !skip {
            let s = parts[i].clone();
            proof {
                lemma_texts_push(out@, s);
                assert((head + component_pieces(p, i as int)).push(s@) =~= head + component_pieces(
                    p,
                    i + 1,
                ));
            }
            out.push(s);
        }
        i += 1;
    }
    proof {
        if !absolute {
            assert(head + component_pieces(p, p.len() as int) =~= component_pieces(
                p,
                p.len() as int,
            ));
        }
    }
    out
}

/// The name of the file that a path ends in; none where it ends in no name.
pub open spec fn file_name(path: Seq<char>) -> Option<Seq<char>> {
    let c = path_components(path);
    if c.len() == 0 || c.last() == "/"@ || c.last() == "."@ || c.last() == ".."@ {
        None
    } else {
        Some(c.last())
    }
}

/// A file name without its extension. A dot at the start begins no extension.
pub open spec fn without_extension(name: Seq<char>) -> Seq<char> {
    match rfind(name, "."@) {
        Some(i) => if i > 0 {
            name.take(i)
        } else {
            name
        },
        None => name,
    }
}

/// The name of the file that a path ends in, without its extension.
pub fn file_stem(path: &str) -> (r: Option<String>)
    ensures
        option_text(r) == match file_name(path@) {
            Some(n) => Some(without_extension(n)),
            None => None,
        },
{
    let c = components_of(path);
    let ghost t = texts(c@);
    assert(t.len() == c@.len());
    if c.len() == 0 {
        return None;
    }
    let last = c[c.len() - 1].as_str();
    assert(t.last() == last@);
    if same_text(last, "/") || same_text(last, ".") || same_text(last, "..") {
        return None;
    }
    match rfind_text(last, ".") {
        Some(i) => if i > 0 {
            let stem = slice_text(last, 0, i);
            assert(stem@ =~= last@.take(i as int));
            Some(stem)
        } else {
            Some(last.to_owned())
        },
        None => Some(last.to_owned()),
    }
}

/// A name that can be a component of a path.
pub open spec fn is_component(name: Seq<char>) -> bool {
    name.len() > 0 && name != "."@ && !name.contains('/')
}

proof fn lemma_component_pieces(parts: Seq<Seq<char>>, n: int)
    requires
        0 <= n <= parts.len(),
        forall|i: int| 0 <= i < parts.len() ==> is_component(#[trigger] parts[i]),
    ensures
        component_pieces(parts, n) == parts.take(n),
    decreases n,
{
    if n > 0 {
        lemma_component_pieces(parts, n - 1);
        assert(is_component(parts[n - 1]));
        assert(parts.take(n - 1).push(parts[n - 1]) =~= parts.take(n));
    } else {
        assert(parts.take(0) =~= Seq::<Seq<char>>::empty());
    }
}

/// Names with slashes between them are the components of the path that they make.
pub proof fn paths_are_made_of_their_components(parts: Seq<Seq<char>>)
    requires
        parts.len() > 0,
        forall|i: int| 0 <= i < parts.len() ==> is_component(#[trigger] parts[i]),
    ensures
        path_components(joined(parts, seq!['/'])) == parts,
        parts.last() != ".."@ ==> file_name(joined(parts, seq!['/'])) == Some(parts.last()),
{
    reveal_strlit("/");
    let path = joined(parts, seq!['/']);
    assert forall|i: int| 0 <= i < parts.len() implies !(#[trigger] parts[i]).contains('/') by {
        assert(is_component(parts[i]));
    }
    splitting_joined_restores(parts, '/');
    lemma_component_pieces(parts, parts.len() as int);
    assert(parts.take(parts.len() as int) =~= parts);
    lemma_joined_begins(parts, seq!['/']);
    assert(is_component(parts[0]));
    if starts_with(path, "/"@) {
        assert(path.subrange(0, 1)[0] == path[0]);
        assert(parts[0].contains(parts[0][0]));
    }
    assert(is_component(parts[parts.len() - 1]));
    if parts.last() == "/"@ {
        assert(parts.last()[0] == '/');
    }
}

proof fn lemma_joined_begins(parts: Seq<Seq<char>>, sep: Seq<char>)
    requires
        parts.len() > 0,
        parts[0].len() > 0,
    ensures
        joined(parts, sep).len() > 0,
        joined(parts, sep)[0] == parts[0][0],
    decreases parts.len(),
{
    if parts.len() > 1 {
        lemma_joined_begins(parts.drop_last(), sep);
    }
}

/// The extension is what stands behind the last dot.
pub proof fn extensions_are_taken_off(stem: Seq<char>, extension: Seq<char>)
    requires
        stem.len() > 0,
        !extension.contains('.'),
    ensures
        without_extension(stem + "."@ + extension) == stem,
{
    reveal_strlit(".");
    let name = stem + "."@ + extension;
    lemma_rfind(name, "."@);
    assert(name.subrange(stem.len() as int, (stem.len() + 1) as int) =~= "."@);
    assert(occurs_at(name, "."@, stem.len() as int));
    let i = rfind(name, "."@)->Some_0;
    if i > stem.len() {
        assert(name.subrange(i, i + 1)[0] == name[i]);
        assert(extension[i - stem.len() - 1] == '.');
    }
    assert(name.take(stem.len() as int) =~= stem);
}

/// A file below a directory is named by both: the directory, a slash unless it ends in one, and the name.
pub proof fn files_lie_below_their_directory(base: Seq<char>, name: Seq<char>)
    requires
        base.len() > 0,
        !starts_with(name, "/"@),
    ensures
        starts_with(path_below(base, name), base),
        ends_with(path_below(base, name), name),
        path_below(base, name).len() <= base.len() + 1 + name.len(),
        ends_with(base, "/"@) == (path_below(base, name).len() == base.len() + name.len()),
{
    reveal_strlit("/");
    let p = path_below(base, name);
    assert(p.subrange(0, base.len() as int) =~= base);
    assert(p.subrange(p.len() - name.len(), p.len() as int) =~= name);
}

}
