//! Memory entries as markdown files: where they may stand, and how they are searched.
use crate::text::compose::{byte_count, byte_len, cat2, same_text};
use crate::text::order::{
    is_before, sort_ranked, stable_sorted, text_before, text_order_asymmetric,
    text_order_not_before_transitive, Ranked,
};
use crate::text::path::{components_of, join_path, path_below, path_components};
use crate::text::search::{
    contains, contains_text, rfind, rfind_text, slice_text, starts_with, starts_with_text,
};
use crate::text::split::{lemma_texts_push, lines, pieces, split_lines, split_text, texts};
use crate::text::trim::{
    lowercase, strip_start_text, to_lowercase, trim_text, trimmed, trimmed_start, CharClass,
};
use vstd::prelude::*;
use vstd::string::*;

verus! {

broadcast use vstd::string::group_string_axioms;

/// Errors of the markdown store.
#[derive(Debug)]
pub enum MarkdownStoreError {
    /// Reading or writing failed.
    Io(String),
    /// The path leads out of the store.
    PathTraversal(String),
    /// There is no such entry.
    NotFound(String),
}

impl MarkdownStoreError {
    /// The text that is shown for the error.
    pub open spec fn text(&self) -> Seq<char> {
        match self {
            MarkdownStoreError::Io(e) => "io: "@ + e@,
            MarkdownStoreError::PathTraversal(e) => "path traversal: "@ + e@,
            MarkdownStoreError::NotFound(e) => "not found: "@ + e@,
        }
    }

    /// The text that is shown for the error.
    pub fn message(&self) -> (r: String)
        ensures
            r@ == self.text(),
    {
        match self {
            MarkdownStoreError::Io(e) => cat2("io: ", e.as_str()),
            MarkdownStoreError::PathTraversal(e) => cat2("path traversal: ", e.as_str()),
            MarkdownStoreError::NotFound(e) => cat2("not found: ", e.as_str()),
        }
    }
}

/// A memory entry in a markdown file.
#[derive(Debug)]
pub struct MarkdownEntry {
    /// The file's path below the memory directory.
    pub path: String,
    /// The file's text.
    pub content: String,
    /// The file's size in bytes.
    pub size: u64,
    /// When the file was last changed, in RFC 3339 form.
    pub modified_at: String,
}

impl Ranked for MarkdownEntry {
    open spec fn precedes(a: MarkdownEntry, b: MarkdownEntry) -> bool {
        text_before(a.path@, b.path@)
    }

    proof fn not_precedes_transitive(a: MarkdownEntry, b: MarkdownEntry, c: MarkdownEntry) {
        text_order_not_before_transitive(a.path@, b.path@, c.path@);
    }

    proof fn precedes_asymmetric(a: MarkdownEntry, b: MarkdownEntry) {
        text_order_asymmetric(a.path@, b.path@);
    }

    fn ranks_before(&self, other: &MarkdownEntry) -> (r: bool) {
        is_before(self.path.as_str(), other.path.as_str())
    }
}

/// An entry with its search score.
#[derive(Debug)]
pub struct ScoredEntry {
    /// How well the entry matches.
    pub score: u128,
    /// The entry.
    pub entry: MarkdownEntry,
}

impl Ranked for ScoredEntry {
    open spec fn precedes(a: ScoredEntry, b: ScoredEntry) -> bool {
        a.score > b.score || (a.score == b.score && text_before(a.entry.path@, b.entry.path@))
    }

    proof fn not_precedes_transitive(a: ScoredEntry, b: ScoredEntry, c: ScoredEntry) {
        text_order_not_before_transitive(a.entry.path@, b.entry.path@, c.entry.path@);
    }

    proof fn precedes_asymmetric(a: ScoredEntry, b: ScoredEntry) {
        text_order_asymmetric(a.entry.path@, b.entry.path@);
    }

    fn ranks_before(&self, other: &ScoredEntry) -> (r: bool) {
        self.score > other.score || (self.score == other.score && is_before(
            self.entry.path.as_str(),
            other.entry.path.as_str(),
        ))
    }
}

/// The terms of a query: its words of at least two bytes.
pub open spec fn query_terms(query: Seq<char>) -> Seq<Seq<char>> {
    pieces(query, CharClass::NotSlugWord).filter(|t: Seq<char>| byte_len(t) >= 2)
}

/// The terms of a query.
pub fn tokenize_query(query: &str) -> (r: Vec<String>)
    ensures
        texts(r@) == query_terms(query@),
{
    let parts = split_text(query, CharClass::NotSlugWord);
    let ghost p = texts(parts@);
    let ghost pred = |t: Seq<char>| byte_len(t) >= 2;
    let mut out: Vec<String> = Vec::new();
    let mut i: usize = 0;
    proof {
        reveal(Seq::filter);
        assert(texts(out@) =~= p.take(0).filter(pred));
    }
    while i < parts.len()
        invariant
            i <= parts.len(),
            p == texts(parts@),
            pred == (|t: Seq<char>| byte_len(t) >= 2),
            texts(out@) == p.take(i as int).filter(pred),
        decreases parts.len() - i,
    {
        proof {
            reveal(Seq::filter);
            assert(p.take(i + 1).drop_last() =~= p.take(i as int));
            assert(p.take(i + 1).last() == parts@[i as int]@);
        }
        if byte_count(parts[i].as_str()) >= 2 {
            let s = parts[i].clone();
            proof {
                lemma_texts_push(out@, s);
            }
            out.push(s);
        }
        i += 1;
    }
    proof {
        assert(p.take(i as int) =~= p);
    }
    out
}

/// The first line that is a heading; empty where there is none.
pub open spec fn title_of(all: Seq<Seq<char>>) -> Seq<char>
    decreases all.len(),
{
    if all.len() == 0 {
        Seq::empty()
    } else if starts_with(trimmed_start(all[0]), "#"@) {
        all[0]
    } else {
        title_of(all.skip(1))
    }
}

fn find_title(content: &str) -> (r: String)
    ensures
        r@ == title_of(lines(content@)),
{
    let all = split_lines(content);
    let ghost a = texts(all@);
    let mut i: usize = 0;
    proof {
        assert(a.skip(0) =~= a);
    }
    while i < all.len()
        invariant
            i <= all.len(),
            a == texts(all@),
            a == lines(content@),
            title_of(a.skip(i as int)) == title_of(a),
        decreases all.len() - i,
    {
        proof {
            assert(a.skip(i as int)[0] == all@[i as int]@);
            assert(a.skip(i as int).skip(1) =~= a.skip(i + 1));
        }
        let t = strip_start_text(all[i].as_str(), CharClass::Space);
        if starts_with_text(t.as_str(), "#") {
            return all[i].clone();
        }
        i += 1;
    }
    String::new()
}

/// `points` where `pat` stands in `s`.
pub open spec fn points_if(s: Seq<char>, pat: Seq<char>, points: int) -> int {
    if contains(s, pat) {
        points
    } else {
        0
    }
}

/// What the terms add to a score.
pub open spec fn term_points(
    path: Seq<char>,
    title: Seq<char>,
    content: Seq<char>,
    terms: Seq<Seq<char>>,
) -> int
    decreases terms.len(),
{
    if terms.len() == 0 {
        0
    } else {
        let t = terms.last();
        term_points(path, title, content, terms.drop_last()) + points_if(path, t, 12) + points_if(
            title,
            t,
            10,
        ) + points_if(content, t, 4)
    }
}

/// How well an entry matches a query in lower case: the query as a whole counts most, and a match in
/// the path counts more than one in the title, and that more than one in the text.
pub open spec fn search_score(entry: MarkdownEntry, query: Seq<char>, terms: Seq<Seq<char>>) -> int {
    let path = lowercase(entry.path@);
    let title = lowercase(title_of(lines(entry.content@)));
    let content = lowercase(entry.content@);
    points_if(path, query, 50) + points_if(title, query, 40) + points_if(content, query, 30)
        + term_points(path, title, content, terms)
}

fn add_if(score: u128, s: &str, pat: &str, points: u128) -> (r: u128)
    requires
        points <= 50,
        score <= u128::MAX - 50,
    ensures
        r == score + points_if(s@, pat@, points as int),
{
    if contains_text(s, pat) {
        score + points
    } else {
        score
    }
}

/// How well an entry matches a query in lower case.
pub fn entry_search_score(entry: &MarkdownEntry, query: &str, terms: &Vec<String>) -> (r: u128)
    ensures
        r == search_score(*entry, query@, texts(terms@)),
{
    let path = to_lowercase(entry.path.as_str());
    let content = to_lowercase(entry.content.as_str());
    let title = to_lowercase(find_title(entry.content.as_str()).as_str());
    let mut score: u128 = 0;
    score = add_if(score, path.as_str(), query, 50);
    score = add_if(score, title.as_str(), query, 40);
    score = add_if(score, content.as_str(), query, 30);
    let ghost base = score as int;
    let ghost t = texts(terms@);
    let mut i: usize = 0;
    proof {
        assert(t.take(0) =~= Seq::<Seq<char>>::empty());
    }
    while i < terms.len()
        invariant
            i <= terms.len(),
            t == texts(terms@),
            0 <= base <= 120,
            score == base + term_points(path@, title@, content@, t.take(i as int)),
            score <= 120 + 26 * i,
        decreases terms.len() - i,
    {
        proof {
            assert(t.take(i + 1).drop_last() =~= t.take(i as int));
            assert(t.take(i + 1).last() == terms@[i as int]@);
        }
        score = add_if(score, path.as_str(), terms[i].as_str(), 12);
        score = add_if(score, title.as_str(), terms[i].as_str(), 10);
        score = add_if(score, content.as_str(), terms[i].as_str(), 4);
        i += 1;
    }
    proof {
        assert(t.take(i as int) =~= t);
    }
    score
}

/// The entries that match a query in lower case, with their scores.
pub open spec fn matches(entries: Seq<MarkdownEntry>, query: Seq<char>) -> Seq<ScoredEntry>
    decreases entries.len(),
{
    if entries.len() == 0 {
        Seq::empty()
    } else {
        let t = matches(entries.drop_last(), query);
        let score = search_score(entries.last(), query, query_terms(query));
        if score > 0 {
            t.push(ScoredEntry { score: score as u128, entry: entries.last() })
        } else {
            t
        }
    }
}

/// The entries without their scores.
pub open spec fn unscored(s: Seq<ScoredEntry>) -> Seq<MarkdownEntry> {
    Seq::new(s.len(), |i: int| s[i].entry)
}

/// The entries of the store, sorted by path.
pub fn list_all(entries: Vec<MarkdownEntry>) -> (r: Vec<MarkdownEntry>)
    ensures
        r@ == stable_sorted(entries@),
{
    sort_ranked(entries)
}

/// Searches the entries of the store: those that match the query, the best first, equally good ones by
/// path.
pub fn search_text(entries: Vec<MarkdownEntry>, query: &str) -> (r: Vec<MarkdownEntry>)
    ensures
        r@ == unscored(
            stable_sorted(matches(stable_sorted(entries@), lowercase(query@))),
        ),
{
    let q = to_lowercase(query);
    let terms = tokenize_query(q.as_str());
    let mut all = list_all(entries);
    let ghost a = all@;
    let mut scored: Vec<ScoredEntry> = Vec::new();
    let ghost mut done: int = 0;
    proof {
        assert(all@ =~= a.skip(0));
        assert(scored@ =~= matches(a.take(0), q@));
    }
    while all.len() > 0
        invariant
            0 <= done <= a.len(),
            all@ == a.skip(done),
            texts(terms@) == query_terms(q@),
            scored@ == matches(a.take(done), q@),
        decreases all.len(),
    {
        let entry = all.remove(0);
        proof {
            assert(entry == a[done]);
            assert(a.take(done + 1).drop_last() =~= a.take(done));
            assert(a.take(done + 1).last() == entry);
            assert(a.skip(done).remove(0) =~= a.skip(done + 1));
        }
        let score = entry_search_score(&entry, q.as_str(), &terms);
        if score > 0 {
            scored.push(ScoredEntry { score, entry });
        }
        proof {
            done = done + 1;
        }
    }
    proof {
        assert(a.take(done) =~= a);
    }
    let mut ranked = sort_ranked(scored);
    let ghost s = ranked@;
    let mut out: Vec<MarkdownEntry> = Vec::new();
    let ghost mut given: int = 0;
    proof {
        assert(ranked@ =~= s.skip(0));
        assert(out@ =~= unscored(s).take(0));
    }
    while ranked.len() > 0
        invariant
            0 <= given <= s.len(),
            ranked@ == s.skip(given),
            out@ == unscored(s).take(given),
        decreases ranked.len(),
    {
        let x = ranked.remove(0);
        proof {
            assert(x == s[given]);
            assert(unscored(s).take(given + 1) =~= unscored(s).take(given).push(x.entry));
            assert(s.skip(given).remove(0) =~= s.skip(given + 1));
        }
        out.push(x.entry);
        proof {
            given = given + 1;
        }
    }
    proof {
        assert(unscored(s).take(given) =~= unscored(s));
    }
    out
}

/// The file is a markdown file: its name ends in `.md` and has something before it.
pub open spec fn is_markdown_name(name: Seq<char>) -> bool {
    match rfind(name, "."@) {
        Some(i) => i > 0 && name.skip(i + 1) == "md"@,
        None => false,
    }
}

/// Whether the file with a name belongs to the store.
pub fn is_markdown_file(name: &str) -> (r: bool)
    ensures
        r == is_markdown_name(name@),
{
    proof {
        reveal_strlit(".");
    }
    match rfind_text(name, ".") {
        Some(i) => {
            let n: usize = name.unicode_len();
            let extension = slice_text(name, i + 1, n);
            assert(extension@ =~= name@.skip(i + 1));
            i > 0 && same_text(extension.as_str(), "md")
        },
        None => false,
    }
}

/// Where the markdown files of a character stand.
#[derive(Debug)]
pub struct MarkdownMemoryStore {
    /// The directory of the store.
    pub base_dir: String,
}

/// What is wrong with a path into the store.
pub open spec fn path_error(rel_path: Seq<char>) -> Option<Seq<char>> {
    let rel = trimmed(rel_path);
    if rel.len() == 0 {
        Some("empty path"@)
    } else if starts_with(rel, "/"@) {
        Some("absolute paths not allowed"@)
    } else if path_components(rel).contains(".."@) {
        Some("path traversal (..) not allowed"@)
    } else {
        None
    }
}

impl MarkdownMemoryStore {
    /// The file that a path below the store stands for. Paths that lead out of the store are refused.
    pub fn resolve_path(&self, rel_path: &str) -> (r: Result<String, MarkdownStoreError>)
        ensures
            match r {
                Ok(p) => path_error(rel_path@) is None && p@ == path_below(
                    self.base_dir@,
                    trimmed(rel_path@),
                ),
                Err(e) => e is PathTraversal && path_error(rel_path@) == Some(
                    e->PathTraversal_0@,
                ),
            },
    {
        let rel = trim_text(rel_path);
        if rel.as_str().is_empty() {
            return Err(MarkdownStoreError::PathTraversal("empty path".to_owned()));
        }
        if starts_with_text(rel.as_str(), "/") {
            return Err(
                MarkdownStoreError::PathTraversal("absolute paths not allowed".to_owned()),
            );
        }
        let parts = components_of(rel.as_str());
        let mut i: usize = 0;
        while i < parts.len()
            invariant
                i <= parts.len(),
                texts(parts@) == path_components(rel@),
                rel@ == trimmed(rel_path@),
                rel@.len() > 0,
                !starts_with(rel@, "/"@),
                forall|k: int| 0 <= k < i ==> parts@[k]@ != ".."@,
            decreases parts.len() - i,
        {
            if same_text(parts[i].as_str(), "..") {
                assert(texts(parts@)[i as int] == ".."@);
                return Err(
                    MarkdownStoreError::PathTraversal(
                        "path traversal (..) not allowed".to_owned(),
                    ),
                );
            }
            i += 1;
        }
        proof {
            assert forall|k: int| 0 <= k < texts(parts@).len() implies texts(parts@)[k] != ".."@ by {
                assert(parts@[k]@ != ".."@);
            }
        }
        Ok(join_path(self.base_dir.as_str(), rel.as_str()))
    }
}

/// A path that is accepted leads to a file below the store: the file's path begins with that of the
/// store and steps up nowhere behind it.
pub proof fn accepted_paths_stay_below(base: Seq<char>, rel_path: Seq<char>)
    requires
        path_error(rel_path) is None,
    ensures
        starts_with(path_below(base, trimmed(rel_path)), base),
        !path_components(trimmed(rel_path)).contains(".."@),
{
    let p = path_below(base, trimmed(rel_path));
    assert(p.subrange(0, base.len() as int) =~= base);
}

}
