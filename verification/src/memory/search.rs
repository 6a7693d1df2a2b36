//! The keyword index: which documents hold which terms, and the counts from which scores are computed.
use crate::memory::collation::ancestry::{holds_text, lemma_text_set_push, text_set};
use crate::text::chars::is_alnum;
use crate::text::compose::same_text;
use crate::text::split::{split_words, texts, words, words_hold_no_separator};
use crate::text::trim::{in_class, lowercase, to_lowercase, CharClass};
use vstd::prelude::*;

verus! {

broadcast use vstd::string::group_string_axioms;

/// The tokens of a text: its words in lower case.
pub open spec fn tokens_of(text: Seq<char>) -> Seq<Seq<char>> {
    words(lowercase(text), CharClass::NotAlphanumeric)
}

/// The tokens of a text.
pub fn tokenize(text: &str) -> (r: Vec<String>)
    ensures
        texts(r@) == tokens_of(text@),
{
    let lower = to_lowercase(text);
    split_words(lower.as_str(), CharClass::NotAlphanumeric)
}

/// A document of the index.
#[derive(Debug)]
pub struct Document {
    /// The entry that it belongs to.
    pub entry_id: String,
    /// Its tokens.
    pub tokens: Vec<String>,
}

/// The documents that hold a term.
#[derive(Debug)]
pub struct Posting {
    /// The term.
    pub term: String,
    /// The entries.
    pub ids: Vec<String>,
}

/// The documents by identifier.
pub open spec fn docs_map(docs: Seq<Document>) -> Map<Seq<char>, Seq<Seq<char>>>
    decreases docs.len(),
{
    if docs.len() == 0 {
        Map::empty()
    } else {
        docs_map(docs.drop_last()).insert(docs.last().entry_id@, texts(docs.last().tokens@))
    }
}

/// No two documents belong to the same entry.
pub open spec fn distinct_ids(docs: Seq<Document>) -> bool {
    forall|i: int, j: int|
        0 <= i < j < docs.len() ==> (#[trigger] docs[i]).entry_id@ != (
        #[trigger] docs[j]).entry_id@
}

/// How many tokens all documents hold together.
pub open spec fn token_sum(docs: Seq<Document>) -> nat
    decreases docs.len(),
{
    if docs.len() == 0 {
        0
    } else {
        token_sum(docs.drop_last()) + docs.last().tokens@.len()
    }
}

/// The documents that hold a term.
pub open spec fn holding(m: Map<Seq<char>, Seq<Seq<char>>>, term: Seq<char>) -> Set<Seq<char>> {
    Set::new(|id: Seq<char>| m.dom().contains(id) && m[id].contains(term))
}

/// The documents that hold a term, and one more document that holds the terms of `extra`.
pub open spec fn holding_with(
    m: Map<Seq<char>, Seq<Seq<char>>>,
    id: Seq<char>,
    extra: Set<Seq<char>>,
    term: Seq<char>,
) -> Set<Seq<char>> {
    if extra.contains(term) {
        holding(m, term).insert(id)
    } else {
        holding(m, term)
    }
}

/// The postings are those of the documents and of one more document that holds the terms of `extra`:
/// there is one for every term that some document holds, and for no other, and it lists each of these
/// documents once.
pub open spec fn postings_of(
    postings: Seq<Posting>,
    m: Map<Seq<char>, Seq<Seq<char>>>,
    id: Seq<char>,
    extra: Set<Seq<char>>,
) -> bool {
    &&& forall|i: int, j: int|
        0 <= i < j < postings.len() ==> (#[trigger] postings[i]).term@ != (
        #[trigger] postings[j]).term@
    &&& forall|i: int|
        0 <= i < postings.len() ==> {
            &&& texts((#[trigger] postings[i]).ids@).no_duplicates()
            &&& postings[i].ids@.len() > 0
            &&& text_set(postings[i].ids@) == holding_with(m, id, extra, postings[i].term@)
        }
    &&& forall|t: Seq<char>, x: Seq<char>| #[trigger]
        holding_with(m, id, extra, t).contains(x) ==> exists|i: int|
            0 <= i < postings.len() && (#[trigger] postings[i]).term@ == t
}

fn find_posting(postings: &Vec<Posting>, term: &str) -> (r: Option<usize>)
    ensures
        match r {
            Some(i) => i < postings@.len() && postings@[i as int].term@ == term@,
            None => forall|i: int|
                0 <= i < postings@.len() ==> (#[trigger] postings@[i]).term@ != term@,
        },
{
    let mut i: usize = 0;
    while i < postings.len()
        invariant
            i <= postings.len(),
            forall|k: int| 0 <= k < i ==> (#[trigger] postings@[k]).term@ != term@,
        decreases postings.len() - i,
    {
        if same_text(postings[i].term.as_str(), term) {
            return Some(i);
        }
        i += 1;
    }
    None
}

fn find_text_index(v: &Vec<String>, t: &str) -> (r: Option<usize>)
    ensures
        match r {
            Some(i) => i < v@.len() && v@[i as int]@ == t@,
            None => forall|i: int| 0 <= i < v@.len() ==> (#[trigger] v@[i])@ != t@,
        },
{
    let mut i: usize = 0;
    while i < v.len()
        invariant
            i <= v.len(),
            forall|k: int| 0 <= k < i ==> (#[trigger] v@[k])@ != t@,
        decreases v.len() - i,
    {
        if same_text(v[i].as_str(), t) {
            return Some(i);
        }
        i += 1;
    }
    None
}

/// Takes a text out of a list in which each stands once.
fn remove_text(v: &mut Vec<String>, t: &str)
    requires
        texts(old(v)@).no_duplicates(),
    ensures
        texts(final(v)@).no_duplicates(),
        text_set(final(v)@) == text_set(old(v)@).remove(t@),
{
    let ghost before = texts(v@);
    match find_text_index(v, t) {
        None => {
            assert(text_set(v@) =~= text_set(v@).remove(t@)) by {
                assert forall|x: Seq<char>| before.contains(x) implies x != t@ by {
                    let i = choose|i: int| 0 <= i < before.len() && before[i] == x;
                    assert(v@[i]@ == before[i]);
                }
            }
        },
        Some(k) => {
            proof {
                assert(before[k as int] == t@);
            }
            let _removed = v.remove(k);
            proof {
                let after = texts(v@);
                assert(after =~= before.remove(k as int));
                assert forall|i: int, j: int|
                    0 <= i < after.len() && 0 <= j < after.len() && i != j implies after[i]
                    != after[j] by {
                    let a: int = if i < k {
                        i
                    } else {
                        i + 1
                    };
                    let b: int = if j < k {
                        j
                    } else {
                        j + 1
                    };
                    assert(after[i] == before[a]);
                    assert(after[j] == before[b]);
                }
                assert forall|x: Seq<char>| after.contains(x) == (before.contains(x) && x != t@) by {
                    if after.contains(x) {
                        let i = choose|i: int| 0 <= i < after.len() && after[i] == x;
                        let a: int = if i < k {
                            i
                        } else {
                            i + 1
                        };
                        assert(before[a] == x);
                        assert(before[a] != before[k as int]);
                    }
                    if before.contains(x) && x != t@ {
                        let i = choose|i: int| 0 <= i < before.len() && before[i] == x;
                        if i < k {
                            assert(after[i] == x);
                        } else {
                            assert(after[i - 1] == x);
                        }
                    }
                }
                assert(text_set(v@) =~= before.to_set().remove(t@));
            }
        },
    }
}

/// Takes a document out of the posting of a term; a posting without documents is dropped.
fn drop_from_posting(
    postings: &mut Vec<Posting>,
    term: &str,
    id: &str,
    Ghost(m): Ghost<Map<Seq<char>, Seq<Seq<char>>>>,
    Ghost(extra): Ghost<Set<Seq<char>>>,
)
    requires
        postings_of(old(postings)@, m, id@, extra),
        !m.dom().contains(id@),
    ensures
        postings_of(final(postings)@, m, id@, extra.remove(term@)),
{
    let ghost before = postings@;
    let ghost less = extra.remove(term@);
    proof {
        assert forall|t: Seq<char>| t != term@ implies #[trigger] holding_with(m, id@, less, t)
            == holding_with(m, id@, extra, t) by {}
    }
    match find_posting(postings, term) {
        None => {
            proof {
                assert(!extra.contains(term@)) by {
                    if extra.contains(term@) {
                        assert(holding_with(m, id@, extra, term@).contains(id@));
                    }
                }
                assert(less =~= extra);
            }
        },
        Some(p) => {
            let mut post = postings.remove(p);
            let ghost ids = text_set(post.ids@);
            remove_text(&mut post.ids, id);
            proof {
                assert(post.term@ == term@);
                assert(text_set(post.ids@) =~= holding_with(m, id@, less, term@)) by {
                    assert(!holding(m, term@).contains(id@));
                }
            }
            let keep = post.ids.len() > 0;
            proof {
                let rest = postings@;
                assert(rest =~= before.remove(p as int));
                assert forall|i: int| 0 <= i < rest.len() implies {
                    &&& (#[trigger] rest[i]).term@ != term@
                    &&& texts(rest[i].ids@).no_duplicates()
                    &&& rest[i].ids@.len() > 0
                    &&& text_set(rest[i].ids@) == holding_with(m, id@, less, rest[i].term@)
                } by {
                    let a: int = if i < p {
                        i
                    } else {
                        i + 1
                    };
                    assert(rest[i] == before[a]);
                }
                assert forall|i: int, j: int| 0 <= i < j < rest.len() implies (
                #[trigger] rest[i]).term@ != (#[trigger] rest[j]).term@ by {
                    let a: int = if i < p {
                        i
                    } else {
                        i + 1
                    };
                    let b: int = if j < p {
                        j
                    } else {
                        j + 1
                    };
                    assert(rest[i] == before[a]);
                    assert(rest[j] == before[b]);
                }
                assert forall|t: Seq<char>, x: Seq<char>| #[trigger]
                    holding_with(m, id@, less, t).contains(x) && t != term@ implies exists|i: int|
                    0 <= i < rest.len() && (#[trigger] rest[i]).term@ == t by {
                    assert(holding_with(m, id@, extra, t).contains(x));
                    let a = choose|a: int|
                        0 <= a < before.len() && (#[trigger] before[a]).term@ == t;
                    let i: int = if a < p {
                        a
                    } else {
                        a - 1
                    };
                    assert(rest[i] == before[a]);
                }
            }
            if keep {
                let ghost rest = postings@;
                let ghost kept = post;
                postings.push(post);
                proof {
                    let after = postings@;
                    assert forall|t: Seq<char>, x: Seq<char>| #[trigger]
                        holding_with(m, id@, less, t).contains(x) implies exists|i: int|
                        0 <= i < after.len() && (#[trigger] after[i]).term@ == t by {
                        if t == term@ {
                            assert(after[rest.len() as int].term@ == t);
                        } else {
                            let i = choose|i: int|
                                0 <= i < rest.len() && (#[trigger] rest[i]).term@ == t;
                            assert(after[i] == rest[i]);
                        }
                    }
                }
            } else {
                proof {
                    assert(texts(post.ids@) =~= Seq::<Seq<char>>::empty());
                    assert forall|x: Seq<char>| !holding_with(m, id@, less, term@).contains(x) by {
                        assert(!text_set(post.ids@).contains(x));
                    }
                }
            }
        },
    }
}

/// Puts a document into the posting of a term, which is made where there is none.
fn add_to_posting(
    postings: &mut Vec<Posting>,
    term: &str,
    id: &str,
    Ghost(m): Ghost<Map<Seq<char>, Seq<Seq<char>>>>,
    Ghost(extra): Ghost<Set<Seq<char>>>,
)
    requires
        postings_of(old(postings)@, m, id@, extra),
        !m.dom().contains(id@),
    ensures
        postings_of(final(postings)@, m, id@, extra.insert(term@)),
{
    let ghost before = postings@;
    let ghost more = extra.insert(term@);
    proof {
        assert forall|t: Seq<char>| t != term@ implies #[trigger] holding_with(m, id@, more, t)
            == holding_with(m, id@, extra, t) by {}
    }
    let mut post = match find_posting(postings, term) {
        Some(p) => {
            let post = postings.remove(p);
            proof {
                let rest = postings@;
                assert(rest =~= before.remove(p as int));
                assert forall|i: int| 0 <= i < rest.len() implies {
                    &&& (#[trigger] rest[i]).term@ != term@
                    &&& texts(rest[i].ids@).no_duplicates()
                    &&& rest[i].ids@.len() > 0
                    &&& text_set(rest[i].ids@) == holding_with(m, id@, more, rest[i].term@)
                } by {
                    let a: int = if i < p {
                        i
                    } else {
                        i + 1
                    };
                    assert(rest[i] == before[a]);
                }
                assert forall|i: int, j: int| 0 <= i < j < rest.len() implies (
                #[trigger] rest[i]).term@ != (#[trigger] rest[j]).term@ by {
                    let a: int = if i < p {
                        i
                    } else {
                        i + 1
                    };
                    let b: int = if j < p {
                        j
                    } else {
                        j + 1
                    };
                    assert(rest[i] == before[a]);
                    assert(rest[j] == before[b]);
                }
                assert forall|t: Seq<char>, x: Seq<char>| #[trigger]
                    holding_with(m, id@, more, t).contains(x) && t != term@ implies exists|i: int|
                    0 <= i < rest.len() && (#[trigger] rest[i]).term@ == t by {
                    assert(holding_with(m, id@, extra, t).contains(x));
                    let a = choose|a: int|
                        0 <= a < before.len() && (#[trigger] before[a]).term@ == t;
                    let i: int = if a < p {
                        a
                    } else {
                        a - 1
                    };
                    assert(rest[i] == before[a]);
                }
            }
            post
        },
        None => {
            let ids: Vec<String> = Vec::new();
            let post = Posting { term: term.to_owned(), ids };
            proof {
                assert forall|x: Seq<char>| !holding_with(m, id@, extra, term@).contains(x) by {
                    if holding_with(m, id@, extra, term@).contains(x) {
                        let a = choose|a: int|
                            0 <= a < before.len() && (#[trigger] before[a]).term@ == term@;
                    }
                }
                assert(text_set(post.ids@) =~= holding_with(m, id@, extra, term@));
                assert forall|t: Seq<char>, x: Seq<char>| #[trigger]
                    holding_with(m, id@, more, t).contains(x) && t != term@ implies exists|i: int|
                    0 <= i < before.len() && (#[trigger] before[i]).term@ == t by {
                    assert(holding_with(m, id@, extra, t).contains(x));
                }
            }
            post
        },
    };
    let ghost rest = postings@;
    if !holds_text(&post.ids, id) {
        let s = id.to_owned();
        proof {
            lemma_text_set_push(post.ids@, s);
            let a = texts(post.ids@);
            crate::text::split::lemma_texts_push(post.ids@, s);
            assert forall|i: int, j: int|
                0 <= i < a.push(s@).len() && 0 <= j < a.push(s@).len() && i != j implies a.push(
                s@,
            )[i] != a.push(s@)[j] by {
                if i == a.len() {
                    assert(a.contains(a[j]));
                } else if j == a.len() {
                    assert(a.contains(a[i]));
                }
            }
        }
        post.ids.push(s);
    } else {
        proof {
            assert(text_set(post.ids@) =~= text_set(post.ids@).insert(id@));
            assert(post.ids@.len() > 0) by {
                assert(texts(post.ids@).contains(id@));
            }
        }
    }
    proof {
        assert(text_set(post.ids@) =~= holding_with(m, id@, more, term@));
    }
    postings.push(post);
    proof {
        let after = postings@;
        assert forall|t: Seq<char>, x: Seq<char>| #[trigger]
            holding_with(m, id@, more, t).contains(x) implies exists|i: int|
            0 <= i < after.len() && (#[trigger] after[i]).term@ == t by {
            if t == term@ {
                assert(after[rest.len() as int].term@ == t);
            } else {
                let i = choose|i: int| 0 <= i < rest.len() && (#[trigger] rest[i]).term@ == t;
                assert(after[i] == rest[i]);
            }
        }
    }
}

proof fn lemma_docs_dom(docs: Seq<Document>)
    ensures
        forall|id: Seq<char>| #[trigger]
            docs_map(docs).dom().contains(id) <==> exists|i: int|
                0 <= i < docs.len() && (#[trigger] docs[i]).entry_id@ == id,
    decreases docs.len(),
{
    if docs.len() > 0 {
        let t = docs.drop_last();
        lemma_docs_dom(t);
        assert forall|id: Seq<char>| #[trigger]
            docs_map(docs).dom().contains(id) <==> exists|i: int|
                0 <= i < docs.len() && (#[trigger] docs[i]).entry_id@ == id by {
            if docs_map(docs).dom().contains(id) {
                if docs.last().entry_id@ == id {
                    assert(docs[docs.len() - 1].entry_id@ == id);
                } else {
                    assert(docs_map(t).dom().contains(id));
                    let i = choose|i: int| 0 <= i < t.len() && (#[trigger] t[i]).entry_id@ == id;
                    assert(docs[i].entry_id@ == id);
                }
            }
            if exists|i: int| 0 <= i < docs.len() && (#[trigger] docs[i]).entry_id@ == id {
                let i = choose|i: int| 0 <= i < docs.len() && (#[trigger] docs[i]).entry_id@ == id;
                if i < t.len() {
                    assert(t[i].entry_id@ == id);
                    assert(docs_map(t).dom().contains(id));
                }
            }
        }
    }
}

proof fn lemma_docs_lookup(docs: Seq<Document>, k: int)
    requires
        distinct_ids(docs),
        0 <= k < docs.len(),
    ensures
        docs_map(docs).dom().contains(docs[k].entry_id@),
        docs_map(docs)[docs[k].entry_id@] == texts(docs[k].tokens@),
    decreases docs.len(),
{
    let t = docs.drop_last();
    if k < t.len() {
        assert(distinct_ids(t));
        lemma_docs_lookup(t, k);
        assert(t[k] == docs[k]);
    }
}

proof fn lemma_docs_remove(docs: Seq<Document>, k: int)
    requires
        distinct_ids(docs),
        0 <= k < docs.len(),
    ensures
        docs_map(docs.remove(k)) == docs_map(docs).remove(docs[k].entry_id@),
        distinct_ids(docs.remove(k)),
        token_sum(docs.remove(k)) + docs[k].tokens@.len() == token_sum(docs),
    decreases docs.len(),
{
    let t = docs.drop_last();
    let id = docs[k].entry_id@;
    let r = docs.remove(k);
    assert forall|i: int, j: int| 0 <= i < j < r.len() implies (#[trigger] r[i]).entry_id@ != (
    #[trigger] r[j]).entry_id@ by {
        let a: int = if i < k {
            i
        } else {
            i + 1
        };
        let b: int = if j < k {
            j
        } else {
            j + 1
        };
        assert(r[i] == docs[a]);
        assert(r[j] == docs[b]);
    }
    assert(distinct_ids(t));
    if k == t.len() {
        assert(r =~= t);
        lemma_docs_dom(t);
        assert(!docs_map(t).dom().contains(id)) by {
            if docs_map(t).dom().contains(id) {
                let i = choose|i: int| 0 <= i < t.len() && (#[trigger] t[i]).entry_id@ == id;
                assert(docs[i].entry_id@ == docs[k].entry_id@);
            }
        }
        assert(docs_map(docs).remove(id) =~= docs_map(t));
    } else {
        lemma_docs_remove(t, k);
        assert(t[k] == docs[k]);
        assert(r.drop_last() =~= t.remove(k));
        assert(r.last() == docs.last());
        assert(docs[docs.len() - 1].entry_id@ != id);
        assert(docs_map(r) =~= docs_map(docs).remove(id));
    }
}

/// The keyword index.
#[derive(Debug)]
pub struct Bm25Index {
    /// The documents.
    pub documents: Vec<Document>,
    /// The documents by term.
    pub doc_freq: Vec<Posting>,
    /// How many tokens all documents hold together.
    pub total_tokens: usize,
}

/// The counts for one document that holds a query term.
#[derive(Debug)]
pub struct TermHit {
    /// The entry of the document.
    pub entry_id: String,
    /// How often the term stands in the document.
    pub term_count: usize,
    /// How many tokens the document has.
    pub doc_len: usize,
}

/// The counts for one query term.
#[derive(Debug)]
pub struct TermHits {
    /// How many documents hold the term.
    pub doc_count: usize,
    /// The documents that hold it.
    pub hits: Vec<TermHit>,
}

/// The counts for one document, as plain values.
pub struct TermHitView {
    pub entry_id: Seq<char>,
    pub term_count: nat,
    pub doc_len: nat,
}

impl View for TermHit {
    type V = TermHitView;

    open spec fn view(&self) -> TermHitView {
        TermHitView {
            entry_id: self.entry_id@,
            term_count: self.term_count as nat,
            doc_len: self.doc_len as nat,
        }
    }
}

/// The counts for documents, as plain values.
pub open spec fn hits_view(v: Seq<TermHit>) -> Seq<TermHitView> {
    Seq::new(v.len(), |i: int| v[i]@)
}

/// How often a term stands among tokens.
pub open spec fn occurrences_in(tokens: Seq<Seq<char>>, term: Seq<char>) -> nat
    decreases tokens.len(),
{
    if tokens.len() == 0 {
        0
    } else {
        occurrences_in(tokens.drop_last(), term) + if tokens.last() == term {
            1nat
        } else {
            0
        }
    }
}

/// The counts for the documents that hold a term, in the order of the documents.
spec fn hits_for(docs: Seq<Document>, term: Seq<char>) -> Seq<TermHitView>
    decreases docs.len(),
{
    if docs.len() == 0 {
        Seq::empty()
    } else {
        let h = hits_for(docs.drop_last(), term);
        let tokens = texts(docs.last().tokens@);
        let n = occurrences_in(tokens, term);
        if n > 0 {
            h.push(
                TermHitView {
                    entry_id: docs.last().entry_id@,
                    term_count: n,
                    doc_len: tokens.len(),
                },
            )
        } else {
            h
        }
    }
}

/// The counts for the documents that hold a term, in any order.
pub open spec fn term_hits(m: Map<Seq<char>, Seq<Seq<char>>>, term: Seq<char>) -> Set<TermHitView> {
    Set::new(
        |h: TermHitView|
            {
                &&& m.dom().contains(h.entry_id)
                &&& h.term_count == occurrences_in(m[h.entry_id], term)
                &&& h.doc_len == m[h.entry_id].len()
                &&& h.term_count > 0
            },
    )
}

/// The terms that some document holds.
pub open spec fn known_terms(
    m: Map<Seq<char>, Seq<Seq<char>>>,
    terms: Seq<Seq<char>>,
) -> Seq<Seq<char>> {
    terms.filter(|t: Seq<char>| holding(m, t).len() > 0)
}

impl Default for Bm25Index {
    fn default() -> (r: Bm25Index)
        ensures
            r.wf(),
            r.model() == Map::<Seq<char>, Seq<Seq<char>>>::empty(),
    {
        Bm25Index::new()
    }
}

impl Bm25Index {
    /// The documents by identifier. The postings and the number of tokens follow from it.
    pub open spec fn model(&self) -> Map<Seq<char>, Seq<Seq<char>>> {
        docs_map(self.documents@)
    }

    /// Every entry has one document at most, the postings are those of the documents, and the tokens are
    /// counted.
    pub open spec fn wf(&self) -> bool {
        &&& distinct_ids(self.documents@)
        &&& postings_of(self.doc_freq@, self.model(), Seq::empty(), Set::empty())
        &&& self.total_tokens == token_sum(self.documents@)
    }

    /// How many tokens the document of an entry has.
    pub open spec fn doc_len(&self, id: Seq<char>) -> nat {
        if self.model().dom().contains(id) {
            self.model()[id].len()
        } else {
            0
        }
    }

    /// The tokens can still be counted with the text in place of the document of an entry.
    pub open spec fn has_room(&self, id: Seq<char>, text: Seq<char>) -> bool {
        self.total_tokens - self.doc_len(id) + tokens_of(text).len() <= usize::MAX
    }

    /// An index without documents.
    pub fn new() -> (r: Bm25Index)
        ensures
            r.wf(),
            r.model() == Map::<Seq<char>, Seq<Seq<char>>>::empty(),
    {
        Bm25Index { documents: Vec::new(), doc_freq: Vec::new(), total_tokens: 0 }
    }

    fn find_document(&self, entry_id: &str) -> (r: Option<usize>)
        ensures
            match r {
                Some(i) => i < self.documents@.len() && self.documents@[i as int].entry_id@
                    == entry_id@,
                None => !self.model().dom().contains(entry_id@),
            },
    {
        let mut i: usize = 0;
        while i < self.documents.len()
            invariant
                i <= self.documents.len(),
                forall|k: int|
                    0 <= k < i ==> (#[trigger] self.documents@[k]).entry_id@ != entry_id@,
            decreases self.documents.len() - i,
        {
            if same_text(self.documents[i].entry_id.as_str(), entry_id) {
                return Some(i);
            }
            i += 1;
        }
        proof {
            lemma_docs_dom(self.documents@);
        }
        None
    }

    /// Takes the document of an entry out of the index, if there is one.
    pub fn remove_document(&mut self, entry_id: &str)
        requires
            old(self).wf(),
        ensures
            final(self).wf(),
            final(self).model() == old(self).model().remove(entry_id@),
            final(self).total_tokens + old(self).doc_len(entry_id@) == old(self).total_tokens,
            !old(self).model().dom().contains(entry_id@) ==> *final(self) == *old(self),
    {
        let ghost before = self.model();
        match self.find_document(entry_id) {
            None => {
                assert(before.remove(entry_id@) =~= before);
            },
            Some(k) => {
                let ghost docs = self.documents@;
                proof {
                    lemma_docs_remove(docs, k as int);
                    lemma_docs_lookup(docs, k as int);
                }
                let doc = self.documents.remove(k);
                let ghost m = before.remove(entry_id@);
                let ghost tokens = texts(doc.tokens@);
                let ghost all = tokens.to_set();
                proof {
                    assert(self.documents@ =~= docs.remove(k as int));
                    assert(self.model() == m);
                    assert(before[entry_id@] == tokens);
                    assert forall|t: Seq<char>| #[trigger]
                        holding_with(m, entry_id@, all, t) =~= holding_with(
                            before,
                            Seq::empty(),
                            Set::empty(),
                            t,
                        ) by {}
                    assert forall|t: Seq<char>, x: Seq<char>| #[trigger]
                        holding_with(m, entry_id@, all, t).contains(x) implies exists|i: int|
                        0 <= i < self.doc_freq@.len() && (#[trigger] self.doc_freq@[i]).term@
                            == t by {
                        assert(holding_with(before, Seq::empty(), Set::empty(), t).contains(x));
                    }
                    assert(postings_of(self.doc_freq@, m, entry_id@, all));
                }
                self.total_tokens = self.total_tokens - doc.tokens.len();
                let ghost mut left = all;
                let mut i: usize = 0;
                proof {
                    assert(tokens.skip(0) =~= tokens);
                }
                while i < doc.tokens.len()
                    invariant
                        i <= doc.tokens.len(),
                        tokens == texts(doc.tokens@),
                        !m.dom().contains(entry_id@),
                        self.documents@ == docs.remove(k as int),
                        self.total_tokens + doc.tokens@.len() == old(self).total_tokens,
                        postings_of(self.doc_freq@, m, entry_id@, left),
                        forall|t: Seq<char>| #[trigger]
                            left.contains(t) ==> tokens.skip(i as int).contains(t),
                    decreases doc.tokens.len() - i,
                {
                    drop_from_posting(
                        &mut self.doc_freq,
                        doc.tokens[i].as_str(),
                        entry_id,
                        Ghost(m),
                        Ghost(left),
                    );
                    proof {
                        let gone = tokens[i as int];
                        assert(gone == doc.tokens@[i as int]@);
                        let next = left.remove(gone);
                        assert forall|t: Seq<char>| #[trigger]
                            next.contains(t) implies tokens.skip(i + 1).contains(t) by {
                            assert(left.contains(t));
                            let s = tokens.skip(i as int);
                            let j = choose|j: int| 0 <= j < s.len() && s[j] == t;
                            assert(s[0] == gone);
                            assert(tokens.skip(i + 1)[j - 1] == t);
                        }
                        left = next;
                    }
                    i += 1;
                }
                proof {
                    assert(left =~= Set::<Seq<char>>::empty()) by {
                        assert forall|t: Seq<char>| !left.contains(t) by {
                            if left.contains(t) {
                                assert(tokens.skip(i as int).contains(t));
                            }
                        }
                    }
                    lemma_no_extra(self.doc_freq@, m, entry_id@);
                }
            },
        }
    }

    /// Puts the document of an entry into the index; one that was there before is replaced.
    pub fn add_document(&mut self, entry_id: &str, text: &str)
        requires
            old(self).wf(),
            old(self).has_room(entry_id@, text@),
        ensures
            final(self).wf(),
            final(self).model() == old(self).model().insert(entry_id@, tokens_of(text@)),
    {
        let ghost original = self.model();
        self.remove_document(entry_id);
        let ghost m = self.model();
        let ghost docs = self.documents@;
        let tokens = tokenize(text);
        let ghost t = texts(tokens@);
        assert(t.len() == tokens@.len());
        self.total_tokens = self.total_tokens + tokens.len();
        let ghost mut extra = Set::<Seq<char>>::empty();
        let mut i: usize = 0;
        proof {
            lemma_no_extra_back(self.doc_freq@, m, entry_id@);
            assert(t.take(0).to_set() =~= extra);
        }
        while i < tokens.len()
            invariant
                i <= tokens.len(),
                t == texts(tokens@),
                self.documents@ == docs,
                self.total_tokens == token_sum(docs) + tokens@.len(),
                !m.dom().contains(entry_id@),
                extra == t.take(i as int).to_set(),
                postings_of(self.doc_freq@, m, entry_id@, extra),
            decreases tokens.len() - i,
        {
            add_to_posting(
                &mut self.doc_freq,
                tokens[i].as_str(),
                entry_id,
                Ghost(m),
                Ghost(extra),
            );
            proof {
                assert(t[i as int] == tokens@[i as int]@);
                assert(t.take(i + 1) =~= t.take(i as int).push(t[i as int]));
                crate::memory::collation::refine::lemma_set_of_push(
                    t.take(i as int),
                    t[i as int],
                );
                extra = extra.insert(t[i as int]);
            }
            i += 1;
        }
        let ghost posts = self.doc_freq@;
        let doc = Document { entry_id: entry_id.to_owned(), tokens };
        self.documents.push(doc);
        proof {
            assert(self.doc_freq@ == posts);
            assert(postings_of(posts, m, entry_id@, extra));
            assert(t.take(i as int) =~= t);
            assert(self.documents@.drop_last() =~= docs);
            let after = self.model();
            assert(after == m.insert(entry_id@, t));
            assert(after =~= original.insert(entry_id@, t));
            lemma_docs_dom(docs);
            assert forall|a: int, b: int| 0 <= a < b < self.documents@.len() implies (
            #[trigger] self.documents@[a]).entry_id@ != (#[trigger] self.documents@[b]).entry_id@ by {
                if b < docs.len() {
                    assert(docs[a].entry_id@ != docs[b].entry_id@);
                } else {
                    assert(docs[a].entry_id@ == self.documents@[a].entry_id@);
                    assert(m.dom().contains(docs[a].entry_id@));
                }
            }
            assert forall|x: Seq<char>| #[trigger]
                holding_with(m, entry_id@, extra, x) =~= holding_with(
                    after,
                    Seq::empty(),
                    Set::empty(),
                    x,
                ) by {
                assert(extra.contains(x) == t.contains(x));
            }
            assert forall|x: Seq<char>, y: Seq<char>| #[trigger]
                holding_with(after, Seq::empty(), Set::empty(), x).contains(y) implies exists|
                j: int,
            | 0 <= j < self.doc_freq@.len() && (#[trigger] self.doc_freq@[j]).term@ == x by {
                assert(holding_with(m, entry_id@, extra, x) =~= holding_with(
                    after,
                    Seq::empty(),
                    Set::empty(),
                    x,
                ));
                assert(holding_with(m, entry_id@, extra, x).contains(y));
                let j = choose|j: int| 0 <= j < posts.len() && (#[trigger] posts[j]).term@ == x;
                assert(self.doc_freq@[j].term@ == x);
            }
        }
    }

    /// How many documents there are.
    pub fn len(&self) -> (r: usize)
        requires
            self.wf(),
        ensures
            r == self.model().dom().len(),
    {
        proof {
            lemma_docs_count(self.documents@);
        }
        self.documents.len()
    }

    /// Whether there are no documents.
    pub fn is_empty(&self) -> (r: bool)
        requires
            self.wf(),
        ensures
            r == (self.model().dom().len() == 0),
    {
        self.len() == 0
    }

    /// How many documents hold a term.
    pub fn document_frequency(&self, term: &str) -> (r: usize)
        requires
            self.wf(),
        ensures
            r == holding(self.model(), term@).len(),
    {
        match find_posting(&self.doc_freq, term) {
            Some(p) => {
                proof {
                    let ids = texts(self.doc_freq@[p as int].ids@);
                    ids.unique_seq_to_set();
                    assert(holding_with(self.model(), Seq::empty(), Set::empty(), term@) =~= holding(
                        self.model(),
                        term@,
                    ));
                }
                self.doc_freq[p].ids.len()
            },
            None => {
                proof {
                    let h = holding(self.model(), term@);
                    assert forall|x: Seq<char>| !h.contains(x) by {
                        if h.contains(x) {
                            assert(holding_with(
                                self.model(),
                                Seq::empty(),
                                Set::empty(),
                                term@,
                            ).contains(x));
                        }
                    }
                    assert(h =~= Set::<Seq<char>>::empty());
                }
                0
            },
        }
    }
}

proof fn lemma_docs_count(docs: Seq<Document>)
    requires
        distinct_ids(docs),
    ensures
        docs_map(docs).dom().finite(),
        docs_map(docs).dom().len() == docs.len(),
    decreases docs.len(),
{
    if docs.len() > 0 {
        let t = docs.drop_last();
        assert(distinct_ids(t));
        lemma_docs_count(t);
        lemma_docs_dom(t);
        assert(!docs_map(t).dom().contains(docs.last().entry_id@)) by {
            if docs_map(t).dom().contains(docs.last().entry_id@) {
                let i = choose|i: int|
                    0 <= i < t.len() && (#[trigger] t[i]).entry_id@ == docs.last().entry_id@;
                assert(docs[i].entry_id@ == docs[docs.len() - 1].entry_id@);
            }
        }
    }
}

proof fn lemma_no_extra(
    postings: Seq<Posting>,
    m: Map<Seq<char>, Seq<Seq<char>>>,
    id: Seq<char>,
)
    requires
        postings_of(postings, m, id, Set::empty()),
    ensures
        postings_of(postings, m, Seq::empty(), Set::empty()),
{
    assert forall|t: Seq<char>| #[trigger] holding_with(m, Seq::empty(), Set::empty(), t)
        == holding_with(m, id, Set::empty(), t) by {}
    assert forall|t: Seq<char>, x: Seq<char>| #[trigger]
        holding_with(m, Seq::empty(), Set::empty(), t).contains(x) implies exists|i: int|
        0 <= i < postings.len() && (#[trigger] postings[i]).term@ == t by {
        assert(holding_with(m, id, Set::empty(), t).contains(x));
    }
}

proof fn lemma_no_extra_back(
    postings: Seq<Posting>,
    m: Map<Seq<char>, Seq<Seq<char>>>,
    id: Seq<char>,
)
    requires
        postings_of(postings, m, Seq::empty(), Set::empty()),
    ensures
        postings_of(postings, m, id, Set::empty()),
{
    assert forall|t: Seq<char>| #[trigger] holding_with(m, id, Set::empty(), t) == holding_with(
        m,
        Seq::empty(),
        Set::empty(),
        t,
    ) by {}
    assert forall|t: Seq<char>, x: Seq<char>| #[trigger]
        holding_with(m, id, Set::empty(), t).contains(x) implies exists|i: int|
        0 <= i < postings.len() && (#[trigger] postings[i]).term@ == t by {
        assert(holding_with(m, Seq::empty(), Set::empty(), t).contains(x));
    }
}

fn count_in(tokens: &Vec<String>, term: &str) -> (r: usize)
    ensures
        r == occurrences_in(texts(tokens@), term@),
        r <= tokens@.len(),
{
    let ghost t = texts(tokens@);
    let mut n: usize = 0;
    let mut i: usize = 0;
    proof {
        assert(t.take(0) =~= Seq::<Seq<char>>::empty());
    }
    while i < tokens.len()
        invariant
            i <= tokens.len(),
            n <= i,
            t == texts(tokens@),
            n == occurrences_in(t.take(i as int), term@),
        decreases tokens.len() - i,
    {
        proof {
            assert(t.take(i + 1).drop_last() =~= t.take(i as int));
            assert(t.take(i + 1).last() == tokens@[i as int]@);
        }
        if same_text(tokens[i].as_str(), term) {
            n += 1;
        }
        i += 1;
    }
    proof {
        assert(t.take(i as int) =~= t);
    }
    n
}

/// `h` holds the counts for a term: each document that holds it is listed once, in any order.
pub open spec fn counts_term(
    h: TermHits,
    m: Map<Seq<char>, Seq<Seq<char>>>,
    term: Seq<char>,
) -> bool {
    &&& h.doc_count == holding(m, term).len()
    &&& hits_view(h.hits@).no_duplicates()
    &&& hits_view(h.hits@).to_set() == term_hits(m, term)
}

/// `r` holds the counts for the terms of a query that some document holds, in the order of the query.
pub open spec fn are_counts(
    r: Seq<TermHits>,
    m: Map<Seq<char>, Seq<Seq<char>>>,
    query: Seq<char>,
) -> bool {
    let terms = known_terms(m, tokens_of(query));
    &&& r.len() == terms.len()
    &&& forall|i: int| 0 <= i < r.len() ==> counts_term(#[trigger] r[i], m, terms[i])
}

proof fn lemma_hits_of_docs(docs: Seq<Document>, term: Seq<char>)
    requires
        distinct_ids(docs),
    ensures
        hits_for(docs, term).no_duplicates(),
        forall|h: TermHitView| #[trigger]
            hits_for(docs, term).contains(h) <==> term_hits(docs_map(docs), term).contains(h),
    decreases docs.len(),
{
    if docs.len() > 0 {
        let t = docs.drop_last();
        let d = docs.last();
        let id = d.entry_id@;
        let m = docs_map(t);
        let before = hits_for(t, term);
        let all = hits_for(docs, term);
        assert(distinct_ids(t));
        lemma_hits_of_docs(t, term);
        lemma_docs_dom(t);
        assert(!m.dom().contains(id)) by {
            if m.dom().contains(id) {
                let i = choose|i: int| 0 <= i < t.len() && (#[trigger] t[i]).entry_id@ == id;
                assert(docs[i].entry_id@ == docs[docs.len() - 1].entry_id@);
            }
        }
        let tokens = texts(d.tokens@);
        let new = TermHitView {
            entry_id: id,
            term_count: occurrences_in(tokens, term),
            doc_len: tokens.len(),
        };
        assert(docs_map(docs) == m.insert(id, tokens));
        assert(!before.contains(new));
        assert forall|h: TermHitView| #[trigger]
            all.contains(h) <==> term_hits(docs_map(docs), term).contains(h) by {
            if before.contains(h) {
                let k = choose|k: int| 0 <= k < before.len() && before[k] == h;
                assert(all[k] == h);
                assert(h.entry_id != id);
            }
            if all.contains(h) {
                let k = choose|k: int| 0 <= k < all.len() && all[k] == h;
                if k < before.len() {
                    assert(before[k] == h);
                }
            }
            if new.term_count > 0 {
                assert(all[before.len() as int] == new);
            }
        }
    } else {
        assert forall|h: TermHitView| #[trigger]
            hits_for(docs, term).contains(h) <==> term_hits(docs_map(docs), term).contains(h) by {}
    }
}

impl Bm25Index {
    /// Brings the document of an entry up to date; an empty text takes it out.
    pub fn bm25_update(&mut self, entry_id: &str, text: &str)
        requires
            old(self).wf(),
            text@.len() > 0 ==> old(self).has_room(entry_id@, text@),
        ensures
            final(self).wf(),
            final(self).model() == if text@.len() == 0 {
                old(self).model().remove(entry_id@)
            } else {
                old(self).model().insert(entry_id@, tokens_of(text@))
            },
    {
        if text.is_empty() {
            self.remove_document(entry_id);
        } else {
            self.add_document(entry_id, text);
        }
    }

    /// Whether the tokens can still be counted with the text in place of the document of an entry.
    pub fn has_room_for(&self, entry_id: &str, text: &str) -> (r: bool)
        requires
            self.wf(),
        ensures
            r == self.has_room(entry_id@, text@),
    {
        let tokens = tokenize(text);
        let old_len: usize = match self.find_document(entry_id) {
            Some(k) => {
                proof {
                    lemma_docs_lookup(self.documents@, k as int);
                    lemma_docs_remove(self.documents@, k as int);
                }
                self.documents[k].tokens.len()
            },
            None => 0,
        };
        proof {
            assert(texts(tokens@).len() == tokens@.len());
        }
        tokens.len() <= usize::MAX - (self.total_tokens - old_len)
    }

    /// Brings the document of an entry up to date, where the tokens can still be counted, and says
    /// whether it did; otherwise the index stays as it is.
    pub fn bm25_update_if_room(&mut self, entry_id: &str, text: &str) -> (r: bool)
        requires
            old(self).wf(),
        ensures
            final(self).wf(),
            r == (text@.len() == 0 || old(self).has_room(entry_id@, text@)),
            r ==> final(self).model() == if text@.len() == 0 {
                old(self).model().remove(entry_id@)
            } else {
                old(self).model().insert(entry_id@, tokens_of(text@))
            },
            !r ==> *final(self) == *old(self),
    {
        if !text.is_empty() && !self.has_room_for(entry_id, text) {
            return false;
        }
        self.bm25_update(entry_id, text);
        true
    }

    fn hits_of(&self, term: &str) -> (r: Vec<TermHit>)
        requires
            self.wf(),
        ensures
            hits_view(r@).no_duplicates(),
            hits_view(r@).to_set() == term_hits(self.model(), term@),
    {
        let ghost docs = self.documents@;
        let mut out: Vec<TermHit> = Vec::new();
        let mut i: usize = 0;
        proof {
            assert(hits_view(out@) =~= hits_for(docs.take(0), term@));
        }
        while i < self.documents.len()
            invariant
                i <= self.documents.len(),
                docs == self.documents@,
                hits_view(out@) == hits_for(docs.take(i as int), term@),
            decreases self.documents.len() - i,
        {
            let doc = &self.documents[i];
            proof {
                assert(docs.take(i + 1).drop_last() =~= docs.take(i as int));
                assert(docs.take(i + 1).last() == *doc);
            }
            let n = count_in(&doc.tokens, term);
            if n > 0 {
                let h = TermHit {
                    entry_id: doc.entry_id.clone(),
                    term_count: n,
                    doc_len: doc.tokens.len(),
                };
                proof {
                    assert(hits_view(out@.push(h)) =~= hits_view(out@).push(h@));
                }
                out.push(h);
            }
            i += 1;
        }
        proof {
            assert(docs.take(i as int) =~= docs);
            lemma_hits_of_docs(docs, term@);
            assert(hits_view(out@).to_set() =~= term_hits(self.model(), term@));
        }
        out
    }

    /// The counts for the terms of a query that some document holds, in the order of the query. From
    /// them and from the number and length of the documents the scores are computed.
    pub fn search(&self, query: &str) -> (r: Vec<TermHits>)
        requires
            self.wf(),
        ensures
            are_counts(r@, self.model(), query@),
    {
        let tokens = tokenize(query);
        let ghost t = texts(tokens@);
        let ghost m = self.model();
        let ghost pred = |x: Seq<char>| holding(m, x).len() > 0;
        let mut out: Vec<TermHits> = Vec::new();
        let mut i: usize = 0;
        proof {
            reveal(Seq::filter);
        }
        while i < tokens.len()
            invariant
                i <= tokens.len(),
                self.wf(),
                t == texts(tokens@),
                m == self.model(),
                pred == (|x: Seq<char>| holding(m, x).len() > 0),
                out@.len() == t.take(i as int).filter(pred).len(),
                forall|k: int|
                    0 <= k < out@.len() ==> counts_term(
                        #[trigger] out@[k],
                        m,
                        t.take(i as int).filter(pred)[k],
                    ),
            decreases tokens.len() - i,
        {
            proof {
                reveal(Seq::filter);
                assert(t.take(i + 1).drop_last() =~= t.take(i as int));
                assert(t.take(i + 1).last() == tokens@[i as int]@);
            }
            let term = tokens[i].as_str();
            let doc_count = self.document_frequency(term);
            if doc_count > 0 {
                let hits = self.hits_of(term);
                out.push(TermHits { doc_count, hits });
            }
            i += 1;
        }
        proof {
            assert(t.take(i as int) =~= t);
        }
        out
    }
}

/// A term that no document holds is found nowhere; putting a document in makes its terms known, and
/// taking it out again leaves the index as it was.
pub proof fn adding_then_removing_restores(
    m: Map<Seq<char>, Seq<Seq<char>>>,
    id: Seq<char>,
    tokens: Seq<Seq<char>>,
    term: Seq<char>,
)
    requires
        !m.dom().contains(id),
    ensures
        m.insert(id, tokens).remove(id) == m,
        holding(m.insert(id, tokens), term).contains(id) <==> tokens.contains(term),
        forall|x: Seq<char>|
            x != id ==> (#[trigger] holding(m.insert(id, tokens), term).contains(x) <==> holding(
                m,
                term,
            ).contains(x)),
{
    assert(m.insert(id, tokens).remove(id) =~= m);
}

/// The two results hold the same counts: term for term the same documents with the same numbers.
pub open spec fn same_counts(a: Seq<TermHits>, b: Seq<TermHits>) -> bool {
    &&& a.len() == b.len()
    &&& forall|i: int|
        0 <= i < a.len() ==> (#[trigger] a[i]).doc_count == b[i].doc_count && hits_view(
            a[i].hits@,
        ).to_set() == hits_view(b[i].hits@).to_set() && a[i].hits@.len() == b[i].hits@.len()
}

proof fn lemma_same_totals(a: Seq<Document>, b: Seq<Document>)
    requires
        distinct_ids(a),
        distinct_ids(b),
        docs_map(a) == docs_map(b),
    ensures
        token_sum(a) == token_sum(b),
        a.len() == b.len(),
    decreases a.len(),
{
    lemma_docs_count(a);
    lemma_docs_count(b);
    if a.len() > 0 {
        let n = a.len() - 1;
        let id = a[n].entry_id@;
        lemma_docs_lookup(a, n);
        lemma_docs_dom(b);
        let k = choose|k: int| 0 <= k < b.len() && (#[trigger] b[k]).entry_id@ == id;
        lemma_docs_lookup(b, k);
        lemma_docs_remove(a, n);
        lemma_docs_remove(b, k);
        lemma_same_totals(a.remove(n), b.remove(k));
        assert(texts(a[n].tokens@).len() == a[n].tokens@.len());
        assert(texts(b[k].tokens@).len() == b[k].tokens@.len());
    } else {
        assert(a =~= b);
    }
}

/// What a search gives depends on the documents alone: indexes of the same documents give the same
/// counts, and count as many documents and tokens.
pub proof fn equal_documents_give_equal_counts(
    a: Bm25Index,
    b: Bm25Index,
    query: Seq<char>,
    found_in_a: Seq<TermHits>,
    found_in_b: Seq<TermHits>,
)
    requires
        a.wf(),
        b.wf(),
        a.model() == b.model(),
        are_counts(found_in_a, a.model(), query),
        are_counts(found_in_b, b.model(), query),
    ensures
        same_counts(found_in_a, found_in_b),
        a.total_tokens == b.total_tokens,
        a.documents@.len() == b.documents@.len(),
{
    lemma_same_totals(a.documents@, b.documents@);
    let terms = known_terms(a.model(), tokens_of(query));
    assert forall|i: int| 0 <= i < found_in_a.len() implies (#[trigger] found_in_a[i]).doc_count
        == found_in_b[i].doc_count && hits_view(found_in_a[i].hits@).to_set() == hits_view(
        found_in_b[i].hits@,
    ).to_set() && found_in_a[i].hits@.len() == found_in_b[i].hits@.len() by {
        assert(counts_term(found_in_a[i], a.model(), terms[i]));
        assert(counts_term(found_in_b[i], b.model(), terms[i]));
        hits_view(found_in_a[i].hits@).unique_seq_to_set();
        hits_view(found_in_b[i].hits@).unique_seq_to_set();
    }
}

/// Adding the document of an entry a second time changes nothing that a search gives.
pub proof fn adding_again_changes_no_result(
    once: Bm25Index,
    twice: Bm25Index,
    before: Map<Seq<char>, Seq<Seq<char>>>,
    id: Seq<char>,
    text: Seq<char>,
    query: Seq<char>,
    found_once: Seq<TermHits>,
    found_twice: Seq<TermHits>,
)
    requires
        once.wf(),
        twice.wf(),
        once.model() == before.insert(id, tokens_of(text)),
        twice.model() == once.model().insert(id, tokens_of(text)),
        are_counts(found_once, once.model(), query),
        are_counts(found_twice, twice.model(), query),
    ensures
        once.model()[id] == tokens_of(text),
        twice.model() == once.model(),
        same_counts(found_once, found_twice),
        twice.total_tokens == once.total_tokens,
        twice.documents@.len() == once.documents@.len(),
{
    assert(twice.model() =~= once.model());
    equal_documents_give_equal_counts(once, twice, query, found_once, found_twice);
}

/// Removing a document that was newly added restores everything that a search gives.
pub proof fn removing_restores_results(
    before: Bm25Index,
    after: Bm25Index,
    id: Seq<char>,
    text: Seq<char>,
    query: Seq<char>,
    found_before: Seq<TermHits>,
    found_after: Seq<TermHits>,
)
    requires
        before.wf(),
        after.wf(),
        !before.model().dom().contains(id),
        after.model() == before.model().insert(id, tokens_of(text)).remove(id),
        are_counts(found_before, before.model(), query),
        are_counts(found_after, after.model(), query),
    ensures
        after.model() == before.model(),
        before.model().remove(id) == before.model(),
        same_counts(found_before, found_after),
        after.total_tokens == before.total_tokens,
        after.documents@.len() == before.documents@.len(),
{
    assert(after.model() =~= before.model());
    assert(before.model().remove(id) =~= before.model());
    equal_documents_give_equal_counts(before, after, query, found_before, found_after);
}

/// How many of the tokens are the term.
pub open spec fn times_among(tokens: Seq<Seq<char>>, term: Seq<char>) -> nat {
    tokens.filter(|t: Seq<char>| t == term).len()
}

/// A term is counted as often as it stands among the tokens.
pub proof fn terms_are_counted(tokens: Seq<Seq<char>>, term: Seq<char>)
    ensures
        occurrences_in(tokens, term) == times_among(tokens, term),
        (occurrences_in(tokens, term) > 0) == tokens.contains(term),
    decreases tokens.len(),
{
    reveal(Seq::filter);
    if tokens.len() > 0 {
        let t = tokens.drop_last();
        terms_are_counted(t, term);
        if t.contains(term) {
            let k = choose|k: int| 0 <= k < t.len() && t[k] == term;
            assert(tokens[k] == term);
        }
        if tokens.contains(term) {
            let k = choose|k: int| 0 <= k < tokens.len() && tokens[k] == term;
            if k < t.len() {
                assert(t[k] == term);
            }
        }
        assert(tokens[tokens.len() - 1] == tokens.last());
    }
}

/// A search counts a document for a term of the query just when the document holds the term: as often as it
/// stands there, and with the length of the document.
pub proof fn searches_count_the_documents_with_the_term(
    r: Seq<TermHits>,
    m: Map<Seq<char>, Seq<Seq<char>>>,
    query: Seq<char>,
    i: int,
    k: int,
)
    requires
        are_counts(r, m, query),
        0 <= i < r.len(),
        0 <= k < r[i].hits@.len(),
    ensures
        exists|term: Seq<char>| #[trigger]
            tokens_of(query).contains(term) && ({
                let h = r[i].hits@[k];
                &&& m.dom().contains(h.entry_id@)
                &&& m[h.entry_id@].contains(term)
                &&& h.term_count == times_among(m[h.entry_id@], term)
                &&& h.doc_len == m[h.entry_id@].len()
            }),
{
    let terms = known_terms(m, tokens_of(query));
    let term = terms[i];
    let p = |t: Seq<char>| holding(m, t).len() > 0;
    assert(terms.contains(terms[i]));
    tokens_of(query).lemma_filter_contains_rev(p, term);
    assert(counts_term(r[i], m, term));
    let hits = hits_view(r[i].hits@);
    assert(hits[k] == r[i].hits@[k]@);
    assert(hits.to_set().contains(hits[k])) by {
        assert(hits.contains(hits[k]));
    }
    terms_are_counted(m[hits[k].entry_id], term);
    assert(tokens_of(query).contains(term));
}

/// A document that holds a term of the query is found.
pub proof fn documents_with_the_term_are_found(
    r: Seq<TermHits>,
    m: Map<Seq<char>, Seq<Seq<char>>>,
    query: Seq<char>,
    term: Seq<char>,
    id: Seq<char>,
)
    requires
        are_counts(r, m, query),
        m.dom().finite(),
        tokens_of(query).contains(term),
        m.dom().contains(id),
        m[id].contains(term),
    ensures
        exists|i: int, k: int|
            0 <= i < r.len() && 0 <= k < r[i].hits@.len() && (#[trigger] r[i].hits@[k]).entry_id@ == id
                && r[i].hits@[k].term_count == times_among(m[id], term),
{
    let p = |t: Seq<char>| holding(m, t).len() > 0;
    let q = tokens_of(query);
    assert(holding(m, term).contains(id));
    assert(holding(m, term).subset_of(m.dom()));
    vstd::set_lib::lemma_len_subset(holding(m, term), m.dom());
    assert(holding(m, term).len() > 0) by {
        if holding(m, term).len() == 0 {
            assert(holding(m, term) =~= Set::empty());
        }
    }
    let n = choose|n: int| 0 <= n < q.len() && q[n] == term;
    q.lemma_filter_contains(p, n);
    let terms = known_terms(m, q);
    let i = choose|i: int| 0 <= i < terms.len() && terms[i] == term;
    assert(counts_term(r[i], m, terms[i]));
    terms_are_counted(m[id], term);
    let h = TermHitView {
        entry_id: id,
        term_count: occurrences_in(m[id], term),
        doc_len: m[id].len(),
    };
    assert(term_hits(m, term).contains(h));
    let hits = hits_view(r[i].hits@);
    assert(hits.to_set().contains(h));
    let k = choose|k: int| 0 <= k < hits.len() && hits[k] == h;
    assert(r[i].hits@[k].entry_id@ == id);
}

/// Tokens are words: not empty, and made of letters and digits only.
pub proof fn tokens_are_words(text: Seq<char>, i: int)
    requires
        0 <= i < tokens_of(text).len(),
    ensures
        tokens_of(text)[i].len() > 0,
        forall|k: int|
            0 <= k < tokens_of(text)[i].len() ==> is_alnum(
                #[trigger] tokens_of(text)[i][k],
            ),
{
    let class = CharClass::NotAlphanumeric;
    let s = lowercase(text);
    words_hold_no_separator(s, class, i);
    let t = tokens_of(text)[i];
    assert forall|k: int| 0 <= k < t.len() implies is_alnum(#[trigger] t[k]) by {
        assert(!in_class(class, t[k]));
    }
}

}
