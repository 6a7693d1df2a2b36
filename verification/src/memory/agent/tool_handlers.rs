//! What the tools of the memory agent do with their arguments: which requests are refused, what is
//! looked up or stored, and what the model is told.
use crate::clock::{are_of_one_moment, is_time_text, local_now_text, local_stamp_and_text};
use crate::memory::agent::tool_loop::{signed_decimal, signed_decimal_text};
use crate::memory::agent::tool_schemas::tool_table;
use crate::memory::agent::types::{ToolInput, ToolInputView};
use crate::memory::collation::ancestry::{holds_text, lemma_text_set_push, text_set};
use crate::memory::confidence::{
    clamp_score, clamped, AGENT_CONFIDENCE_BITS, ONE_BITS, RESOLVED_FLOOR_BITS,
};
use crate::memory::db::{is_select, query_db_readonly, Entry, EntryView};
use crate::text::chars::{is_alnum, is_alphanumeric, to_chars};
use crate::text::compose::{cat2, cat3, cat4, cat5, option_text, same_text};
use crate::text::number::{decimal, decimal_text};
use crate::text::search::{contains, contains_text, occurs_at, replace_all, replace_text};
use crate::text::split::{
    join_texts, joined, lemma_nonempty_push, lemma_one_word, lemma_texts_push, lemma_words_add,
    nonempty, pieces, split_text, split_words, texts, words, words_hold_no_separator,
};
use crate::text::trim::{
    in_class, lowercase, to_lowercase, to_uppercase, trim_text, trimmed, uppercase, CharClass,
};
use vstd::prelude::*;
use vstd::string::*;

verus! {

broadcast use vstd::string::group_string_axioms;

/// Words of the full-text query language that are taken out of a query.
pub const FTS_OPERATORS: &'static str = "AND OR NOT NEAR";

/// Words that say nothing about what is looked for.
pub const STOP_WORDS: &'static str = "a an the is was are were be been being have has had do does did will would could should may might shall can to of in for on with at by from as into about between through during before after above below up down out off over under again then once here there when where why how all each every both few more most other some such no nor only own same so than too very just because but if while that this these those what which who whom its it he she they them his her their my your our me him us i we you trying like also any get";

/// How many hits a full-text search gives.
pub const SEARCH_LIMIT: usize = 20;

/// How many rows a query gives.
pub const QUERY_LIMIT: usize = 50;

/// The word is worth searching for.
pub open spec fn is_search_term(word: Seq<char>) -> bool {
    &&& !words(FTS_OPERATORS@, CharClass::Space).contains(uppercase(word))
    &&& !words(STOP_WORDS@, CharClass::Space).contains(lowercase(word))
}

/// The search terms of a query.
pub open spec fn search_terms(raw: Seq<char>) -> Seq<Seq<char>> {
    words(raw, CharClass::NotQueryWord).filter(|w: Seq<char>| is_search_term(w))
}

/// The full-text query for a query in natural language. One with a quoted phrase is used as it is; of
/// any other, entries that hold one of its search terms are found.
pub open spec fn fts_query(raw: Seq<char>) -> Seq<char> {
    if contains(raw, "\""@) {
        raw
    } else {
        joined(search_terms(raw), " OR "@)
    }
}

/// The full-text query for a query in natural language.
pub fn sanitize_fts_query(raw: &str) -> (r: String)
    ensures
        r@ == fts_query(raw@),
{
    if contains_text(raw, "\"") {
        return raw.to_owned();
    }
    let operators = split_words(FTS_OPERATORS, CharClass::Space);
    let stop_words = split_words(STOP_WORDS, CharClass::Space);
    let all = split_words(raw, CharClass::NotQueryWord);
    let ghost a = texts(all@);
    let ghost pred = |w: Seq<char>| is_search_term(w);
    let mut terms: Vec<String> = Vec::new();
    let mut i: usize = 0;
    proof {
        reveal(Seq::filter);
        assert(texts(terms@) =~= a.take(0).filter(pred));
    }
    while i < all.len()
        invariant
            i <= all.len(),
            a == texts(all@),
            pred == (|w: Seq<char>| is_search_term(w)),
            texts(operators@) == words(FTS_OPERATORS@, CharClass::Space),
            texts(stop_words@) == words(STOP_WORDS@, CharClass::Space),
            texts(terms@) == a.take(i as int).filter(pred),
        decreases all.len() - i,
    {
        proof {
            reveal(Seq::filter);
            assert(a.take(i + 1).drop_last() =~= a.take(i as int));
            assert(a.take(i + 1).last() == all@[i as int]@);
        }
        let upper = to_uppercase(all[i].as_str());
        let lower = to_lowercase(all[i].as_str());
        if !holds_text(&operators, upper.as_str()) && !holds_text(&stop_words, lower.as_str()) {
            let t = all[i].clone();
            proof {
                lemma_texts_push(terms@, t);
            }
            terms.push(t);
        }
        i += 1;
    }
    proof {
        assert(a.take(i as int) =~= a);
    }
    join_texts(&terms, " OR ")
}

/// A query never asks for a stop word or an operator: each of its terms is a word of the text it was made
/// of, without any separator, and worth searching for.
pub proof fn search_terms_are_significant(raw: Seq<char>, i: int)
    requires
        0 <= i < search_terms(raw).len(),
    ensures
        is_search_term(search_terms(raw)[i]),
        words(raw, CharClass::NotQueryWord).contains(search_terms(raw)[i]),
        search_terms(raw)[i].len() > 0,
        forall|k: int|
            0 <= k < search_terms(raw)[i].len() ==> !in_class(
                CharClass::NotQueryWord,
                #[trigger] search_terms(raw)[i][k],
            ),
{
    let all = words(raw, CharClass::NotQueryWord);
    let pred = |w: Seq<char>| is_search_term(w);
    let t = search_terms(raw)[i];
    all.lemma_filter_pred(pred, i);
    assert(all.filter(pred).contains(t));
    all.lemma_filter_contains_rev(pred, t);
    let j = choose|j: int| 0 <= j < all.len() && all[j] == t;
    words_hold_no_separator(raw, CharClass::NotQueryWord, j);
}

/// The words of a query that asks for one of several terms.
spec fn with_operators(terms: Seq<Seq<char>>) -> Seq<Seq<char>>
    decreases terms.len(),
{
    if terms.len() <= 1 {
        terms
    } else {
        with_operators(terms.drop_last()).push("OR"@).push(terms.last())
    }
}

/// The terms are words.
spec fn all_words(terms: Seq<Seq<char>>) -> bool {
    forall|i: int|
        0 <= i < terms.len() ==> (#[trigger] terms[i]).len() > 0 && forall|k: int|
            0 <= k < terms[i].len() ==> !in_class(CharClass::NotQueryWord, #[trigger] terms[i][k])
}

proof fn lemma_words_of_joined(terms: Seq<Seq<char>>)
    requires
        all_words(terms),
    ensures
        words(joined(terms, " OR "@), CharClass::NotQueryWord) == with_operators(terms),
    decreases terms.len(),
{
    let class = CharClass::NotQueryWord;
    reveal_strlit(" OR ");
    reveal_strlit("OR");
    if terms.len() == 0 {
        reveal(Seq::filter);
        let none = Seq::<Seq<char>>::empty();
        lemma_nonempty_push(none, Seq::empty());
        assert(pieces(Seq::empty(), class) =~= none.push(Seq::empty()));
        assert(nonempty(none) =~= none);
        assert(terms =~= none);
    } else if terms.len() == 1 {
        lemma_one_word(terms[0], class);
        assert(seq![terms[0]] =~= terms);
    } else {
        let t = terms.drop_last();
        let x = terms.last();
        assert(x == terms[terms.len() - 1]);
        assert forall|i: int| 0 <= i < t.len() implies (#[trigger] t[i]).len() > 0 && forall|k: int|
            0 <= k < t[i].len() ==> !in_class(class, #[trigger] t[i][k]) by {
            assert(t[i] == terms[i]);
        }
        lemma_words_of_joined(t);
        let s = joined(t, " OR "@);
        let a = s.push(' ') + "OR"@;
        lemma_words_add(s, ' ', "OR"@, class);
        lemma_words_add(a, ' ', x, class);
        assert(joined(terms, " OR "@) =~= a.push(' ') + x);
    }
}

proof fn lemma_or_is_no_term()
    ensures
        !is_search_term("OR"@),
{
    let class = CharClass::Space;
    reveal_strlit("AND OR NOT NEAR");
    reveal_strlit("AND");
    reveal_strlit("OR");
    reveal_strlit("NOT");
    reveal_strlit("NEAR");
    let a = "AND"@;
    let b = a.push(' ') + "OR"@;
    let c = b.push(' ') + "NOT"@;
    let d = c.push(' ') + "NEAR"@;
    lemma_one_word(a, class);
    lemma_words_add(a, ' ', "OR"@, class);
    lemma_words_add(b, ' ', "NOT"@, class);
    lemma_words_add(c, ' ', "NEAR"@, class);
    assert(d =~= FTS_OPERATORS@);
    assert(words(d, class)[1] == "OR"@);
    assert(uppercase("OR"@) =~= "OR"@);
}

proof fn lemma_operators_are_dropped(terms: Seq<Seq<char>>)
    requires
        forall|i: int| 0 <= i < terms.len() ==> is_search_term(#[trigger] terms[i]),
    ensures
        with_operators(terms).filter(|w: Seq<char>| is_search_term(w)) == terms,
    decreases terms.len(),
{
    reveal(Seq::filter);
    let pred = |w: Seq<char>| is_search_term(w);
    if terms.len() == 0 {
        assert(terms.filter(pred) =~= terms);
    } else if terms.len() == 1 {
        assert(pred(terms.last()));
        assert(terms.drop_last().filter(pred) =~= Seq::<Seq<char>>::empty());
        assert(terms.filter(pred) =~= terms);
    } else {
        let t = terms.drop_last();
        assert forall|i: int| 0 <= i < t.len() implies is_search_term(#[trigger] t[i]) by {
            assert(t[i] == terms[i]);
        }
        lemma_operators_are_dropped(t);
        lemma_or_is_no_term();
        let m = with_operators(t);
        let n = m.push("OR"@);
        assert(n.drop_last() =~= m);
        assert(n.push(terms.last()).drop_last() =~= n);
        assert(terms.last() == terms[terms.len() - 1]);
        assert(!pred("OR"@));
        assert(n.filter(pred) == m.filter(pred));
        assert(t.push(terms.last()) =~= terms);
    }
}

proof fn lemma_joined_holds_no_quote(terms: Seq<Seq<char>>)
    requires
        all_words(terms),
    ensures
        !joined(terms, " OR "@).contains('"'),
    decreases terms.len(),
{
    reveal_strlit(" OR ");
    let s = joined(terms, " OR "@);
    if terms.len() > 1 {
        let t = terms.drop_last();
        assert forall|i: int| 0 <= i < t.len() implies (#[trigger] t[i]).len() > 0 && forall|k: int|
            0 <= k < t[i].len() ==> !in_class(CharClass::NotQueryWord, #[trigger] t[i][k]) by {
            assert(t[i] == terms[i]);
        }
        lemma_joined_holds_no_quote(t);
        let before = joined(t, " OR "@);
        let x = terms.last();
        assert(x == terms[terms.len() - 1]);
        if s.contains('"') {
            let k = choose|k: int| 0 <= k < s.len() && s[k] == '"';
            if k < before.len() {
                assert(before[k] == '"');
            } else if k >= before.len() + 4 {
                assert(x[k - before.len() - 4] == s[k]);
            }
        }
    } else if terms.len() == 1 {
        if s.contains('"') {
            let k = choose|k: int| 0 <= k < s.len() && s[k] == '"';
            assert(terms[0][k] == '"');
        }
    }
}

/// A full-text query is used as it is: sanitising twice is sanitising once.
pub proof fn sanitising_is_idempotent(raw: Seq<char>)
    ensures
        fts_query(fts_query(raw)) == fts_query(raw),
{
    reveal_strlit("\"");
    if !contains(raw, "\""@) {
        let terms = search_terms(raw);
        let s = fts_query(raw);
        assert forall|i: int| 0 <= i < terms.len() implies (#[trigger] terms[i]).len() > 0 && forall|
            k: int,
        |
            0 <= k < terms[i].len() ==> !in_class(CharClass::NotQueryWord, #[trigger] terms[i][k]) by {
            search_terms_are_significant(raw, i);
        }
        assert forall|i: int| 0 <= i < terms.len() implies is_search_term(#[trigger] terms[i]) by {
            search_terms_are_significant(raw, i);
        }
        lemma_joined_holds_no_quote(terms);
        if contains(s, "\""@) {
            let k = choose|k: int| #[trigger] occurs_at(s, "\""@, k);
            assert(s.subrange(k, k + 1)[0] == s[k]);
            assert(s.contains('"'));
        }
        lemma_words_of_joined(terms);
        lemma_operators_are_dropped(terms);
        assert(search_terms(s) == terms);
    }
}

/// A full-text search.
#[derive(Debug)]
pub struct EntrySearch {
    /// The full-text query.
    pub fts_query: String,
    /// The status that entries must have; none where any will do.
    pub status: Option<String>,
    /// How many hits are wanted.
    pub limit: usize,
}

/// The search that the tool `search_entries` makes, or why it makes none.
pub fn handle_search_entries(input: &ToolInput) -> (r: Result<EntrySearch, String>)
    ensures
        ({
            let query = trimmed(input@.text_or("query"@, ""@));
            let status = input@.text_or("status"@, "active"@);
            match r {
                Ok(s) => {
                    &&& query.len() > 0
                    &&& fts_query(query).len() > 0
                    &&& s.fts_query@ == fts_query(query)
                    &&& option_text(s.status) == if status == "all"@ {
                        None
                    } else {
                        Some(status)
                    }
                    &&& s.limit == SEARCH_LIMIT
                },
                Err(e) => if query.len() == 0 {
                    e@ == "Error: empty search query"@
                } else {
                    fts_query(query).len() == 0 && e@
                        == "Error: query produced no searchable terms"@
                },
            }
        }),
{
    let query = trim_text(input.text_or("query", "").as_str());
    if query.as_str().is_empty() {
        return Err("Error: empty search query".to_owned());
    }
    let status_raw = input.text_or("status", "active");
    let status = if same_text(status_raw.as_str(), "all") {
        None
    } else {
        Some(status_raw)
    };
    let fts_query = sanitize_fts_query(query.as_str());
    if fts_query.as_str().is_empty() {
        return Err("Error: query produced no searchable terms".to_owned());
    }
    Ok(EntrySearch { fts_query, status, limit: SEARCH_LIMIT })
}

/// A search by meaning.
#[derive(Debug)]
pub struct SemanticSearch {
    /// What is looked for.
    pub query: String,
    /// How many results are wanted.
    pub top_k: usize,
    /// How many hits are fetched from each source.
    pub fetch_k: usize,
}

/// How many results a search by meaning gives: as many as asked for, at most 50, and 10 by default.
pub open spec fn wanted_results(input: ToolInputView) -> nat {
    match input.unsigned("top_k"@) {
        Some(n) => if n > 50 {
            50
        } else {
            n as nat
        },
        None => 10,
    }
}

/// The search that the tool `semantic_search` makes, or why it makes none. It is not available without
/// an embedding model.
pub fn handle_semantic_search(input: &ToolInput, available: bool) -> (r: Result<
    SemanticSearch,
    String,
>)
    ensures
        ({
            let query = trimmed(input@.text_or("query"@, ""@));
            match r {
                Ok(s) => {
                    &&& available
                    &&& query.len() > 0
                    &&& s.query@ == query
                    &&& s.top_k == wanted_results(input@)
                    &&& s.fetch_k == 3 * wanted_results(input@)
                },
                Err(e) => if !available {
                    e@
                        == "Semantic search unavailable: no embedding model configured. Use search_entries instead."@
                } else {
                    query.len() == 0 && e@ == "Error: empty search query"@
                },
            }
        }),
{
    if !available {
        return Err(
            "Semantic search unavailable: no embedding model configured. Use search_entries instead.".to_owned(),
        );
    }
    let query = trim_text(input.text_or("query", "").as_str());
    if query.as_str().is_empty() {
        return Err("Error: empty search query".to_owned());
    }
    let top_k: usize = match input.unsigned("top_k") {
        Some(n) => if n > 50 {
            50
        } else {
            n as usize
        },
        None => 10,
    };
    Ok(SemanticSearch { query, top_k, fetch_k: top_k * 3 })
}

/// The identifiers that either source found, each once.
pub fn found_ids(vector_ids: &Vec<String>, keyword_ids: &Vec<String>) -> (r: Vec<String>)
    ensures
        text_set(r@) == text_set(vector_ids@).union(text_set(keyword_ids@)),
        texts(r@).no_duplicates(),
{
    let mut out: Vec<String> = Vec::new();
    proof {
        assert(text_set(out@) =~= Set::<Seq<char>>::empty());
    }
    add_ids(&mut out, vector_ids);
    add_ids(&mut out, keyword_ids);
    proof {
        assert(text_set(out@) =~= text_set(vector_ids@).union(text_set(keyword_ids@)));
    }
    out
}

fn add_ids(out: &mut Vec<String>, more: &Vec<String>)
    requires
        texts(old(out)@).no_duplicates(),
    ensures
        texts(final(out)@).no_duplicates(),
        text_set(final(out)@) == text_set(old(out)@).union(text_set(more@)),
{
    let ghost before = text_set(out@);
    let ghost m = texts(more@);
    let mut i: usize = 0;
    proof {
        assert(text_set(out@) =~= before.union(m.take(0).to_set()));
    }
    while i < more.len()
        invariant
            i <= more.len(),
            m == texts(more@),
            texts(out@).no_duplicates(),
            text_set(out@) == before.union(m.take(i as int).to_set()),
        decreases more.len() - i,
    {
        let s = more[i].clone();
        proof {
            assert(m[i as int] == s@);
            assert(m.take(i + 1) =~= m.take(i as int).push(s@));
            crate::memory::collation::refine::lemma_set_of_push(m.take(i as int), s@);
        }
        if !holds_text(out, s.as_str()) {
            proof {
                lemma_text_set_push(out@, s);
                lemma_texts_push(out@, s);
                let a = texts(out@);
                assert forall|j: int, k: int|
                    0 <= j < a.push(s@).len() && 0 <= k < a.push(s@).len() && j
                        != k implies a.push(s@)[j] != a.push(s@)[k] by {
                    if j == a.len() {
                        assert(a.contains(a[k]));
                    } else if k == a.len() {
                        assert(a.contains(a[j]));
                    }
                }
                assert(before.union(m.take(i + 1).to_set()) =~= before.union(
                    m.take(i as int).to_set(),
                ).insert(s@));
            }
            out.push(s);
        } else {
            proof {
                assert(before.union(m.take(i + 1).to_set()) =~= before.union(
                    m.take(i as int).to_set(),
                ).insert(s@));
                assert(text_set(out@) =~= text_set(out@).insert(s@));
            }
        }
        i += 1;
    }
    proof {
        assert(m.take(i as int) =~= m);
    }
}

/// The statement that the tool `query_db` runs, or why it runs none.
pub fn handle_query_db(input: &ToolInput) -> (r: Result<String, String>)
    ensures
        ({
            let sql = trimmed(input@.text_or("sql"@, ""@));
            match r {
                Ok(s) => sql.len() > 0 && is_select(sql) && s@ == trimmed(sql),
                Err(e) => if sql.len() == 0 {
                    e@ == "Error: empty SQL query"@
                } else {
                    !is_select(sql) && e@ == "SQL error: "@ + "Only SELECT queries are allowed"@
                },
            }
        }),
{
    let sql = trim_text(input.text_or("sql", "").as_str());
    if sql.as_str().is_empty() {
        return Err("Error: empty SQL query".to_owned());
    }
    match query_db_readonly(sql.as_str()) {
        Ok(s) => Ok(s),
        Err(e) => Err(cat2("SQL error: ", e.as_str())),
    }
}

/// The tags of a list separated by commas, trimmed, without empty ones.
pub open spec fn tags_of(list: Seq<Seq<char>>) -> Seq<Seq<char>>
    decreases list.len(),
{
    if list.len() == 0 {
        Seq::empty()
    } else {
        let t = tags_of(list.drop_last());
        let x = trimmed(list.last());
        if x.len() > 0 {
            t.push(x)
        } else {
            t
        }
    }
}

/// The characters that a topic key may hold.
pub open spec fn key_chars(s: Seq<char>) -> Seq<char> {
    s.filter(|c: char| is_alnum(c) || c == '_')
}

/// The topic key of an entry: made of its first tag, or of the first three words of its text where it
/// has no tag.
pub open spec fn topic_key(tags: Seq<char>, summary: Seq<char>) -> Seq<char> {
    let list = tags_of(pieces(tags, CharClass::One(',')));
    if list.len() > 0 {
        key_chars(replace_all(lowercase(list[0]), " "@, "_"@))
    } else {
        let w = words(summary, CharClass::Space);
        key_chars(
            lowercase(
                joined(
                    if w.len() > 3 {
                        w.take(3)
                    } else {
                        w
                    },
                    "_"@,
                ),
            ),
        )
    }
}

fn keep_key_chars(s: &str) -> (r: String)
    ensures
        r@ == key_chars(s@),
{
    let v = to_chars(s);
    let ghost pred = |c: char| is_alnum(c) || c == '_';
    let mut out = String::new();
    let mut i: usize = 0;
    proof {
        reveal(Seq::filter);
        assert(out@ =~= v@.take(0).filter(pred));
    }
    while i < v.len()
        invariant
            i <= v.len(),
            pred == (|c: char| is_alnum(c) || c == '_'),
            out@ == v@.take(i as int).filter(pred),
        decreases v.len() - i,
    {
        proof {
            reveal(Seq::filter);
            assert(v@.take(i + 1).drop_last() =~= v@.take(i as int));
            assert(v@.take(i + 1).last() == v@[i as int]);
        }
        if is_alphanumeric(v[i]) || v[i] == '_' {
            out.push(v[i]);
        }
        i += 1;
    }
    proof {
        assert(v@.take(i as int) =~= v@);
    }
    out
}

/// The topic key of an entry with these tags and this text.
pub fn infer_topic_key(tags: &str, summary: &str) -> (r: String)
    ensures
        r@ == topic_key(tags@, summary@),
{
    let parts = split_text(tags, CharClass::One(','));
    let ghost p = texts(parts@);
    let mut i: usize = 0;
    proof {
        assert(tags_of(p.take(0)) =~= Seq::<Seq<char>>::empty());
        reveal_strlit(" ");
    }
    while i < parts.len()
        invariant
            i <= parts.len(),
            p == texts(parts@),
            p == pieces(tags@, CharClass::One(',')),
            " "@.len() == 1,
            tags_of(p.take(i as int)).len() == 0,
        decreases parts.len() - i,
    {
        proof {
            assert(p.take(i + 1).drop_last() =~= p.take(i as int));
            assert(p.take(i + 1).last() == parts@[i as int]@);
        }
        let t = trim_text(parts[i].as_str());
        if !t.as_str().is_empty() {
            proof {
                lemma_first_tag(p, i + 1);
            }
            let lower = to_lowercase(t.as_str());
            let joined_words = replace_text(lower.as_str(), " ", "_");
            return keep_key_chars(joined_words.as_str());
        }
        i += 1;
    }
    proof {
        assert(p.take(i as int) =~= p);
    }
    let mut w = split_words(summary, CharClass::Space);
    let ghost all = texts(w@);
    if w.len() > 3 {
        w.truncate(3);
        assert(texts(w@) =~= all.take(3));
    }
    let name = join_texts(&w, "_");
    keep_key_chars(to_lowercase(name.as_str()).as_str())
}

proof fn lemma_first_tag(p: Seq<Seq<char>>, n: int)
    requires
        0 <= n <= p.len(),
        tags_of(p.take(n)).len() > 0,
    ensures
        tags_of(p).len() > 0,
        tags_of(p)[0] == tags_of(p.take(n))[0],
    decreases p.len() - n,
{
    if n < p.len() {
        assert(p.take(n + 1).drop_last() =~= p.take(n));
        lemma_first_tag(p, n + 1);
    } else {
        assert(p.take(n) =~= p);
    }
}

/// An entry that the agent makes.
#[derive(Debug)]
pub struct EntryCreation {
    /// The entry.
    pub entry: Entry,
    /// The audit text.
    pub reason: String,
}

/// The entry that the tool `create_entry` makes of its arguments.
pub open spec fn agent_entry(input: ToolInputView, stamp: Seq<char>, now: Seq<char>) -> EntryView {
    let summary = trimmed(input.text_or("summary_text"@, ""@));
    let tags = input.text_or("topic_tags"@, ""@);
    EntryView {
        id: stamp + "_"@ + "0"@,
        memory_type: input.text_or("memory_type"@, "semantic"@),
        source: "agent"@,
        reason: "memory_agent"@,
        status: "active"@,
        confidence_bits: match input.real_bits("confidence"@) {
            Some(b) => b,
            None => AGENT_CONFIDENCE_BITS,
        },
        summary_text: summary,
        topic_tags: tags,
        topic_key: topic_key(tags, summary),
        start_timestamp: now,
        end_timestamp: now,
        message_count: 0,
        source_entry_ids: Seq::empty(),
        related_entry_ids: Seq::empty(),
        superseded_by: Seq::empty(),
        created_at: now,
        updated_at: now,
        entry_type: Seq::empty(),
        image_path: input.text_or("image_path"@, ""@),
        collated_at: Seq::empty(),
        file_path: Seq::empty(),
    }
}

/// The arguments describe an entry: it has a text.
pub open spec fn describes_entry(input: ToolInputView) -> bool {
    trimmed(input.text_or("summary_text"@, ""@)).len() > 0
}

/// The entry that the tool `create_entry` makes at a given moment, or why it makes none.
pub fn create_entry_at(input: &ToolInput, stamp: &str, now: &str) -> (r: Result<
    EntryCreation,
    String,
>)
    ensures
        match r {
            Ok(c) => {
                &&& describes_entry(input@)
                &&& c.entry@ == agent_entry(input@, stamp@, now@)
                &&& c.reason@ == input@.text_or("reason"@, "Created by memory agent"@)
            },
            Err(e) => !describes_entry(input@) && e@ == "Error: summary_text required"@,
        },
{
    let summary_text = trim_text(input.text_or("summary_text", "").as_str());
    if summary_text.as_str().is_empty() {
        return Err("Error: summary_text required".to_owned());
    }
    let topic_tags = input.text_or("topic_tags", "");
    let topic_key = infer_topic_key(topic_tags.as_str(), summary_text.as_str());
    let confidence_bits: u64 = match input.real_bits("confidence") {
        Some(b) => b,
        None => AGENT_CONFIDENCE_BITS,
    };
    let entry = Entry {
        id: cat3(stamp, "_", "0"),
        memory_type: input.text_or("memory_type", "semantic"),
        source: "agent".to_owned(),
        reason: "memory_agent".to_owned(),
        status: "active".to_owned(),
        confidence_bits,
        summary_text,
        topic_tags,
        topic_key,
        start_timestamp: now.to_owned(),
        end_timestamp: now.to_owned(),
        message_count: 0,
        source_entry_ids: String::new(),
        related_entry_ids: String::new(),
        superseded_by: String::new(),
        created_at: now.to_owned(),
        updated_at: now.to_owned(),
        entry_type: String::new(),
        image_path: input.text_or("image_path", ""),
        collated_at: String::new(),
        file_path: String::new(),
    };
    let reason = input.text_or("reason", "Created by memory agent");
    Ok(EntryCreation { entry, reason })
}

/// The entry that the tool `create_entry` makes now, or why it makes none.
pub fn handle_create_entry(input: &ToolInput) -> (r: Result<EntryCreation, String>)
    ensures
        match r {
            Ok(c) => {
                &&& describes_entry(input@)
                &&& exists|stamp: Seq<char>, now: Seq<char>|
                    are_of_one_moment(stamp, now) && c.entry@ == #[trigger] agent_entry(
                        input@,
                        stamp,
                        now,
                    )
                &&& c.reason@ == input@.text_or("reason"@, "Created by memory agent"@)
            },
            Err(e) => !describes_entry(input@) && e@ == "Error: summary_text required"@,
        },
{
    let (stamp, now) = local_stamp_and_text();
    create_entry_at(input, stamp.as_str(), now.as_str())
}

/// What the model is told of a new entry.
pub fn created_reply(entry_id: &str) -> (r: String)
    ensures
        r@ == "Created entry "@ + entry_id@,
{
    cat2("Created entry ", entry_id)
}

/// The entry that a tool speaks of, or why there is none.
pub fn required_entry_id(input: &ToolInput) -> (r: Result<String, String>)
    ensures
        ({
            let id = input@.text_or("entry_id"@, ""@);
            match r {
                Ok(s) => id.len() > 0 && s@ == id,
                Err(e) => id.len() == 0 && e@ == "Error: entry_id required"@,
            }
        }),
{
    let id = input.text_or("entry_id", "");
    if id.as_str().is_empty() {
        Err("Error: entry_id required".to_owned())
    } else {
        Ok(id)
    }
}

/// A change of an entry.
#[derive(Debug)]
pub struct EntryUpdate {
    /// The entry as it is to be.
    pub entry: Entry,
    /// The audit text.
    pub reason: String,
}

/// The arguments say something that is to be changed.
pub open spec fn changes_something(input: ToolInputView) -> bool {
    ||| input.text("summary_text"@) is Some
    ||| input.text("topic_tags"@) is Some
    ||| input.real_bits("confidence"@) is Some
    ||| input.text("memory_type"@) is Some
}

/// A text, or another where it is not given.
pub open spec fn given_or(t: Option<Seq<char>>, other: Seq<char>) -> Seq<char> {
    match t {
        Some(s) => s,
        None => other,
    }
}

/// The entry with what the arguments say changed, and nothing else but the time of the change.
pub open spec fn changed_entry(e: EntryView, input: ToolInputView, now: Seq<char>) -> EntryView {
    EntryView {
        summary_text: given_or(input.text("summary_text"@), e.summary_text),
        topic_tags: given_or(input.text("topic_tags"@), e.topic_tags),
        confidence_bits: match input.real_bits("confidence"@) {
            Some(b) => b,
            None => e.confidence_bits,
        },
        memory_type: given_or(input.text("memory_type"@), e.memory_type),
        updated_at: now,
        ..e
    }
}

/// What the tool `update_entry` makes of the entry called `entry_id`, which is given if it exists, at a
/// given time.
pub fn update_entry_at(input: &ToolInput, entry_id: &str, current: Option<Entry>, now: &str) -> (r:
    Result<EntryUpdate, String>)
    ensures
        match r {
            Ok(u) => {
                &&& current is Some
                &&& changes_something(input@)
                &&& u.entry@ == changed_entry(current->Some_0@, input@, now@)
                &&& u.reason@ == input@.text_or("reason"@, ""@)
            },
            Err(e) => if current is None {
                e@ == "Entry "@ + entry_id@ + " not found"@
            } else {
                !changes_something(input@) && e@ == "Error: no fields to update"@
            },
        },
{
    let mut entry = match current {
        Some(e) => e,
        None => {
            return Err(cat3("Entry ", entry_id, " not found"));
        },
    };
    let mut has_changes = false;
    match input.text("summary_text") {
        Some(v) => {
            entry.summary_text = v;
            has_changes = true;
        },
        None => {},
    }
    match input.text("topic_tags") {
        Some(v) => {
            entry.topic_tags = v;
            has_changes = true;
        },
        None => {},
    }
    match input.real_bits("confidence") {
        Some(v) => {
            entry.confidence_bits = v;
            has_changes = true;
        },
        None => {},
    }
    match input.text("memory_type") {
        Some(v) => {
            entry.memory_type = v;
            has_changes = true;
        },
        None => {},
    }
    if !has_changes {
        return Err("Error: no fields to update".to_owned());
    }
    entry.updated_at = now.to_owned();
    Ok(EntryUpdate { entry, reason: input.text_or("reason", "") })
}

/// What the tool `update_entry` makes of the entry called `entry_id`, which is given if it exists.
pub fn handle_update_entry(input: &ToolInput, entry_id: &str, current: Option<Entry>) -> (r: Result<
    EntryUpdate,
    String,
>)
    ensures
        match r {
            Ok(u) => {
                &&& current is Some
                &&& changes_something(input@)
                &&& exists|now: Seq<char>|
                    is_time_text(now) && u.entry@ == #[trigger] changed_entry(
                        current->Some_0@,
                        input@,
                        now,
                    )
                &&& u.reason@ == input@.text_or("reason"@, ""@)
            },
            Err(e) => if current is None {
                e@ == "Entry "@ + entry_id@ + " not found"@
            } else {
                !changes_something(input@) && e@ == "Error: no fields to update"@
            },
        },
{
    let now = local_now_text();
    update_entry_at(input, entry_id, current, now.as_str())
}

/// What the model is told of a change that met `rows` entries.
pub fn updated_reply(entry_id: &str, rows: usize) -> (r: Result<String, String>)
    ensures
        match r {
            Ok(s) => rows > 0 && s@ == "Updated "@ + entry_id@,
            Err(e) => rows == 0 && e@ == "Entry "@ + entry_id@ + " not found"@,
        },
{
    if rows == 0 {
        Err(cat3("Entry ", entry_id, " not found"))
    } else {
        Ok(cat2("Updated ", entry_id))
    }
}

/// An entry that is superseded.
#[derive(Debug)]
pub struct Supersession {
    /// The entry.
    pub entry_id: String,
    /// What takes its place; empty where nothing does.
    pub superseded_by: String,
    /// The audit text.
    pub reason: String,
}

/// What the tool `supersede_entry` does, or why it does nothing.
pub fn handle_supersede_entry(input: &ToolInput) -> (r: Result<Supersession, String>)
    ensures
        ({
            let id = input@.text_or("entry_id"@, ""@);
            match r {
                Ok(s) => {
                    &&& id.len() > 0
                    &&& s.entry_id@ == id
                    &&& s.superseded_by@ == input@.text_or("superseded_by"@, ""@)
                    &&& s.reason@ == input@.text_or("reason"@, ""@)
                },
                Err(e) => id.len() == 0 && e@ == "Error: entry_id required"@,
            }
        }),
{
    match required_entry_id(input) {
        Err(e) => Err(e),
        Ok(entry_id) => Ok(
            Supersession {
                entry_id,
                superseded_by: input.text_or("superseded_by", ""),
                reason: input.text_or("reason", ""),
            },
        ),
    }
}

/// What the model is told of a supersession that met `rows` entries.
pub fn superseded_reply(entry_id: &str, rows: usize) -> (r: Result<String, String>)
    ensures
        match r {
            Ok(s) => rows > 0 && s@ == "Superseded "@ + entry_id@,
            Err(e) => rows == 0 && e@ == "Entry "@ + entry_id@ + " not found"@,
        },
{
    if rows == 0 {
        Err(cat3("Entry ", entry_id, " not found"))
    } else {
        Ok(cat2("Superseded ", entry_id))
    }
}

/// An entity that is stored.
#[derive(Debug)]
pub struct EntityUpdate {
    /// Its name.
    pub name: String,
    /// What kind of thing it is.
    pub entity_type: String,
    /// What it is.
    pub description: String,
    /// The audit text.
    pub changelog: String,
}

/// What the tool `update_entity` does, or why it does nothing.
pub fn handle_update_entity(input: &ToolInput) -> (r: Result<EntityUpdate, String>)
    ensures
        ({
            let name = trimmed(input@.text_or("name"@, ""@));
            match r {
                Ok(u) => {
                    &&& name.len() > 0
                    &&& u.name@ == name
                    &&& u.entity_type@ == input@.text_or("type"@, ""@)
                    &&& u.description@ == input@.text_or("description"@, ""@)
                    &&& u.changelog@ == "Memory agent updated entity '"@ + name + "'"@
                },
                Err(e) => name.len() == 0 && e@ == "Error: name required"@,
            }
        }),
{
    let name = trim_text(input.text_or("name", "").as_str());
    if name.as_str().is_empty() {
        return Err("Error: name required".to_owned());
    }
    let changelog = cat3("Memory agent updated entity '", name.as_str(), "'");
    Ok(
        EntityUpdate {
            name,
            entity_type: input.text_or("type", ""),
            description: input.text_or("description", ""),
            changelog,
        },
    )
}

/// What the model is told of a stored entity.
pub fn entity_reply(name: &str, entity_id: i64) -> (r: String)
    ensures
        r@ == "Updated entity '"@ + name@ + "' (id="@ + signed_decimal(entity_id) + ")"@,
{
    let id = signed_decimal_text(entity_id);
    cat5("Updated entity '", name, "' (id=", id.as_str(), ")")
}

/// The names of two entities that are merged, or why none are.
pub fn merge_names(input: &ToolInput) -> (r: Result<(String, String), String>)
    ensures
        ({
            let from = trimmed(input@.text_or("from_name"@, ""@));
            let to = trimmed(input@.text_or("to_name"@, ""@));
            match r {
                Ok((a, b)) => from.len() > 0 && to.len() > 0 && a@ == from && b@ == to,
                Err(e) => (from.len() == 0 || to.len() == 0) && e@
                    == "Error: from_name and to_name required"@,
            }
        }),
{
    let from_name = trim_text(input.text_or("from_name", "").as_str());
    let to_name = trim_text(input.text_or("to_name", "").as_str());
    if from_name.as_str().is_empty() || to_name.as_str().is_empty() {
        Err("Error: from_name and to_name required".to_owned())
    } else {
        Ok((from_name, to_name))
    }
}

/// Which entities the tool `merge_entity` merges, given by their numbers if they exist, or why it merges
/// none.
pub fn handle_merge_entity(
    from_name: &str,
    from_entity: Option<i64>,
    to_name: &str,
    to_entity: Option<i64>,
) -> (r: Result<(i64, i64), String>)
    ensures
        match r {
            Ok((a, b)) => from_entity == Some(a) && to_entity == Some(b) && a != b,
            Err(e) => if from_entity is None {
                e@ == "Error: entity '"@ + from_name@ + "' not found"@
            } else if to_entity is None {
                e@ == "Error: entity '"@ + to_name@ + "' not found"@
            } else {
                &&& from_entity == to_entity
                &&& e@ == "Error: '"@ + from_name@ + "' and '"@ + to_name@ + "' are the same entity"@
            },
        },
{
    match (from_entity, to_entity) {
        (None, _) => Err(cat3("Error: entity '", from_name, "' not found")),
        (Some(_), None) => Err(cat3("Error: entity '", to_name, "' not found")),
        (Some(a), Some(b)) => if a == b {
            Err(cat5("Error: '", from_name, "' and '", to_name, "' are the same entity"))
        } else {
            Ok((a, b))
        },
    }
}

/// The audit text of merged entities.
pub fn merge_changelog(from_name: &str, from_id: i64, to_name: &str, to_id: i64, count: usize) -> (r:
    String)
    ensures
        r@ == "Merged '"@ + from_name@ + "' (id="@ + signed_decimal(from_id) + ") into '"@ + to_name@
            + "' (id="@ + signed_decimal(to_id) + "), re-linked "@ + decimal(count as nat)
            + " entries"@,
{
    let a = signed_decimal_text(from_id);
    let b = signed_decimal_text(to_id);
    let n = decimal_text(count as u64);
    let head = cat5("Merged '", from_name, "' (id=", a.as_str(), ") into '");
    let mid = cat5(head.as_str(), to_name, "' (id=", b.as_str(), "), re-linked ");
    cat3(mid.as_str(), n.as_str(), " entries")
}

/// What the model is told of merged entities.
pub fn merged_reply(from_name: &str, to_name: &str, count: usize) -> (r: String)
    ensures
        r@ == "Merged '"@ + from_name@ + "' into '"@ + to_name@ + "': "@ + decimal(count as nat)
            + " entries re-linked"@,
{
    let n = decimal_text(count as u64);
    let head = cat5("Merged '", from_name, "' into '", to_name, "': ");
    cat3(head.as_str(), n.as_str(), " entries re-linked")
}

/// A flag that is resolved.
#[derive(Debug)]
pub struct FlagResolution {
    /// The flag.
    pub flag_id: i64,
    /// How it is resolved.
    pub resolution: String,
    /// The audit text.
    pub changelog: String,
}

/// What the tool `resolve_flag` does, or why it does nothing.
pub fn handle_resolve_flag(input: &ToolInput) -> (r: Result<FlagResolution, String>)
    ensures
        match r {
            Ok(f) => {
                &&& input@.signed("flag_id"@) == Some(f.flag_id)
                &&& f.resolution@ == input@.text_or("resolution"@, ""@)
                &&& f.changelog@ == "Resolved flag "@ + signed_decimal(f.flag_id) + ": "@
                    + f.resolution@
            },
            Err(e) => input@.signed("flag_id"@) is None && e@ == "Error: flag_id required"@,
        },
{
    match input.signed("flag_id") {
        None => Err("Error: flag_id required".to_owned()),
        Some(flag_id) => {
            let resolution = input.text_or("resolution", "");
            let id = signed_decimal_text(flag_id);
            let changelog = cat4("Resolved flag ", id.as_str(), ": ", resolution.as_str());
            Ok(FlagResolution { flag_id, resolution, changelog })
        },
    }
}

/// The confidence of an entry whose flag was resolved: at least 0.8 and at most 1.
pub fn resolved_confidence(bits: u64) -> (r: u64)
    ensures
        r == clamped(bits, RESOLVED_FLOOR_BITS, ONE_BITS),
{
    clamp_score(bits, RESOLVED_FLOOR_BITS, ONE_BITS)
}

/// What the model is told of a resolved flag.
pub fn resolved_reply(flag_id: i64) -> (r: String)
    ensures
        r@ == "Resolved flag "@ + signed_decimal(flag_id),
{
    cat2("Resolved flag ", signed_decimal_text(flag_id).as_str())
}

/// A flag that is raised.
#[derive(Debug)]
pub struct FlagCreation {
    /// The entry in doubt.
    pub entry_id: String,
    /// The kind of doubt.
    pub flag_type: String,
    /// Why it is raised.
    pub reason: String,
}

/// What the tool `create_flag` does, or why it does nothing.
pub fn handle_create_flag(input: &ToolInput) -> (r: Result<FlagCreation, String>)
    ensures
        ({
            let id = input@.text_or("entry_id"@, ""@);
            let kind = input@.text_or("flag_type"@, ""@);
            match r {
                Ok(f) => {
                    &&& id.len() > 0
                    &&& kind.len() > 0
                    &&& f.entry_id@ == id
                    &&& f.flag_type@ == kind
                    &&& f.reason@ == input@.text_or("reason"@, ""@)
                },
                Err(e) => (id.len() == 0 || kind.len() == 0) && e@
                    == "Error: entry_id and flag_type required"@,
            }
        }),
{
    let entry_id = input.text_or("entry_id", "");
    let flag_type = input.text_or("flag_type", "");
    if entry_id.as_str().is_empty() || flag_type.as_str().is_empty() {
        return Err("Error: entry_id and flag_type required".to_owned());
    }
    Ok(FlagCreation { entry_id, flag_type, reason: input.text_or("reason", "") })
}

/// What the model is told of a raised flag.
pub fn flag_reply(flag_id: i64, flag_type: &str, entry_id: &str) -> (r: String)
    ensures
        r@ == "Created flag "@ + signed_decimal(flag_id) + " ("@ + flag_type@ + ") on "@ + entry_id@,
{
    let id = signed_decimal_text(flag_id);
    let head = cat4("Created flag ", id.as_str(), " (", flag_type);
    cat3(head.as_str(), ") on ", entry_id)
}

/// The tools that can be run.
#[derive(Debug, Clone, Copy, PartialEq, Eq, Structural)]
pub enum Tool {
    /// Full-text search.
    SearchEntries,
    /// Search by meaning.
    SemanticSearch,
    /// A SELECT statement.
    QueryDb,
    /// A new entry.
    CreateEntry,
    /// A changed entry.
    UpdateEntry,
    /// A superseded entry.
    SupersedeEntry,
    /// A stored entity.
    UpdateEntity,
    /// Two entities made one.
    MergeEntity,
    /// A resolved flag.
    ResolveFlag,
    /// A raised flag.
    CreateFlag,
}

/// The name of a tool.
pub open spec fn tool_name(tool: Tool) -> Seq<char> {
    match tool {
        Tool::SearchEntries => "search_entries"@,
        Tool::SemanticSearch => "semantic_search"@,
        Tool::QueryDb => "query_db"@,
        Tool::CreateEntry => "create_entry"@,
        Tool::UpdateEntry => "update_entry"@,
        Tool::SupersedeEntry => "supersede_entry"@,
        Tool::UpdateEntity => "update_entity"@,
        Tool::MergeEntity => "merge_entity"@,
        Tool::ResolveFlag => "resolve_flag"@,
        Tool::CreateFlag => "create_flag"@,
    }
}

/// The tool with a name, or what the model is told where there is none.
pub fn execute_tool(name: &str) -> (r: Result<Tool, String>)
    ensures
        match r {
            Ok(t) => name@ == tool_name(t),
            Err(e) => {
                &&& forall|t: Tool| name@ != #[trigger] tool_name(t)
                &&& e@ == "Unknown tool: "@ + name@
            },
        },
{
    if same_text(name, "search_entries") {
        Ok(Tool::SearchEntries)
    } else if same_text(name, "semantic_search") {
        Ok(Tool::SemanticSearch)
    } else if same_text(name, "query_db") {
        Ok(Tool::QueryDb)
    } else if same_text(name, "create_entry") {
        Ok(Tool::CreateEntry)
    } else if same_text(name, "update_entry") {
        Ok(Tool::UpdateEntry)
    } else if same_text(name, "supersede_entry") {
        Ok(Tool::SupersedeEntry)
    } else if same_text(name, "update_entity") {
        Ok(Tool::UpdateEntity)
    } else if same_text(name, "merge_entity") {
        Ok(Tool::MergeEntity)
    } else if same_text(name, "resolve_flag") {
        Ok(Tool::ResolveFlag)
    } else if same_text(name, "create_flag") {
        Ok(Tool::CreateFlag)
    } else {
        Err(cat2("Unknown tool: ", name))
    }
}

/// Every tool that a model is offered can be carried out.
pub proof fn offered_tools_are_known(i: int)
    requires
        0 <= i < tool_table().len(),
    ensures
        exists|t: Tool| #[trigger] tool_name(t) == tool_table()[i].name,
{
    let table = tool_table();
    assert(table.len() == 9);
    assert(tool_name(Tool::SearchEntries) == table[0].name);
    assert(tool_name(Tool::QueryDb) == table[1].name);
    assert(tool_name(Tool::UpdateEntry) == table[2].name);
    assert(tool_name(Tool::SupersedeEntry) == table[3].name);
    assert(tool_name(Tool::CreateEntry) == table[4].name);
    assert(tool_name(Tool::UpdateEntity) == table[5].name);
    assert(tool_name(Tool::MergeEntity) == table[6].name);
    assert(tool_name(Tool::ResolveFlag) == table[7].name);
    assert(tool_name(Tool::CreateFlag) == table[8].name);
}

/// Where a tool failed outside its own rules.
#[derive(Debug, Clone, Copy, PartialEq, Eq, Structural)]
pub enum ToolFailure {
    /// The database.
    Db,
    /// The full-text search.
    Search,
    /// The statement.
    Sql,
    /// The result could not be written.
    Json,
    /// The keyword index.
    Bm25Init,
    /// The embedding model.
    Embedding,
    /// The vector store.
    VectorSearch,
}

/// How a failure begins.
pub open spec fn failure_prefix(kind: ToolFailure) -> Seq<char> {
    match kind {
        ToolFailure::Db => "DB error: "@,
        ToolFailure::Search => "Search error: "@,
        ToolFailure::Sql => "SQL error: "@,
        ToolFailure::Json => "JSON error: "@,
        ToolFailure::Bm25Init => "BM25 init error: "@,
        ToolFailure::Embedding => "Embedding error: "@,
        ToolFailure::VectorSearch => "Vector search error: "@,
    }
}

/// What the model is told of a failure.
pub fn failure_reply(kind: ToolFailure, error: &str) -> (r: String)
    ensures
        r@ == failure_prefix(kind) + error@,
{
    match kind {
        ToolFailure::Db => cat2("DB error: ", error),
        ToolFailure::Search => cat2("Search error: ", error),
        ToolFailure::Sql => cat2("SQL error: ", error),
        ToolFailure::Json => cat2("JSON error: ", error),
        ToolFailure::Bm25Init => cat2("BM25 init error: ", error),
        ToolFailure::Embedding => cat2("Embedding error: ", error),
        ToolFailure::VectorSearch => cat2("Vector search error: ", error),
    }
}

}
