//! What holds of the markdown memory as a whole: how files are mirrored, found, shown and added to.
use crate::memory::db::Entry;
use crate::memory::markdown_index::{component_tags, is_outdated, mirrored_entry, path_topic};
use crate::memory::markdown_query::{
    all_trimmed, are_recent_dreams, count_kind, daily_note, daily_notes, direct_response, dream_diary,
    dream_section, excerpt_of, file_kind, hit_line, line_matches, matching_line, query_excerpt,
    window_at, with_section, DailyNote, DreamSection, FileKind,
};
use crate::memory::markdown_store::{
    is_markdown_name, path_error, query_terms, search_score, term_points, title_of,
    unscored, MarkdownEntry, ScoredEntry,
};
use crate::text::order::{
    sorting_keeps_members, sorting_orders_and_keeps, stable_sorted, text_before,
};
use crate::text::path::{
    extensions_are_taken_off, is_component, paths_are_made_of_their_components,
};
use crate::text::search::{
    containing_survives_framing, contains, ends_with, lemma_rfind, occurs_at, rfind, starts_with,
    the_middle_is_contained,
};
use crate::text::split::{joined, lines, nonempty};
use crate::text::trim::{lowercase, trimmed, trimmed_end, trimmed_start};
use vstd::prelude::*;
use vstd::string::*;

verus! {

broadcast use vstd::string::group_string_axioms;

/// An entry mirrors its file: its text is that of the file, it names the file and why it was mirrored, and it
/// was updated now. What the file does not say of an entry that was there stays: how sure it is, its status,
/// what supersedes it, when it began and was made, and whether it was collated.
pub proof fn entries_mirror_their_files(
    existing: Option<Entry>,
    new_id: Seq<char>,
    rel_path: Seq<char>,
    content: Seq<char>,
    reason: Seq<char>,
    now: Seq<char>,
)
    ensures
        ({
            let r = mirrored_entry(existing, new_id, rel_path, content, reason, now);
            &&& r.summary_text == content
            &&& r.file_path == rel_path
            &&& r.reason == reason
            &&& r.updated_at == now
            &&& r.topic_key == path_topic(rel_path)
            &&& r.source == "markdown_store"@ && r.entry_type == "markdown_file"@
            &&& existing is None ==> r.id == new_id && r.status == "active"@ && r.created_at == now
                && r.start_timestamp == now && r.end_timestamp == now && r.memory_type == "semantic"@
                && r.superseded_by.len() == 0 && r.collated_at.len() == 0
            &&& existing is Some ==> {
                let e = existing->Some_0;
                &&& r.id == e.id@ && r.created_at == e.created_at@
                &&& r.confidence_bits == e.confidence_bits && r.status == e.status@
                &&& r.superseded_by == e.superseded_by@ && r.collated_at == e.collated_at@
                &&& r.start_timestamp == e.start_timestamp@ && r.end_timestamp == e.end_timestamp@
                &&& r.memory_type == e.memory_type@ && r.image_path == e.image_path@
                &&& r.message_count == e.message_count && r.source_entry_ids == e.source_entry_ids@
            }
        }),
{
}

/// The tags of a path are its directories and the name of its file, in order.
pub proof fn tags_are_the_parts_of_the_path(a: Seq<Seq<char>>, b: Seq<Seq<char>>, name: Seq<char>)
    requires
        name.len() > 0,
    ensures
        component_tags(a + b) == component_tags(a) + component_tags(b),
        !ends_with(name, ".md"@) ==> component_tags(seq![name]) == seq![name],
        component_tags(seq![name + ".md"@]) == seq![name],
    decreases b.len(),
{
    reveal_strlit(".md");
    reveal_with_fuel(component_tags, 2);
    let one = seq![name];
    let file = seq![name + ".md"@];
    assert(one.drop_last() =~= Seq::<Seq<char>>::empty());
    assert(file.drop_last() =~= Seq::<Seq<char>>::empty());
    let f = name + ".md"@;
    assert(f.subrange(f.len() - 3, f.len() as int) =~= ".md"@);
    assert(f.take(f.len() - 3) =~= name);
    assert(component_tags(file) =~= seq![name]);
    if !ends_with(name, ".md"@) {
        assert(component_tags(one) =~= seq![name]);
    }
    if b.len() == 0 {
        assert(a + b =~= a);
        assert(component_tags(a) + component_tags(b) =~= component_tags(a));
    } else {
        tags_are_the_parts_of_the_path(a, b.drop_last(), name);
        assert((a + b).drop_last() =~= a + b.drop_last());
        assert((a + b).last() == b.last());
        assert(component_tags(a + b) =~= component_tags(a) + component_tags(b));
    }
}

/// The topic of a file is its name without the extension, in whatever directory it lies.
pub proof fn topics_are_file_names(dirs: Seq<Seq<char>>, name: Seq<char>)
    requires
        forall|i: int| 0 <= i < dirs.len() ==> is_component(#[trigger] dirs[i]),
        name.len() > 0,
        !name.contains('/'),
    ensures
        path_topic(joined(dirs.push(name + ".md"@), seq!['/'])) == name,
{
    reveal_strlit(".md");
    reveal_strlit(".");
    reveal_strlit("..");
    let file = name + ".md"@;
    let all = dirs.push(file);
    assert(file.last() == 'd');
    assert(!file.contains('/')) by {
        if file.contains('/') {
            let k = choose|k: int| 0 <= k < file.len() && file[k] == '/';
            assert(name[k] == '/');
        }
    }
    assert(file != "."@ && file != ".."@) by {
        assert("."@.last() == '.' && ".."@.last() == '.');
    }
    assert forall|i: int| 0 <= i < all.len() implies is_component(#[trigger] all[i]) by {
        if i < dirs.len() {
            assert(is_component(dirs[i]));
        }
    }
    paths_are_made_of_their_components(all);
    let md = seq!['m', 'd'];
    assert(file =~= name + "."@ + md);
    extensions_are_taken_off(name, md);
}

/// An entry is brought up to date where it is missing or older than its file, and not where it is as new.
pub proof fn newer_files_are_mirrored(file: (i64, u32), entry: (i64, u32))
    ensures
        is_outdated(false, Some(file), Some(entry)),
        is_outdated(true, None, Some(entry)),
        is_outdated(true, Some(file), None),
        file.0 > entry.0 ==> is_outdated(true, Some(file), Some(entry)),
        file.0 == entry.0 && file.1 > entry.1 ==> is_outdated(true, Some(file), Some(entry)),
        file.0 < entry.0 ==> !is_outdated(true, Some(file), Some(entry)),
        file == entry ==> !is_outdated(true, Some(file), Some(entry)),
{
}

/// A file speaks of a query: its path or its text holds the query or one of its terms.
pub open spec fn speaks_of(entry: MarkdownEntry, query: Seq<char>, terms: Seq<Seq<char>>) -> bool {
    let path = lowercase(entry.path@);
    let text = lowercase(entry.content@);
    let title = lowercase(title_of(lines(entry.content@)));
    ||| contains(path, query) || contains(title, query) || contains(text, query)
    ||| exists|k: int|
        0 <= k < terms.len() && (contains(path, #[trigger] terms[k]) || contains(title, terms[k])
            || contains(text, terms[k]))
}

proof fn lemma_term_points(
    path: Seq<char>,
    title: Seq<char>,
    text: Seq<char>,
    terms: Seq<Seq<char>>,
)
    ensures
        term_points(path, title, text, terms) >= 0,
        (term_points(path, title, text, terms) > 0) == exists|k: int|
            0 <= k < terms.len() && (contains(path, #[trigger] terms[k]) || contains(title, terms[k])
                || contains(text, terms[k])),
    decreases terms.len(),
{
    if terms.len() > 0 {
        let t = terms.drop_last();
        lemma_term_points(path, title, text, t);
        if term_points(path, title, text, t) > 0 {
            let k = choose|k: int|
                0 <= k < t.len() && (contains(path, #[trigger] t[k]) || contains(title, t[k])
                    || contains(text, t[k]));
            assert(terms[k] == t[k]);
        }
        assert(terms[terms.len() - 1] == terms.last());
        if exists|k: int|
            0 <= k < terms.len() && (contains(path, #[trigger] terms[k]) || contains(title, terms[k])
                || contains(text, terms[k])) {
            let k = choose|k: int|
                0 <= k < terms.len() && (contains(path, #[trigger] terms[k]) || contains(
                    title,
                    terms[k],
                ) || contains(text, terms[k]));
            if k < t.len() {
                assert(t[k] == terms[k]);
            }
        }
    }
}

/// A file scores just when it speaks of the query. The whole query counts 50 in the path, 40 in the title and
/// 30 in the text; each term counts 12, 10 and 4; all of it is added up.
pub proof fn scores_add_up(
    entry: MarkdownEntry,
    query: Seq<char>,
    terms: Seq<Seq<char>>,
    term: Seq<char>,
)
    ensures
        search_score(entry, query, terms) >= 0,
        (search_score(entry, query, terms) > 0) == speaks_of(entry, query, terms),
        ({
            let path = lowercase(entry.path@);
            let title = lowercase(title_of(lines(entry.content@)));
            let text = lowercase(entry.content@);
            &&& search_score(entry, query, Seq::empty()) == (if contains(path, query) {
                50int
            } else {
                0
            }) + (if contains(title, query) {
                40int
            } else {
                0
            }) + (if contains(text, query) {
                30int
            } else {
                0
            })
            &&& search_score(entry, query, terms.push(term)) == search_score(entry, query, terms) + (
            if contains(path, term) {
                12int
            } else {
                0
            }) + (if contains(title, term) {
                10int
            } else {
                0
            }) + (if contains(text, term) {
                4int
            } else {
                0
            })
        }),
{
    let path = lowercase(entry.path@);
    let title = lowercase(title_of(lines(entry.content@)));
    let text = lowercase(entry.content@);
    lemma_term_points(path, title, text, terms);
    assert(terms.push(term).drop_last() =~= terms);
    assert(term_points(path, title, text, Seq::empty()) == 0);
}

/// The title of a file is its first heading.
pub proof fn titles_are_first_headings(before: Seq<Seq<char>>, heading: Seq<char>, after: Seq<Seq<char>>)
    requires
        forall|i: int|
            0 <= i < before.len() ==> !starts_with(trimmed_start(#[trigger] before[i]), "#"@),
        starts_with(trimmed_start(heading), "#"@),
    ensures
        title_of(before + seq![heading] + after) == heading,
        title_of(before).len() == 0,
    decreases before.len(),
{
    let all = before + seq![heading] + after;
    if before.len() > 0 {
        let rest = before.skip(1);
        assert(!starts_with(trimmed_start(before[0]), "#"@));
        assert forall|i: int| 0 <= i < rest.len() implies !starts_with(
            trimmed_start(#[trigger] rest[i]),
            "#"@,
        ) by {
            assert(rest[i] == before[i + 1]);
        }
        titles_are_first_headings(rest, heading, after);
        assert(all.skip(1) =~= rest + seq![heading] + after);
    }
}

proof fn lemma_matches(entries: Seq<MarkdownEntry>, query: Seq<char>)
    ensures
        forall|k: int|
            0 <= k < crate::memory::markdown_store::matches(entries, query).len() ==> {
                let m = #[trigger] crate::memory::markdown_store::matches(entries, query)[k];
                &&& entries.contains(m.entry)
                &&& speaks_of(m.entry, query, query_terms(query))
                &&& m.score == search_score(m.entry, query, query_terms(query)) as u128
            },
        forall|i: int|
            0 <= i < entries.len() && speaks_of(#[trigger] entries[i], query, query_terms(query))
                ==> exists|k: int|
                0 <= k < crate::memory::markdown_store::matches(entries, query).len() && (
                #[trigger] crate::memory::markdown_store::matches(entries, query)[k]).entry
                    == entries[i],
    decreases entries.len(),
{
    if entries.len() > 0 {
        let e = entries.drop_last();
        let x = entries.last();
        let q = query_terms(query);
        lemma_matches(e, query);
        scores_add_up(x, query, q, Seq::empty());
        let t = crate::memory::markdown_store::matches(e, query);
        let m = crate::memory::markdown_store::matches(entries, query);
        assert forall|k: int| 0 <= k < m.len() implies {
            let y = #[trigger] m[k];
            &&& entries.contains(y.entry)
            &&& speaks_of(y.entry, query, q)
            &&& y.score == search_score(y.entry, query, q) as u128
        } by {
            if k < t.len() {
                assert(m[k] == t[k]);
                let i = choose|i: int| 0 <= i < e.len() && e[i] == t[k].entry;
                assert(entries[i] == e[i]);
            } else {
                assert(entries[entries.len() - 1] == x);
            }
        }
        assert forall|i: int|
            0 <= i < entries.len() && speaks_of(#[trigger] entries[i], query, q) implies exists|k: int|
            0 <= k < m.len() && (#[trigger] m[k]).entry == entries[i] by {
            if i < e.len() {
                assert(e[i] == entries[i]);
                let k = choose|k: int| 0 <= k < t.len() && (#[trigger] t[k]).entry == e[i];
                assert(m[k] == t[k]);
            } else {
                assert(m[m.len() - 1].entry == x);
            }
        }
    }
}

/// A search finds the files that speak of the query, all of them and no others, the best first and equally
/// good ones by path.
pub proof fn searches_find_what_speaks_of_the_query(
    entries: Seq<MarkdownEntry>,
    query: Seq<char>,
    e: MarkdownEntry,
    i: int,
    j: int,
)
    requires
        forall|k: int|
            0 <= k < entries.len() ==> search_score(
                #[trigger] entries[k],
                lowercase(query),
                query_terms(lowercase(query)),
            ) <= u128::MAX,
    ensures
        ({
            let q = lowercase(query);
            let r = unscored(stable_sorted(crate::memory::markdown_store::matches(stable_sorted(entries), q)));
            &&& r.contains(e) == (entries.contains(e) && speaks_of(e, q, query_terms(q)))
            &&& 0 <= i < j < r.len() ==> {
                let a = search_score(r[i], q, query_terms(q));
                let b = search_score(r[j], q, query_terms(q));
                a > b || a == b && !text_before(r[j].path@, r[i].path@)
            }
        }),
{
    let q = lowercase(query);
    let all = stable_sorted(entries);
    let m = crate::memory::markdown_store::matches(all, q);
    let s = stable_sorted(m);
    let r = unscored(s);
    lemma_matches(all, q);
    sorting_orders_and_keeps(m);
    sorting_keeps_members(entries, e);
    if r.contains(e) {
        let k = choose|k: int| 0 <= k < r.len() && r[k] == e;
        assert(s.contains(s[k]));
        sorting_keeps_members(m, s[k]);
        let n = choose|n: int| 0 <= n < m.len() && m[n] == s[k];
        assert(m[n].entry == e);
    }
    if entries.contains(e) && speaks_of(e, q, query_terms(q)) {
        let n = choose|n: int| 0 <= n < all.len() && all[n] == e;
        assert(speaks_of(all[n], q, query_terms(q)));
        let k = choose|k: int| 0 <= k < m.len() && (#[trigger] m[k]).entry == all[n];
        sorting_keeps_members(m, m[k]);
        assert(m.contains(m[k]));
        let p = choose|p: int| 0 <= p < s.len() && s[p] == m[k];
        assert(r[p] == e);
    }
    if 0 <= i < j < r.len() {
        lemma_found_score(entries, q, s, i);
        lemma_found_score(entries, q, s, j);
        let t = s[j];
        assert(!(s[j].score > s[i].score || (s[j].score == s[i].score && text_before(
            s[j].entry.path@,
            s[i].entry.path@,
        ))));
    }
}

proof fn lemma_found_score(entries: Seq<MarkdownEntry>, q: Seq<char>, s: Seq<ScoredEntry>, i: int)
    requires
        s == stable_sorted(crate::memory::markdown_store::matches(stable_sorted(entries), q)),
        0 <= i < s.len(),
        forall|k: int|
            0 <= k < entries.len() ==> search_score(#[trigger] entries[k], q, query_terms(q))
                <= u128::MAX,
    ensures
        s[i].score == search_score(s[i].entry, q, query_terms(q)),
{
    let all = stable_sorted(entries);
    let m = crate::memory::markdown_store::matches(all, q);
    lemma_matches(all, q);
    assert(s.contains(s[i]));
    sorting_keeps_members(m, s[i]);
    let n = choose|n: int| 0 <= n < m.len() && m[n] == s[i];
    assert(all.contains(m[n].entry));
    sorting_keeps_members(entries, m[n].entry);
    let k = choose|k: int| 0 <= k < entries.len() && entries[k] == m[n].entry;
    scores_add_up(entries[k], q, query_terms(q), Seq::empty());
}

/// The files of the store are listed by path.
pub proof fn files_are_listed_by_path(entries: Seq<MarkdownEntry>, i: int, j: int, e: MarkdownEntry)
    ensures
        stable_sorted(entries).len() == entries.len(),
        stable_sorted(entries).contains(e) == entries.contains(e),
        0 <= i < j < entries.len() ==> !text_before(
            stable_sorted(entries)[j].path@,
            stable_sorted(entries)[i].path@,
        ),
{
    sorting_orders_and_keeps(entries);
    sorting_keeps_members(entries, e);
    if 0 <= i < j < entries.len() {
        let t = stable_sorted(entries)[j];
        let u = stable_sorted(entries)[i];
    }
}

/// A file is a markdown file just when its name is something followed by `.md`.
pub proof fn markdown_files_end_in_md(name: Seq<char>, stem: Seq<char>)
    ensures
        stem.len() > 0 ==> is_markdown_name(stem + ".md"@),
        is_markdown_name(name) ==> ends_with(name, ".md"@) && name.len() > 3,
{
    reveal_strlit(".");
    reveal_strlit("md");
    reveal_strlit(".md");
    let f = stem + ".md"@;
    if stem.len() > 0 {
        lemma_rfind(f, "."@);
        assert(f.subrange(stem.len() as int, (stem.len() + 1) as int) =~= "."@);
        assert(occurs_at(f, "."@, stem.len() as int));
        let i = rfind(f, "."@)->Some_0;
        assert(f.subrange(i, i + 1)[0] == f[i]);
        assert(f[f.len() - 1] == 'd' && f[f.len() - 2] == 'm');
        assert(i == stem.len());
        assert(f.skip(i + 1) =~= "md"@);
    }
    if is_markdown_name(name) {
        lemma_rfind(name, "."@);
        let i = rfind(name, "."@)->Some_0;
        assert(name.subrange(i, i + 1)[0] == name[i]);
        assert(name.skip(i + 1).len() == 2);
        assert(name.skip(i + 1)[0] == name[i + 1] && name.skip(i + 1)[1] == name[i + 2]);
        assert(name.subrange(name.len() - 3, name.len() as int) =~= ".md"@);
    }
}

/// A path into the store is refused just when it is blank, absolute, or steps up.
pub proof fn paths_out_of_the_store_are_refused(rel_path: Seq<char>, parts: Seq<Seq<char>>)
    requires
        parts.len() > 0,
        forall|i: int| 0 <= i < parts.len() ==> is_component(#[trigger] parts[i]),
    ensures
        trimmed(rel_path).len() == 0 ==> path_error(rel_path) is Some,
        starts_with(trimmed(rel_path), "/"@) ==> path_error(rel_path) is Some,
        trimmed(rel_path) == joined(parts, seq!['/']) ==> (path_error(rel_path) is Some)
            == parts.contains(".."@),
{
    reveal_strlit("/");
    paths_are_made_of_their_components(parts);
    let path = joined(parts, seq!['/']);
    if trimmed(rel_path) == path {
        assert(is_component(parts[0]));
        lemma_first_char(parts);
        if starts_with(path, "/"@) {
            assert(path.subrange(0, 1)[0] == path[0]);
            assert(parts[0].contains(parts[0][0]));
        }
    }
}

proof fn lemma_first_char(parts: Seq<Seq<char>>)
    requires
        parts.len() > 0,
        parts[0].len() > 0,
    ensures
        joined(parts, seq!['/']).len() > 0,
        joined(parts, seq!['/'])[0] == parts[0][0],
    decreases parts.len(),
{
    if parts.len() > 1 {
        lemma_first_char(parts.drop_last());
    }
}

/// Files are counted by the directory they lie in; the dream diary is not counted.
pub proof fn files_are_counted_by_directory(files: Seq<MarkdownEntry>, rest: Seq<char>)
    ensures
        file_kind("daily/"@ + rest) is Daily,
        file_kind("images/"@ + rest) is Image,
        file_kind("DREAMS.md"@) is Dreams,
        count_kind(files, FileKind::Daily) == files.filter(
            |e: MarkdownEntry| starts_with(e.path@, "daily/"@),
        ).len(),
        count_kind(files, FileKind::Image) == files.filter(
            |e: MarkdownEntry| starts_with(e.path@, "images/"@),
        ).len(),
        count_kind(files, FileKind::Daily) + count_kind(files, FileKind::Image) + count_kind(
            files,
            FileKind::Topic,
        ) == files.filter(|e: MarkdownEntry| e.path@ != "DREAMS.md"@).len(),
    decreases files.len(),
{
    reveal_strlit("daily/");
    reveal_strlit("images/");
    reveal_strlit("DREAMS.md");
    assert(("daily/"@ + rest).subrange(0, 6) =~= "daily/"@);
    assert(("images/"@ + rest).subrange(0, 7) =~= "images/"@);
    assert(("daily/"@ + rest)[0] == 'd' && "DREAMS.md"@[0] == 'D');
    assert(("images/"@ + rest)[0] == 'i');
    if starts_with("images/"@ + rest, "daily/"@) {
        assert(("images/"@ + rest).subrange(0, 6)[0] == 'i');
    }
    reveal(Seq::filter);
    if files.len() > 0 {
        files_are_counted_by_directory(files.drop_last(), rest);
        let p = files.last().path@;
        if starts_with(p, "daily/"@) {
            assert(p.subrange(0, 6)[0] == p[0]);
        }
        if starts_with(p, "images/"@) {
            assert(p.subrange(0, 7)[0] == p[0]);
        }
    }
}

/// An excerpt is no longer than asked for, but for the dots that show that it was cut; a text that fits is
/// shown whole.
pub proof fn excerpts_are_short(text: Seq<char>, limit: int)
    requires
        limit >= 0,
    ensures
        excerpt_of(text, limit).len() <= limit + 3,
        ({
            let whole = joined(all_trimmed(lines(text)), " "@);
            &&& whole.len() <= limit ==> excerpt_of(text, limit) == whole
            &&& whole.len() > limit ==> excerpt_of(text, limit) == whole.take(limit) + "..."@
        }),
{
    reveal_strlit("...");
}

/// The line that is shown for a query is the first one that speaks of it.
pub proof fn the_first_line_that_matches_is_shown(
    text: Seq<char>,
    query: Seq<char>,
    limit: int,
    i: int,
)
    requires
        trimmed(query).len() > 0,
        lowercase(trimmed(query)).len() > 0,
        0 <= i < lines(text).len(),
        line_matches(lines(text)[i], lowercase(trimmed(query)), query_terms(lowercase(trimmed(query)))),
        forall|k: int|
            0 <= k < i ==> !line_matches(
                #[trigger] lines(text)[k],
                lowercase(trimmed(query)),
                query_terms(lowercase(trimmed(query))),
            ),
    ensures
        query_excerpt(text, query, limit) == excerpt_of(window_at(lines(text), i), limit),
        contains(window_at(lines(text), i), trimmed(lines(text)[i])),
{
    let q = lowercase(trimmed(query));
    let all = lines(text);
    lemma_matching_line(all, q, query_terms(q), 0, i);
    let start = if i == 0 {
        0
    } else {
        i - 1
    };
    let end = if i + 2 <= all.len() {
        i + 2
    } else {
        all.len() as int
    };
    let part = all.subrange(start, end);
    let t = all_trimmed(part);
    assert(t[i - start] == trimmed(all[i]));
    let pred = |x: Seq<char>| x.len() > 0;
    t.lemma_filter_contains(pred, i - start);
    let w = nonempty(t);
    let k = choose|k: int| 0 <= k < w.len() && w[k] == trimmed(all[i]);
    lemma_joined_holds(w, " "@, k);
}

proof fn lemma_matching_line(
    all: Seq<Seq<char>>,
    q: Seq<char>,
    terms: Seq<Seq<char>>,
    from: int,
    i: int,
)
    requires
        0 <= from <= i < all.len(),
        line_matches(all[i], q, terms),
        forall|k: int| from <= k < i ==> !line_matches(#[trigger] all[k], q, terms),
    ensures
        matching_line(all, q, terms, from) == Some(i),
    decreases i - from,
{
    if from < i {
        assert(!line_matches(all[from], q, terms));
        lemma_matching_line(all, q, terms, from + 1, i);
    }
}

proof fn lemma_joined_holds(parts: Seq<Seq<char>>, sep: Seq<char>, k: int)
    requires
        0 <= k < parts.len(),
    ensures
        contains(joined(parts, sep), parts[k]),
    decreases parts.len(),
{
    let e = Seq::<char>::empty();
    let x = parts[k];
    if parts.len() == 1 {
        assert(e + x + e =~= x);
        the_middle_is_contained(e, x, e);
    } else {
        let t = joined(parts.drop_last(), sep);
        if k < parts.len() - 1 {
            lemma_joined_holds(parts.drop_last(), sep, k);
            containing_survives_framing(e, t, sep + parts.last(), x);
            assert(e + t + (sep + parts.last()) =~= t + sep + parts.last());
        } else {
            the_middle_is_contained(t + sep, x, e);
            assert(t + sep + x + e =~= t + sep + x);
        }
    }
}

/// What is shown of a search names the query and every file that was found, up to ten of them, each with its
/// excerpt.
pub proof fn responses_show_the_hits(query: Seq<char>, hits: Seq<MarkdownEntry>, i: int)
    ensures
        hits.len() == 0 ==> contains(direct_response(query, hits), query),
        0 <= i < hits.len() && i < 10 ==> contains(direct_response(query, hits), hits[i].path@)
            && contains(
            direct_response(query, hits),
            query_excerpt(hits[i].content@, query, 220),
        ),
        hits.len() > 10 ==> direct_response(query, hits) == direct_response(query, hits.take(10)),
{
    if hits.len() == 0 {
        the_middle_is_contained("No memory files matched '"@, query, "'."@);
    }
    if 0 <= i < hits.len() && i < 10 {
        let n = if hits.len() < 10 {
            hits.len()
        } else {
            10nat
        };
        let head = "Top memory matches for '"@ + query + "':"@;
        let parts = seq![head] + Seq::new(n, |k: int| hit_line(hits[k], query));
        assert(parts[i + 1] == hit_line(hits[i], query));
        lemma_joined_holds(parts, "\n"@, i + 1);
        let x = query_excerpt(hits[i].content@, query, 220);
        let line = hit_line(hits[i], query);
        let p = hits[i].path@;
        assert(line =~= "- "@ + p + ("\n  "@ + x));
        the_middle_is_contained("- "@, p, "\n  "@ + x);
        let e = Seq::<char>::empty();
        assert(line =~= ("- "@ + p + "\n  "@) + x + e);
        the_middle_is_contained("- "@ + p + "\n  "@, x, e);
        lemma_contains_transitive(direct_response(query, hits), line, p);
        lemma_contains_transitive(direct_response(query, hits), line, x);
    }
    if hits.len() > 10 {
        let ten = hits.take(10);
        assert(Seq::new(10, |k: int| hit_line(hits[k], query)) =~= Seq::new(
            10,
            |k: int| hit_line(ten[k], query),
        ));
    }
}

proof fn lemma_contains_transitive(s: Seq<char>, part: Seq<char>, pat: Seq<char>)
    requires
        contains(s, part),
        contains(part, pat),
    ensures
        contains(s, pat),
{
    let i = choose|i: int| #[trigger] occurs_at(s, part, i);
    let (a, b) = (s.take(i), s.skip(i + part.len()));
    assert(s =~= a + part + b);
    containing_survives_framing(a, part, b, pat);
}

/// A section is added behind what a file holds: nothing before it changes but white space at the end, and
/// behind it stand the heading and the text.
pub proof fn sections_stand_behind_what_was_there(
    existing: Seq<char>,
    heading: Seq<char>,
    body: Seq<char>,
)
    ensures
        ({
            let kept = trimmed_end(existing);
            let r = with_section(existing, heading, body);
            &&& starts_with(r, kept)
            &&& ends_with(r, "## "@ + heading + "\n\n"@ + trimmed(body) + "\n"@)
            &&& r.len() <= kept.len() + 2 + 3 + heading.len() + 2 + trimmed(body).len() + 1
        }),
{
    reveal_strlit("\n\n");
    reveal_strlit("## ");
    reveal_strlit("\n");
    let kept = trimmed_end(existing);
    let r = with_section(existing, heading, body);
    let tail = "## "@ + heading + "\n\n"@ + trimmed(body) + "\n"@;
    assert(r.subrange(0, kept.len() as int) =~= kept);
    assert(r.subrange(r.len() - tail.len(), r.len() as int) =~= tail);
}

/// A note stands in the notes of its day behind all others, under its time and heading; and so does a dream
/// in the diary, under its moment and title.
pub proof fn notes_and_dreams_are_added(
    existing: &str,
    date: Seq<char>,
    time: Seq<char>,
    heading: Seq<char>,
    body: Seq<char>,
)
    ensures
        starts_with(daily_note(Some(existing), date, time, heading, body), trimmed_end(existing@)),
        ends_with(
            daily_note(Some(existing), date, time, heading, body),
            "## "@ + (time + " - "@ + heading) + "\n\n"@ + trimmed(body) + "\n"@,
        ),
        ends_with(
            daily_note(None, date, time, heading, body),
            "## "@ + (time + " - "@ + heading) + "\n\n"@ + trimmed(body) + "\n"@,
        ),
        starts_with(dream_diary(Some(existing), time, heading, body), trimmed_end(existing@)),
        ends_with(
            dream_diary(Some(existing), time, heading, body),
            "## "@ + (time + " - "@ + heading) + "\n\n"@ + trimmed(body) + "\n"@,
        ),
        ends_with(
            dream_diary(None, time, heading, body),
            "## "@ + (time + " - "@ + heading) + "\n\n"@ + trimmed(body) + "\n"@,
        ),
{
    let title = time + " - "@ + heading;
    sections_stand_behind_what_was_there(existing@, title, body);
    sections_stand_behind_what_was_there("# Daily Notes for "@ + date + "\n"@, title, body);
    sections_stand_behind_what_was_there("# Dreams\n"@, title, body);
}

/// Dreams are shown with the latest first, no more than asked for, and all of them where they fit.
pub proof fn the_latest_dreams_are_shown(
    diary: Seq<char>,
    limit: nat,
    sections: Seq<DreamSection>,
    shown: Seq<Seq<char>>,
    i: int,
    j: int,
    x: DreamSection,
)
    requires
        are_recent_dreams(diary, limit, sections, shown),
    ensures
        shown.len() <= limit,
        sections.len() <= limit ==> shown.len() == sections.len(),
        sections.len() > limit ==> shown.len() == limit,
        0 <= i < j < shown.len() ==> !text_before(shown[i], shown[j]),
        sections.len() <= limit && sections.contains(x) ==> shown.contains(x.text@),
{
    sorting_orders_and_keeps(sections);
    let s = stable_sorted(sections);
    if 0 <= i < j < shown.len() {
        let (a, b) = (s[i], s[j]);
        assert(shown[i] == a.text@ && shown[j] == b.text@);
    }
    if sections.len() <= limit && sections.contains(x) {
        sorting_keeps_members(sections, x);
        let k = choose|k: int| 0 <= k < s.len() && s[k] == x;
        assert(shown[k] == x.text@);
    }
}

/// A part of the diary is a dream just when there is something in it besides the heading of the diary.
pub proof fn parts_of_the_diary_are_dreams(text: Seq<char>)
    requires
        trimmed(text) == text,
        text.len() > 0,
        !starts_with(text, "# Dreams"@),
    ensures
        dream_section(text) == Some("## "@ + text),
        dream_section("# Dreams"@) is None,
        dream_section(Seq::empty()) is None,
{
    reveal_strlit("# Dreams");
    let d = "# Dreams"@;
    assert(text != d) by {
        if text == d {
            assert(text.subrange(0, 8) =~= d);
        }
    }
}

/// The daily notes are the files below `daily/`, and the latest come first.
pub proof fn daily_notes_are_those_of_the_days(files: Seq<MarkdownEntry>, e: MarkdownEntry, i: int, j: int)
    ensures
        stable_sorted(daily_notes(files)).contains(DailyNote { entry: e }) == (files.contains(e)
            && starts_with(e.path@, "daily/"@)),
        0 <= i < j < daily_notes(files).len() ==> !text_before(
            stable_sorted(daily_notes(files))[i].entry.path@,
            stable_sorted(daily_notes(files))[j].entry.path@,
        ),
{
    let n = daily_notes(files);
    let s = stable_sorted(n);
    sorting_orders_and_keeps(n);
    sorting_keeps_members(n, DailyNote { entry: e });
    lemma_daily_notes(files, e);
    if 0 <= i < j < n.len() {
        let (a, b) = (s[i], s[j]);
    }
}

proof fn lemma_daily_notes(files: Seq<MarkdownEntry>, e: MarkdownEntry)
    ensures
        daily_notes(files).contains(DailyNote { entry: e }) == (files.contains(e) && starts_with(
            e.path@,
            "daily/"@,
        )),
    decreases files.len(),
{
    let x = DailyNote { entry: e };
    let n = daily_notes(files);
    if files.len() > 0 {
        let f = files.drop_last();
        lemma_daily_notes(f, e);
        let m = daily_notes(f);
        if n.contains(x) {
            let k = choose|k: int| 0 <= k < n.len() && n[k] == x;
            if k < m.len() {
                assert(m[k] == x);
                let i = choose|i: int| 0 <= i < f.len() && f[i] == e;
                assert(files[i] == e);
            } else {
                assert(files[files.len() - 1] == e);
            }
        }
        if files.contains(e) && starts_with(e.path@, "daily/"@) {
            let i = choose|i: int| 0 <= i < files.len() && files[i] == e;
            if i < f.len() {
                assert(f[i] == e);
                let k = choose|k: int| 0 <= k < m.len() && m[k] == x;
                assert(n[k] == x);
            } else {
                assert(n[n.len() - 1] == x);
            }
        }
    }
}

}
