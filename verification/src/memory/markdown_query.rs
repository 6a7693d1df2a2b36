//! Reading the markdown memory: status, search results, daily notes and dreams.
use crate::clock::{moment_formatted, Moment};
use crate::memory::markdown_store::{query_terms, tokenize_query, MarkdownEntry};
use crate::text::chars::{to_chars, to_text};
use crate::text::compose::{cat2, cat3, cat4, option_text, same_text};
use crate::text::order::{
    is_before, sort_ranked, stable_sorted, text_before, text_order_asymmetric,
    text_order_not_before_transitive, Ranked,
};
use crate::text::search::{
    contains, contains_text, slice_text, starts_with, starts_with_text,
};
use crate::text::split::{
    join_texts, joined, keep_nonempty, lemma_parts_concat, lemma_parts_push, lines, nonempty,
    parts_from, split_lines, split_on, texts,
};
use crate::text::trim::{
    lowercase, to_lowercase, trim_end_text, trim_text, trimmed, trimmed_end,
};
use vstd::prelude::*;
use vstd::string::*;

verus! {

broadcast use vstd::string::group_string_axioms;

/// How many hits are shown.
pub const MAX_DIRECT_HITS: usize = 10;

/// How many files the memory holds.
#[derive(Debug, Clone, Copy, PartialEq, Eq, Structural)]
pub struct MemoryStatus {
    /// All files.
    pub total_files: usize,
    /// Files about topics.
    pub topic_files: usize,
    /// Daily notes.
    pub daily_files: usize,
    /// Files about images.
    pub image_files: usize,
}

/// The kinds of memory files.
#[derive(Debug)]
pub enum FileKind {
    /// The dream diary, which is not counted.
    Dreams,
    /// A daily note.
    Daily,
    /// A file about an image.
    Image,
    /// A file about a topic.
    Topic,
}

/// The kind of the file at a path.
pub open spec fn file_kind(path: Seq<char>) -> FileKind {
    if path == "DREAMS.md"@ {
        FileKind::Dreams
    } else if starts_with(path, "daily/"@) {
        FileKind::Daily
    } else if starts_with(path, "images/"@) {
        FileKind::Image
    } else {
        FileKind::Topic
    }
}

/// How many of the files are of a kind.
pub open spec fn count_kind(files: Seq<MarkdownEntry>, kind: FileKind) -> nat {
    files.filter(|e: MarkdownEntry| file_kind(e.path@) == kind).len()
}

/// Counts the files of the memory. The dream diary is not counted.
pub fn memory_status(files: &Vec<MarkdownEntry>) -> (r: MemoryStatus)
    ensures
        r.daily_files == count_kind(files@, FileKind::Daily),
        r.image_files == count_kind(files@, FileKind::Image),
        r.topic_files == count_kind(files@, FileKind::Topic),
        r.total_files == r.daily_files + r.image_files + r.topic_files,
        r.total_files + count_kind(files@, FileKind::Dreams) == files@.len(),
{
    let mut status = MemoryStatus {
        total_files: 0,
        topic_files: 0,
        daily_files: 0,
        image_files: 0,
    };
    let mut i: usize = 0;
    proof {
        reveal(Seq::filter);
    }
    while i < files.len()
        invariant
            i <= files.len(),
            status.daily_files == count_kind(files@.take(i as int), FileKind::Daily),
            status.image_files == count_kind(files@.take(i as int), FileKind::Image),
            status.topic_files == count_kind(files@.take(i as int), FileKind::Topic),
            status.total_files == status.daily_files + status.image_files + status.topic_files,
            status.total_files + count_kind(files@.take(i as int), FileKind::Dreams) == i,
        decreases files.len() - i,
    {
        proof {
            reveal(Seq::filter);
            assert(files@.take(i + 1).drop_last() =~= files@.take(i as int));
            assert(files@.take(i + 1).last() == files@[i as int]);
        }
        let path = files[i].path.as_str();
        if !same_text(path, "DREAMS.md") {
            status.total_files = status.total_files + 1;
            if starts_with_text(path, "daily/") {
                status.daily_files = status.daily_files + 1;
            } else if starts_with_text(path, "images/") {
                status.image_files = status.image_files + 1;
            } else {
                status.topic_files = status.topic_files + 1;
            }
        }
        i += 1;
    }
    proof {
        assert(files@.take(i as int) =~= files@);
    }
    status
}

/// The first `limit` characters of a text.
pub open spec fn first_chars(s: Seq<char>, limit: int) -> Seq<char> {
    if s.len() <= limit {
        s
    } else {
        s.take(limit)
    }
}

/// The first `limit` characters of a text.
pub fn truncate_chars(text: &str, limit: usize) -> (r: String)
    ensures
        r@ == first_chars(text@, limit as int),
{
    let v = to_chars(text);
    if v.len() <= limit {
        let s = to_text(&v, 0, v.len());
        assert(s@ =~= text@);
        s
    } else {
        let s = to_text(&v, 0, limit);
        assert(s@ =~= text@.take(limit as int));
        s
    }
}

/// The texts trimmed.
pub open spec fn all_trimmed(s: Seq<Seq<char>>) -> Seq<Seq<char>> {
    Seq::new(s.len(), |i: int| trimmed(s[i]))
}

/// The text on one line, cut after `limit` characters.
pub open spec fn excerpt_of(text: Seq<char>, limit: int) -> Seq<char> {
    let t = joined(all_trimmed(lines(text)), " "@);
    if t.len() > limit {
        first_chars(t, limit) + "..."@
    } else {
        t
    }
}

fn trim_all(v: &Vec<String>) -> (r: Vec<String>)
    ensures
        texts(r@) == all_trimmed(texts(v@)),
{
    let mut out: Vec<String> = Vec::new();
    let mut i: usize = 0;
    while i < v.len()
        invariant
            i <= v.len(),
            out.len() == i,
            forall|k: int| 0 <= k < i ==> #[trigger] out@[k]@ == trimmed(v@[k]@),
        decreases v.len() - i,
    {
        out.push(trim_text(v[i].as_str()));
        i += 1;
    }
    assert(texts(out@) =~= all_trimmed(texts(v@)));
    out
}

/// The text on one line, cut after `limit` characters.
pub fn excerpt(text: &str, limit: usize) -> (r: String)
    ensures
        r@ == excerpt_of(text@, limit as int),
{
    let t = join_texts(&trim_all(&split_lines(text)), " ");
    if t.as_str().unicode_len() > limit {
        cat2(truncate_chars(t.as_str(), limit).as_str(), "...")
    } else {
        t
    }
}

/// The line speaks of the query: in lower case it holds the query or one of its terms.
pub open spec fn line_matches(line: Seq<char>, query: Seq<char>, terms: Seq<Seq<char>>) -> bool {
    let lower = lowercase(trimmed(line));
    &&& trimmed(line).len() > 0
    &&& contains(lower, query) || exists|k: int|
        0 <= k < terms.len() && contains(lower, #[trigger] terms[k])
}

/// A line with the lines beside it, on one line.
pub open spec fn window_at(all: Seq<Seq<char>>, i: int) -> Seq<char> {
    let start = if i == 0 {
        0
    } else {
        i - 1
    };
    let end = if i + 2 <= all.len() {
        i + 2
    } else {
        all.len() as int
    };
    joined(nonempty(all_trimmed(all.subrange(start, end))), " "@)
}

/// The first line from `from` on that speaks of the query.
pub open spec fn matching_line(
    all: Seq<Seq<char>>,
    query: Seq<char>,
    terms: Seq<Seq<char>>,
    from: int,
) -> Option<int>
    decreases all.len() - from,
{
    if from < 0 || from >= all.len() {
        None
    } else if line_matches(all[from], query, terms) {
        Some(from)
    } else {
        matching_line(all, query, terms, from + 1)
    }
}

/// The excerpt of a text for a query: the first line that speaks of the query, with its neighbours; the
/// beginning of the text where no line does or nothing is asked.
pub open spec fn query_excerpt(text: Seq<char>, query: Seq<char>, limit: int) -> Seq<char> {
    let q = lowercase(trimmed(query));
    if q.len() == 0 {
        excerpt_of(text, limit)
    } else {
        match matching_line(lines(text), q, query_terms(q), 0) {
            Some(i) => excerpt_of(window_at(lines(text), i), limit),
            None => excerpt_of(text, limit),
        }
    }
}

proof fn lemma_window_not_empty(all: Seq<Seq<char>>, i: int)
    requires
        0 <= i < all.len(),
        trimmed(all[i]).len() > 0,
    ensures
        window_at(all, i).len() > 0,
{
    let start = if i == 0 {
        0
    } else {
        i - 1
    };
    let end = if i + 2 <= all.len() {
        i + 2
    } else {
        all.len() as int
    };
    let t = all_trimmed(all.subrange(start, end));
    assert(t[i - start] == trimmed(all[i]));
    t.lemma_filter_contains(|x: Seq<char>| x.len() > 0, i - start);
    let n = nonempty(t);
    assert(n.len() > 0);
    t.lemma_filter_pred(|x: Seq<char>| x.len() > 0, n.len() - 1);
    assert(n.last().len() > 0);
    assert(joined(n, " "@).len() >= n.last().len());
}

fn line_speaks_of(line: &str, query: &str, terms: &Vec<String>) -> (r: bool)
    ensures
        r == line_matches(line@, query@, texts(terms@)),
{
    let t = trim_text(line);
    if t.as_str().is_empty() {
        return false;
    }
    let lower = to_lowercase(t.as_str());
    if contains_text(lower.as_str(), query) {
        return true;
    }
    let mut i: usize = 0;
    while i < terms.len()
        invariant
            i <= terms.len(),
            lower@ == lowercase(trimmed(line@)),
            trimmed(line@).len() > 0,
            forall|k: int| 0 <= k < i ==> !contains(lower@, #[trigger] terms@[k]@),
        decreases terms.len() - i,
    {
        if contains_text(lower.as_str(), terms[i].as_str()) {
            assert(contains(lower@, texts(terms@)[i as int]));
            return true;
        }
        i += 1;
    }
    proof {
        assert forall|k: int| 0 <= k < texts(terms@).len() implies !contains(
            lower@,
            #[trigger] texts(terms@)[k],
        ) by {
            assert(!contains(lower@, terms@[k]@));
        }
    }
    false
}

/// The excerpt of a text for a query.
pub fn excerpt_for_query(text: &str, query: &str, limit: usize) -> (r: String)
    ensures
        r@ == query_excerpt(text@, query@, limit as int),
{
    let q = to_lowercase(trim_text(query).as_str());
    if q.as_str().is_empty() {
        return excerpt(text, limit);
    }
    let terms = tokenize_query(q.as_str());
    let all = split_lines(text);
    let ghost a = texts(all@);
    let mut i: usize = 0;
    while i < all.len()
        invariant
            i <= all.len(),
            a == texts(all@),
            a == lines(text@),
            q@ == lowercase(trimmed(query@)),
            q@.len() > 0,
            texts(terms@) == query_terms(q@),
            matching_line(a, q@, query_terms(q@), i as int) == matching_line(
                a,
                q@,
                query_terms(q@),
                0,
            ),
        decreases all.len() - i,
    {
        proof {
            assert(a[i as int] == all@[i as int]@);
        }
        if line_speaks_of(all[i].as_str(), q.as_str(), &terms) {
            let start: usize = if i == 0 {
                0
            } else {
                i - 1
            };
            let end: usize = if all.len() - i >= 2 {
                i + 2
            } else {
                all.len()
            };
            let mut near: Vec<String> = Vec::new();
            let mut k: usize = start;
            while k < end
                invariant
                    start <= k <= end <= all.len(),
                    a == texts(all@),
                    near.len() == k - start,
                    forall|m: int|
                        0 <= m < k - start ==> #[trigger] near@[m]@ == a[start + m],
                decreases end - k,
            {
                near.push(all[k].clone());
                k += 1;
            }
            proof {
                assert(texts(near@) =~= a.subrange(start as int, end as int));
                lemma_window_not_empty(a, i as int);
            }
            let window = join_texts(&keep_nonempty(&trim_all(&near)), " ");
            return excerpt(window.as_str(), limit);
        }
        i += 1;
    }
    excerpt(text, limit)
}

/// One hit as it is shown.
pub open spec fn hit_line(entry: MarkdownEntry, query: Seq<char>) -> Seq<char> {
    "- "@ + entry.path@ + "\n  "@ + query_excerpt(entry.content@, query, 220)
}

/// The hits as they are shown, under a heading; at most ten of them.
pub open spec fn direct_response(query: Seq<char>, hits: Seq<MarkdownEntry>) -> Seq<char> {
    if hits.len() == 0 {
        "No memory files matched '"@ + query + "'."@
    } else {
        let n = if hits.len() < MAX_DIRECT_HITS {
            hits.len()
        } else {
            MAX_DIRECT_HITS as nat
        };
        joined(
            seq!["Top memory matches for '"@ + query + "':"@] + Seq::new(
                n,
                |i: int| hit_line(hits[i], query),
            ),
            "\n"@,
        )
    }
}

/// The hits of a query as they are shown.
pub fn format_direct_response(query: &str, hits: &[MarkdownEntry]) -> (r: String)
    ensures
        r@ == direct_response(query@, hits@),
{
    if hits.len() == 0 {
        return cat3("No memory files matched '", query, "'.");
    }
    let mut out: Vec<String> = Vec::new();
    out.push(cat3("Top memory matches for '", query, "':"));
    let n: usize = if hits.len() < MAX_DIRECT_HITS {
        hits.len()
    } else {
        MAX_DIRECT_HITS
    };
    let ghost head = "Top memory matches for '"@ + query@ + "':"@;
    let ghost want = seq![head] + Seq::new(n as nat, |k: int| hit_line(hits@[k], query@));
    let mut i: usize = 0;
    while i < n
        invariant
            i <= n <= hits.len(),
            want == seq![head] + Seq::new(n as nat, |k: int| hit_line(hits@[k], query@)),
            out.len() == i + 1,
            forall|k: int| 0 <= k < i + 1 ==> #[trigger] out@[k]@ == want[k],
        decreases n - i,
    {
        let e = excerpt_for_query(hits[i].content.as_str(), query, 220);
        out.push(cat4("- ", hits[i].path.as_str(), "\n  ", e.as_str()));
        i += 1;
    }
    assert(texts(out@) =~= want);
    join_texts(&out, "\n")
}

/// A file that is to be written.
#[derive(Debug)]
pub struct NoteWrite {
    /// The file's path.
    pub path: String,
    /// The file's text.
    pub content: String,
}

/// A section added to a file, two line feeds behind what the file holds.
pub open spec fn with_section(
    existing: Seq<char>,
    heading: Seq<char>,
    body: Seq<char>,
) -> Seq<char> {
    let kept = trimmed_end(existing);
    (if kept.len() > 0 {
        kept + "\n\n"@
    } else {
        kept
    }) + "## "@ + heading + "\n\n"@ + trimmed(body) + "\n"@
}

fn add_section(existing: &str, heading: &str, body: &str) -> (r: String)
    ensures
        r@ == with_section(existing@, heading@, body@),
{
    let mut updated = trim_end_text(existing);
    if !updated.as_str().is_empty() {
        updated.append("\n\n");
    }
    updated.append("## ");
    updated.append(heading);
    updated.append("\n\n");
    updated.append(trim_text(body).as_str());
    updated.append("\n");
    updated
}

/// The file of the daily notes of a date.
pub open spec fn daily_path(date: Seq<char>) -> Seq<char> {
    "daily/"@ + date + ".md"@
}

/// The daily notes of a date with a note added.
pub open spec fn daily_note(
    existing: Option<&str>,
    date: Seq<char>,
    time: Seq<char>,
    heading: Seq<char>,
    body: Seq<char>,
) -> Seq<char> {
    let before = match existing {
        Some(t) => t@,
        None => "# Daily Notes for "@ + date + "\n"@,
    };
    with_section(before, time + " - "@ + heading, body)
}

/// Adds a note of a given date and time to the daily notes, which are given where there are any.
pub fn daily_note_at(existing: Option<&str>, date: &str, time: &str, heading: &str, body: &str) -> (r:
    NoteWrite)
    ensures
        r.path@ == daily_path(date@),
        r.content@ == daily_note(existing, date@, time@, heading@, body@),
{
    let before = match existing {
        Some(t) => t.to_owned(),
        None => cat3("# Daily Notes for ", date, "\n"),
    };
    let title = cat3(time, " - ", heading);
    NoteWrite {
        path: cat3("daily/", date, ".md"),
        content: add_section(before.as_str(), title.as_str(), body),
    }
}

/// The file of the daily notes of a moment; none where there is no such moment.
pub fn daily_note_path(timestamp: &Moment) -> (r: Option<String>)
    ensures
        r is Some == timestamp.wf(),
        option_text(r) == match moment_formatted(
            timestamp.seconds,
            timestamp.offset_seconds,
            "%Y-%m-%d"@,
        ) {
            Some(date) => Some(daily_path(date)),
            None => None,
        },
{
    match timestamp.format("%Y-%m-%d") {
        Some(date) => Some(cat3("daily/", date.as_str(), ".md")),
        None => None,
    }
}

/// Adds a note of a moment to the daily notes, which are given where there are any; none where there is no
/// such moment.
pub fn append_daily_note(
    existing: Option<&str>,
    timestamp: &Moment,
    heading: &str,
    body: &str,
) -> (r: Option<NoteWrite>)
    ensures
        r is Some == timestamp.wf(),
        match (
            moment_formatted(timestamp.seconds, timestamp.offset_seconds, "%Y-%m-%d"@),
            moment_formatted(timestamp.seconds, timestamp.offset_seconds, "%H:%M"@),
        ) {
            (Some(date), Some(time)) => {
                &&& r is Some
                &&& r->Some_0.path@ == daily_path(date)
                &&& r->Some_0.content@ == daily_note(existing, date, time, heading@, body@)
            },
            _ => r is None,
        },
{
    let date = timestamp.format("%Y-%m-%d");
    let time = timestamp.format("%H:%M");
    match (date, time) {
        (Some(d), Some(t)) => Some(daily_note_at(existing, d.as_str(), t.as_str(), heading, body)),
        _ => None,
    }
}

/// The dream diary with a dream added.
pub open spec fn dream_diary(
    existing: Option<&str>,
    moment: Seq<char>,
    title: Seq<char>,
    body: Seq<char>,
) -> Seq<char> {
    let before = match existing {
        Some(t) => t@,
        None => "# Dreams\n"@,
    };
    with_section(before, moment + " - "@ + title, body)
}

/// Adds a dream to the diary, which is given where there is one.
pub fn dream_entry_at(existing: Option<&str>, moment: &str, title: &str, body: &str) -> (r: String)
    ensures
        r@ == dream_diary(existing, moment@, title@, body@),
{
    let before = match existing {
        Some(t) => t.to_owned(),
        None => "# Dreams\n".to_owned(),
    };
    let heading = cat3(moment, " - ", title);
    add_section(before.as_str(), heading.as_str(), body)
}

/// Adds a dream of a moment to the diary, which is given where there is one; none where there is no such
/// moment.
pub fn append_dream_entry(existing: Option<&str>, timestamp: &Moment, title: &str, body: &str) -> (r:
    Option<String>)
    ensures
        r is Some == timestamp.wf(),
        option_text(r) == match moment_formatted(
            timestamp.seconds,
            timestamp.offset_seconds,
            "%Y-%m-%d %H:%M"@,
        ) {
            Some(moment) => Some(dream_diary(existing, moment, title@, body@)),
            None => None,
        },
{
    match timestamp.format("%Y-%m-%d %H:%M") {
        Some(moment) => Some(dream_entry_at(existing, moment.as_str(), title, body)),
        None => None,
    }
}

/// What was in a file stays in it, but for white space at its end, when a section is added.
pub proof fn sections_are_appended(existing: Seq<char>, heading: Seq<char>, body: Seq<char>)
    ensures
        starts_with(with_section(existing, heading, body), trimmed_end(existing)),
{
    let kept = trimmed_end(existing);
    let r = with_section(existing, heading, body);
    assert(r.subrange(0, kept.len() as int) =~= kept);
}

/// A section of the dream diary; sections are ordered with the latest first.
#[derive(Debug)]
pub struct DreamSection {
    /// The section.
    pub text: String,
}

impl Ranked for DreamSection {
    open spec fn precedes(a: DreamSection, b: DreamSection) -> bool {
        text_before(b.text@, a.text@)
    }

    proof fn not_precedes_transitive(a: DreamSection, b: DreamSection, c: DreamSection) {
        text_order_not_before_transitive(c.text@, b.text@, a.text@);
    }

    proof fn precedes_asymmetric(a: DreamSection, b: DreamSection) {
        text_order_asymmetric(a.text@, b.text@);
    }

    fn ranks_before(&self, other: &DreamSection) -> (r: bool) {
        is_before(other.text.as_str(), self.text.as_str())
    }
}

/// A part of the dream diary as it is shown; none where it holds no dream.
pub open spec fn dream_section(part: Seq<char>) -> Option<Seq<char>> {
    let t = trimmed(part);
    if t.len() == 0 || t == "# Dreams"@ {
        None
    } else if starts_with(t, "# Dreams"@) {
        let rest = trimmed(t.skip("# Dreams"@.len() as int));
        if rest.len() == 0 {
            None
        } else {
            Some("## "@ + rest)
        }
    } else {
        Some("## "@ + t)
    }
}

/// The dreams among the parts of the diary.
pub open spec fn dream_sections(parts: Seq<Seq<char>>) -> Seq<Seq<char>>
    decreases parts.len(),
{
    if parts.len() == 0 {
        Seq::empty()
    } else {
        let t = dream_sections(parts.drop_last());
        match dream_section(parts.last()) {
            Some(x) => t.push(x),
            None => t,
        }
    }
}

fn read_dream(part: &str) -> (r: Option<String>)
    ensures
        option_text(r) == dream_section(part@),
{
    let t = trim_text(part);
    if t.as_str().is_empty() || same_text(t.as_str(), "# Dreams") {
        return None;
    }
    if starts_with_text(t.as_str(), "# Dreams") {
        proof {
            reveal_strlit("# Dreams");
        }
        let n: usize = t.as_str().unicode_len();
        let rest = slice_text(t.as_str(), 8, n);
        assert(rest@ =~= t@.skip(8));
        let entry = trim_text(rest.as_str());
        if entry.as_str().is_empty() {
            None
        } else {
            Some(cat2("## ", entry.as_str()))
        }
    } else {
        Some(cat2("## ", t.as_str()))
    }
}

/// The texts of sections.
pub open spec fn section_texts(s: Seq<DreamSection>) -> Seq<Seq<char>> {
    Seq::new(s.len(), |i: int| s[i].text@)
}

/// `sections` are the dreams of the diary, the latest first, at most `limit` of them.
pub open spec fn are_recent_dreams(
    diary: Seq<char>,
    limit: nat,
    sections: Seq<DreamSection>,
    shown: Seq<Seq<char>>,
) -> bool {
    let sorted = section_texts(stable_sorted(sections));
    &&& section_texts(sections) == dream_sections(parts_from(diary, "\n## "@, 0))
    &&& shown == if sorted.len() <= limit {
        sorted
    } else {
        sorted.take(limit as int)
    }
}

/// The dreams of the diary, the latest first, at most `limit` of them.
pub fn recent_dream_entries(diary: Option<&str>, limit: usize) -> (r: Vec<String>)
    ensures
        match diary {
            Some(d) => exists|s: Seq<DreamSection>| #[trigger]
                are_recent_dreams(d@, limit as nat, s, texts(r@)),
            None => r@.len() == 0,
        },
{
    let content = match diary {
        Some(d) => d,
        None => {
            return Vec::new();
        },
    };
    proof {
        reveal_strlit("\n## ");
    }
    let parts = split_on(content, "\n## ");
    let ghost p = texts(parts@);
    let mut sections: Vec<DreamSection> = Vec::new();
    let mut i: usize = 0;
    proof {
        assert(section_texts(sections@) =~= dream_sections(p.take(0)));
    }
    while i < parts.len()
        invariant
            i <= parts.len(),
            p == texts(parts@),
            section_texts(sections@) == dream_sections(p.take(i as int)),
        decreases parts.len() - i,
    {
        proof {
            assert(p.take(i + 1).drop_last() =~= p.take(i as int));
            assert(p.take(i + 1).last() == parts@[i as int]@);
        }
        match read_dream(parts[i].as_str()) {
            Some(text) => {
                let s = DreamSection { text };
                proof {
                    assert(section_texts(sections@.push(s)) =~= section_texts(sections@).push(
                        s.text@,
                    ));
                }
                sections.push(s);
            },
            None => {},
        }
        i += 1;
    }
    proof {
        assert(p.take(i as int) =~= p);
    }
    let ghost unsorted = sections@;
    let sorted = sort_ranked(sections);
    let n: usize = if sorted.len() < limit {
        sorted.len()
    } else {
        limit
    };
    let mut out: Vec<String> = Vec::new();
    let mut k: usize = 0;
    while k < n
        invariant
            k <= n <= sorted.len(),
            out.len() == k,
            forall|m: int| 0 <= m < k ==> #[trigger] out@[m]@ == section_texts(sorted@)[m],
        decreases n - k,
    {
        out.push(sorted[k].text.clone());
        k += 1;
    }
    proof {
        let all = section_texts(sorted@);
        if all.len() <= limit {
            assert(texts(out@) =~= all);
        } else {
            assert(texts(out@) =~= all.take(limit as int));
        }
        assert(are_recent_dreams(content@, limit as nat, unsorted, texts(out@)));
    }
    out
}

proof fn lemma_sections_push(parts: Seq<Seq<char>>, x: Seq<char>)
    ensures
        dream_sections(parts.push(x)) == match dream_section(x) {
            Some(d) => dream_sections(parts).push(d),
            None => dream_sections(parts),
        },
{
    assert(parts.push(x).drop_last() =~= parts);
}

/// A dream that is added to the diary is read back behind the dreams that were in it, where its text
/// does not itself look like the beginning of another dream.
pub proof fn added_dreams_are_read_back(
    existing: Seq<char>,
    heading: Seq<char>,
    body: Seq<char>,
    dream: Seq<char>,
)
    requires
        trimmed_end(existing).len() > 0,
        !contains(heading + "\n\n"@ + trimmed(body) + "\n"@, "\n## "@),
        dream_section(heading + "\n\n"@ + trimmed(body) + "\n"@) == Some(dream),
    ensures
        dream_sections(parts_from(with_section(existing, heading, body), "\n## "@, 0))
            == dream_sections(parts_from(trimmed_end(existing), "\n## "@, 0)).push(dream),
{
    reveal_strlit("\n## ");
    reveal_strlit("\n\n");
    reveal_strlit("## ");
    let pat = "\n## "@;
    let kept = trimmed_end(existing);
    let rest = heading + "\n\n"@ + trimmed(body) + "\n"@;
    let whole = with_section(existing, heading, body);
    assert(whole =~= kept.push('\n') + pat + rest);
    lemma_parts_concat(kept.push('\n'), pat, rest);
    lemma_parts_push(kept, pat, '\n', 0);
    crate::text::search::lemma_find(rest, pat);
    assert(rest.skip(0) =~= rest);
    assert(parts_from(rest, pat, 0) == seq![rest]);
    let p = parts_from(kept, pat, 0);
    let q = parts_from(kept.push('\n'), pat, 0);
    assert(q + seq![rest] =~= q.push(rest));
    lemma_sections_push(q, rest);
    lemma_sections_push(p.drop_last(), p.last());
    lemma_sections_push(p.drop_last(), p.last().push('\n'));
    assert(p.drop_last().push(p.last()) =~= p);
    crate::text::trim::lemma_trimmed_push_space(p.last(), '\n');
}

/// A daily note; notes are ordered with the latest first.
#[derive(Debug)]
pub struct DailyNote {
    /// The note's file.
    pub entry: MarkdownEntry,
}

impl Ranked for DailyNote {
    open spec fn precedes(a: DailyNote, b: DailyNote) -> bool {
        text_before(b.entry.path@, a.entry.path@)
    }

    proof fn not_precedes_transitive(a: DailyNote, b: DailyNote, c: DailyNote) {
        text_order_not_before_transitive(c.entry.path@, b.entry.path@, a.entry.path@);
    }

    proof fn precedes_asymmetric(a: DailyNote, b: DailyNote) {
        text_order_asymmetric(a.entry.path@, b.entry.path@);
    }

    fn ranks_before(&self, other: &DailyNote) -> (r: bool) {
        is_before(other.entry.path.as_str(), self.entry.path.as_str())
    }
}

/// The daily notes among the files.
pub open spec fn daily_notes(files: Seq<MarkdownEntry>) -> Seq<DailyNote>
    decreases files.len(),
{
    if files.len() == 0 {
        Seq::empty()
    } else {
        let t = daily_notes(files.drop_last());
        if starts_with(files.last().path@, "daily/"@) {
            t.push(DailyNote { entry: files.last() })
        } else {
            t
        }
    }
}

/// The daily notes, the latest first, at most `limit` of them.
pub fn recent_daily_notes(files: Vec<MarkdownEntry>, limit: usize) -> (r: Vec<DailyNote>)
    ensures
        ({
            let sorted = stable_sorted(daily_notes(files@));
            r@ == if sorted.len() <= limit {
                sorted
            } else {
                sorted.take(limit as int)
            }
        }),
{
    let ghost a = files@;
    let mut rest = files;
    let mut notes: Vec<DailyNote> = Vec::new();
    let ghost mut done: int = 0;
    proof {
        assert(rest@ =~= a.skip(0));
        assert(notes@ =~= daily_notes(a.take(0)));
    }
    while rest.len() > 0
        invariant
            0 <= done <= a.len(),
            rest@ == a.skip(done),
            notes@ == daily_notes(a.take(done)),
        decreases rest.len(),
    {
        let entry = rest.remove(0);
        proof {
            assert(entry == a[done]);
            assert(a.take(done + 1).drop_last() =~= a.take(done));
            assert(a.take(done + 1).last() == entry);
            assert(a.skip(done).remove(0) =~= a.skip(done + 1));
        }
        if starts_with_text(entry.path.as_str(), "daily/") {
            notes.push(DailyNote { entry });
        }
        proof {
            done = done + 1;
        }
    }
    proof {
        assert(a.take(done) =~= a);
    }
    let mut sorted = sort_ranked(notes);
    if sorted.len() > limit {
        sorted.truncate(limit);
    }
    sorted
}

}
