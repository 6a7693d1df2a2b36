//! Rows of the memory database and the decisions around its statements.
use crate::text::chars::{is_space, to_chars};
use crate::text::compose::{cat3, option_text, same_text};
use crate::text::path::{join_path, path_below};
use crate::text::search::{
    contains, contains_text, starts_with, starts_with_text, the_middle_is_contained,
};
use crate::text::split::{
    lemma_pieces_extend, lemma_texts_push, lines, nonempty, pieces, split_lines, split_words, texts, words,
};
use crate::text::trim::{ascii_upper, trim_text, trimmed, CharClass};
use vstd::prelude::*;
use vstd::string::*;

verus! {

broadcast use vstd::string::group_string_axioms;

/// A memory entry.
#[derive(Debug)]
pub struct Entry {
    /// The entry's identifier.
    pub id: String,
    /// `episodic` or `semantic`.
    pub memory_type: String,
    /// How the entry was made.
    pub source: String,
    /// Why the entry was made.
    pub reason: String,
    /// `active`, `protected` or `superseded`.
    pub status: String,
    /// The bits of the confidence as a double.
    pub confidence_bits: u64,
    /// The memory itself.
    pub summary_text: String,
    /// Tags, separated by commas.
    pub topic_tags: String,
    /// The main topic.
    pub topic_key: String,
    /// When what is remembered began.
    pub start_timestamp: String,
    /// When what is remembered ended.
    pub end_timestamp: String,
    /// How many messages the entry sums up.
    pub message_count: i64,
    /// The entries it was made from, separated by commas.
    pub source_entry_ids: String,
    /// Related entries, separated by commas.
    pub related_entry_ids: String,
    /// The entry that replaces it.
    pub superseded_by: String,
    /// When the entry was made.
    pub created_at: String,
    /// When the entry was last changed.
    pub updated_at: String,
    /// What kind of source the entry has.
    pub entry_type: String,
    /// An image that belongs to the entry.
    pub image_path: String,
    /// When the entry was last collated; empty if never.
    pub collated_at: String,
    /// The markdown file that the entry mirrors.
    pub file_path: String,
}

/// A memory entry as plain values.
pub struct EntryView {
    pub id: Seq<char>,
    pub memory_type: Seq<char>,
    pub source: Seq<char>,
    pub reason: Seq<char>,
    pub status: Seq<char>,
    pub confidence_bits: u64,
    pub summary_text: Seq<char>,
    pub topic_tags: Seq<char>,
    pub topic_key: Seq<char>,
    pub start_timestamp: Seq<char>,
    pub end_timestamp: Seq<char>,
    pub message_count: i64,
    pub source_entry_ids: Seq<char>,
    pub related_entry_ids: Seq<char>,
    pub superseded_by: Seq<char>,
    pub created_at: Seq<char>,
    pub updated_at: Seq<char>,
    pub entry_type: Seq<char>,
    pub image_path: Seq<char>,
    pub collated_at: Seq<char>,
    pub file_path: Seq<char>,
}

impl View for Entry {
    type V = EntryView;

    open spec fn view(&self) -> EntryView {
        EntryView {
            id: self.id@,
            memory_type: self.memory_type@,
            source: self.source@,
            reason: self.reason@,
            status: self.status@,
            confidence_bits: self.confidence_bits,
            summary_text: self.summary_text@,
            topic_tags: self.topic_tags@,
            topic_key: self.topic_key@,
            start_timestamp: self.start_timestamp@,
            end_timestamp: self.end_timestamp@,
            message_count: self.message_count,
            source_entry_ids: self.source_entry_ids@,
            related_entry_ids: self.related_entry_ids@,
            superseded_by: self.superseded_by@,
            created_at: self.created_at@,
            updated_at: self.updated_at@,
            entry_type: self.entry_type@,
            image_path: self.image_path@,
            collated_at: self.collated_at@,
            file_path: self.file_path@,
        }
    }
}

impl Entry {
    /// A copy of the entry.
    pub fn copied(&self) -> (r: Entry)
        ensures
            r == *self,
    {
        Entry {
            id: self.id.clone(),
            memory_type: self.memory_type.clone(),
            source: self.source.clone(),
            reason: self.reason.clone(),
            status: self.status.clone(),
            confidence_bits: self.confidence_bits,
            summary_text: self.summary_text.clone(),
            topic_tags: self.topic_tags.clone(),
            topic_key: self.topic_key.clone(),
            start_timestamp: self.start_timestamp.clone(),
            end_timestamp: self.end_timestamp.clone(),
            message_count: self.message_count,
            source_entry_ids: self.source_entry_ids.clone(),
            related_entry_ids: self.related_entry_ids.clone(),
            superseded_by: self.superseded_by.clone(),
            created_at: self.created_at.clone(),
            updated_at: self.updated_at.clone(),
            entry_type: self.entry_type.clone(),
            image_path: self.image_path.clone(),
            collated_at: self.collated_at.clone(),
            file_path: self.file_path.clone(),
        }
    }
}

/// The entries as plain values.
pub open spec fn entries_view(v: Seq<Entry>) -> Seq<EntryView> {
    Seq::new(v.len(), |i: int| v[i]@)
}

/// The first entry with an identifier.
pub open spec fn entry_of(table: Seq<EntryView>, id: Seq<char>) -> Option<EntryView>
    decreases table.len(),
{
    if table.len() == 0 {
        None
    } else if table[0].id == id {
        Some(table[0])
    } else {
        entry_of(table.skip(1), id)
    }
}

/// The position of the first entry with an identifier.
pub fn find_entry(table: &Vec<Entry>, id: &str) -> (r: Option<usize>)
    ensures
        match r {
            Some(i) => i < table@.len() && entry_of(entries_view(table@), id@) == Some(
                table@[i as int]@,
            ) && table@[i as int].id@ == id@,
            None => entry_of(entries_view(table@), id@) is None,
        },
{
    let mut i: usize = 0;
    let ghost all = entries_view(table@);
    proof {
        assert(all.skip(0) =~= all);
    }
    while i < table.len()
        invariant
            i <= table.len(),
            all == entries_view(table@),
            entry_of(all.skip(i as int), id@) == entry_of(all, id@),
        decreases table.len() - i,
    {
        proof {
            assert(all.skip(i as int)[0] == table@[i as int]@);
            assert(all.skip(i as int).skip(1) =~= all.skip(i + 1));
        }
        if same_text(table[i].id.as_str(), id) {
            return Some(i);
        }
        i += 1;
    }
    None
}

/// The table with the entries called `id` replaced by `e`; when it was made stays as it was.
pub open spec fn replaced(table: Seq<EntryView>, id: Seq<char>, e: EntryView) -> Seq<EntryView> {
    Seq::new(
        table.len(),
        |i: int|
            if table[i].id == id {
                EntryView { created_at: table[i].created_at, ..e }
            } else {
                table[i]
            },
    )
}

/// Stores an entry in place of the one with its identifier; when it was made stays as it was.
pub fn replace_entry(table: &mut Vec<Entry>, entry: &Entry)
    ensures
        entries_view(final(table)@) == replaced(entries_view(old(table)@), entry.id@, entry@),
{
    let ghost before = entries_view(table@);
    let ghost want = replaced(before, entry.id@, entry@);
    let mut i: usize = 0;
    while i < table.len()
        invariant
            i <= table.len(),
            table@.len() == before.len(),
            want == replaced(before, entry.id@, entry@),
            forall|k: int| 0 <= k < i ==> #[trigger] table@[k]@ == want[k],
            forall|k: int| i <= k < table@.len() ==> #[trigger] table@[k]@ == before[k],
        decreases table.len() - i,
    {
        assert(table@[i as int]@ == before[i as int]);
        if same_text(table[i].id.as_str(), entry.id.as_str()) {
            let mut e = entry.copied();
            e.created_at = table[i].created_at.clone();
            assert(e@ == want[i as int]);
            table.set(i, e);
        }
        i += 1;
    }
    assert(entries_view(table@) =~= want);
}

/// A person, place or thing that entries speak of.
#[derive(Debug)]
pub struct Entity {
    /// The entity's number.
    pub entity_id: i64,
    /// Its name.
    pub name: String,
    /// What kind of thing it is.
    pub entity_type: String,
    /// What it is.
    pub description: String,
    /// When the entity was made.
    pub created_at: String,
    /// When the entity was last changed.
    pub updated_at: String,
}

/// One line of the audit trail.
#[derive(Debug)]
pub struct ChangelogRecord {
    /// The record's number.
    pub changelog_id: i64,
    /// What kind of change it was.
    pub operation: String,
    /// The change in words.
    pub description: String,
    /// When it happened.
    pub timestamp: String,
}

/// A doubt about an entry.
#[derive(Debug)]
pub struct Flag {
    /// The flag's number.
    pub flag_id: i64,
    /// The entry in doubt.
    pub entry_id: String,
    /// The kind of doubt.
    pub flag_type: String,
    /// Why it was raised.
    pub reason: String,
    /// When it was resolved.
    pub resolved_at: Option<String>,
    /// How it was resolved.
    pub resolution: Option<String>,
    /// When it was raised.
    pub created_at: String,
}

/// One hit of a full-text search.
#[derive(Debug)]
pub struct FtsHit {
    /// The entry that was found.
    pub entry_id: String,
    /// The bits of the rank as a double.
    pub rank_bits: u64,
    /// The memory itself.
    pub summary_text: String,
    /// Its tags.
    pub topic_tags: String,
    /// Its main topic.
    pub topic_key: String,
    /// Its status.
    pub status: String,
    /// The bits of its confidence as a double.
    pub confidence_bits: u64,
    /// Its type.
    pub memory_type: String,
    /// When it was made.
    pub created_at: String,
}

/// An entry that a collation phase leaves alone.
#[derive(Debug)]
pub struct CollationSkip {
    /// The entry.
    pub entry_id: String,
    /// The phase.
    pub phase: String,
    /// Since when it is skipped.
    pub skipped_at: String,
}

/// The statements that bring an older database up to date.
pub const MIGRATIONS_SQL: &'static str = "
-- Add collated_at column to entries (tracks when an entry was last processed by collation).
ALTER TABLE entries ADD COLUMN collated_at TEXT NOT NULL DEFAULT '';
-- Drop canonical column (never used by users, blocked collation on 95% of entries).
ALTER TABLE entries DROP COLUMN canonical;
";

/// Equal but for the case of ASCII letters.
pub open spec fn equal_ignoring_case(a: Seq<char>, b: Seq<char>) -> bool {
    a.len() == b.len() && forall|i: int|
        0 <= i < a.len() ==> ascii_upper(#[trigger] a[i]) == ascii_upper(b[i])
}

/// The first word of the statement is SELECT, in any case.
pub open spec fn is_select(sql: Seq<char>) -> bool {
    let w = words(trimmed(sql), CharClass::Space);
    w.len() > 0 && equal_ignoring_case(w[0], "SELECT"@)
}

fn upper_char(c: char) -> (r: char)
    ensures
        r == ascii_upper(c),
{
    if 'a' <= c && c <= 'z' {
        ((c as u8) - 32) as char
    } else {
        c
    }
}

/// Whether two strings are equal but for the case of ASCII letters.
pub fn same_ignoring_case(a: &str, b: &str) -> (r: bool)
    ensures
        r == equal_ignoring_case(a@, b@),
{
    let x = to_chars(a);
    let y = to_chars(b);
    if x.len() != y.len() {
        return false;
    }
    let mut i: usize = 0;
    while i < x.len()
        invariant
            i <= x.len(),
            x.len() == y.len(),
            x@ == a@,
            y@ == b@,
            forall|k: int| 0 <= k < i ==> ascii_upper(#[trigger] x@[k]) == ascii_upper(y@[k]),
        decreases x.len() - i,
    {
        if upper_char(x[i]) != upper_char(y[i]) {
            assert(ascii_upper(a@[i as int]) != ascii_upper(b@[i as int]));
            return false;
        }
        i += 1;
    }
    true
}

/// Admits a statement for read-only execution: the trimmed statement if it is a SELECT, otherwise the
/// reason why not.
pub fn query_db_readonly(sql: &str) -> (r: Result<String, String>)
    ensures
        match r {
            Ok(s) => is_select(sql@) && s@ == trimmed(sql@),
            Err(e) => !is_select(sql@) && e@ == "Only SELECT queries are allowed"@,
        },
{
    let t = trim_text(sql);
    let w = split_words(t.as_str(), CharClass::Space);
    proof {
        assert(texts(w@).len() == w@.len());
        if w@.len() > 0 {
            assert(texts(w@)[0] == w@[0]@);
        }
    }
    if w.len() > 0 && same_ignoring_case(w[0].as_str(), "SELECT") {
        Ok(t)
    } else {
        Err("Only SELECT queries are allowed".to_owned())
    }
}

/// The statements among the lines: trimmed, without blank lines and comments.
pub open spec fn statements(all: Seq<Seq<char>>) -> Seq<Seq<char>>
    decreases all.len(),
{
    if all.len() == 0 {
        Seq::empty()
    } else {
        let t = statements(all.drop_last());
        let s = trimmed(all.last());
        if s.len() == 0 || starts_with(s, "--"@) {
            t
        } else {
            t.push(s)
        }
    }
}

/// The statements of a script with one statement to a line, in order.
pub fn script_statements(script: &str) -> (r: Vec<String>)
    ensures
        texts(r@) == statements(lines(script@)),
{
    let all = split_lines(script);
    let ghost a = texts(all@);
    let mut out: Vec<String> = Vec::new();
    let mut i: usize = 0;
    proof {
        assert(texts(out@) =~= statements(a.take(0)));
    }
    while i < all.len()
        invariant
            i <= all.len(),
            a == texts(all@),
            texts(out@) == statements(a.take(i as int)),
        decreases all.len() - i,
    {
        proof {
            assert(a.take(i + 1).drop_last() =~= a.take(i as int));
            assert(a.take(i + 1).last() == all@[i as int]@);
        }
        let s = trim_text(all[i].as_str());
        if !s.as_str().is_empty() && !starts_with_text(s.as_str(), "--") {
            proof {
                lemma_texts_push(out@, s);
            }
            out.push(s);
        }
        i += 1;
    }
    proof {
        assert(a.take(i as int) =~= a);
    }
    out
}

/// The migration statements, each to be tried on its own.
pub fn migration_statements() -> (r: Vec<String>)
    ensures
        texts(r@) == statements(lines(MIGRATIONS_SQL@)),
{
    script_statements(MIGRATIONS_SQL)
}

/// Whether the full-text table has the outdated layout with a column `entry_id`, judged by the
/// statement that made it, if there is one.
pub fn needs_fts_rebuild(creation_sql: &Option<String>) -> (r: bool)
    ensures
        r == match option_text(*creation_sql) {
            Some(sql) => contains(sql, "entry_id"@),
            None => false,
        },
{
    match creation_sql {
        Some(sql) => contains_text(sql.as_str(), "entry_id"),
        None => false,
    }
}

/// Whether the full-text index has to be filled: it is empty though there are entries.
pub fn needs_fts_population(fts_count: i64, entry_count: i64) -> (r: bool)
    ensures
        r == (fts_count == 0 && entry_count > 0),
{
    fts_count == 0 && entry_count > 0
}

/// The status that a full-text search is restricted to; none where all are wanted.
pub fn fts_status(status: &Option<String>) -> (r: Option<String>)
    ensures
        option_text(r) == match option_text(*status) {
            Some(s) => if s == "all"@ {
                None
            } else {
                Some(s)
            },
            None => None,
        },
{
    match status {
        Some(s) => if same_text(s.as_str(), "all") {
            None
        } else {
            Some(s.clone())
        },
        None => None,
    }
}

/// What is to be done to store an entity.
#[derive(Debug)]
pub enum EntityUpsert {
    /// The entity is new.
    Insert,
    /// The entity exists and is to be changed; a changed description is logged.
    Update {
        /// The entity's number.
        entity_id: i64,
        /// The audit text, where the description changes.
        changelog: Option<String>,
    },
}

/// The audit text of a changed description.
pub open spec fn description_change(name: Seq<char>, old: Seq<char>, new: Seq<char>) -> Seq<char> {
    "Entity '"@ + name + "' description changed from '"@ + old + "' to '"@ + new + "'"@
}

/// Decides how an entity is stored, given the number and description of an entity of that name.
pub fn upsert_entity(name: &str, description: &str, existing: &Option<(i64, String)>) -> (r:
    EntityUpsert)
    ensures
        match (*existing, r) {
            (None, EntityUpsert::Insert) => true,
            (Some(found), EntityUpsert::Update { entity_id, changelog }) => {
                &&& entity_id == found.0
                &&& option_text(changelog) == if found.1@ == description@ {
                    None
                } else {
                    Some(description_change(name@, found.1@, description@))
                }
            },
            _ => false,
        },
{
    match existing {
        None => EntityUpsert::Insert,
        Some(found) => {
            let old = found.1.as_str();
            let changelog = if same_text(old, description) {
                None
            } else {
                let head = cat3("Entity '", name, "' description changed from '");
                let mid = cat3(head.as_str(), old, "' to '");
                Some(cat3(mid.as_str(), description, "'"))
            };
            EntityUpsert::Update { entity_id: found.0, changelog }
        },
    }
}

/// The database file of a character.
pub fn default_path(data_dir: &str, character: &str) -> (r: String)
    ensures
        r@ == path_below(path_below(path_below(data_dir@, character@), "memory"@), "memory.db"@),
{
    let dir = join_path(data_dir, character);
    let memory = join_path(dir.as_str(), "memory");
    join_path(memory.as_str(), "memory.db")
}

/// A statement is a selection just when its first word says so, in capitals or not.
pub proof fn the_first_word_decides(word: Seq<char>, rest: Seq<char>)
    requires
        word.len() > 0,
        forall|i: int| 0 <= i < word.len() ==> !is_space(#[trigger] word[i]),
        trimmed(word.push(' ') + rest) == word.push(' ') + rest,
    ensures
        is_select(word.push(' ') + rest) == equal_ignoring_case(word, "SELECT"@),
{
    lemma_first_word(word, rest, rest.len() as int);
    assert(rest.take(rest.len() as int) =~= rest);
}

proof fn lemma_first_word(word: Seq<char>, rest: Seq<char>, n: int)
    requires
        word.len() > 0,
        forall|i: int| 0 <= i < word.len() ==> !is_space(#[trigger] word[i]),
        0 <= n <= rest.len(),
    ensures
        pieces(word.push(' ') + rest.take(n), CharClass::Space).len() >= 2,
        pieces(word.push(' ') + rest.take(n), CharClass::Space)[0] == word,
        words(word.push(' ') + rest.take(n), CharClass::Space).len() > 0,
        words(word.push(' ') + rest.take(n), CharClass::Space)[0] == word,
    decreases n,
{
    let class = CharClass::Space;
    let s = word.push(' ') + rest.take(n);
    let p = pieces(s, class);
    if n == 0 {
        let none = Seq::<char>::empty();
        assert(s =~= word.push(' '));
        assert(s.drop_last() =~= word);
        lemma_pieces_extend(none, word, class);
        assert(none + word =~= word);
        assert(pieces(word, class) =~= seq![word]);
        assert(p =~= seq![word, none]);
    } else {
        lemma_first_word(word, rest, n - 1);
        assert(s.drop_last() =~= word.push(' ') + rest.take(n - 1));
    }
    lemma_first_nonempty(p);
}

proof fn lemma_first_nonempty(p: Seq<Seq<char>>)
    requires
        p.len() > 0,
        p[0].len() > 0,
    ensures
        nonempty(p).len() > 0,
        nonempty(p)[0] == p[0],
    decreases p.len(),
{
    reveal(Seq::filter);
    if p.len() > 1 {
        lemma_first_nonempty(p.drop_last());
    } else {
        assert(p.drop_last() =~= Seq::<Seq<char>>::empty());
        assert(nonempty(p.drop_last()) =~= Seq::<Seq<char>>::empty());
    }
}

/// A script is read line by line: each line that is neither blank nor a comment is a statement, in order.
pub proof fn scripts_are_read_line_by_line(a: Seq<Seq<char>>, line: Seq<char>)
    ensures
        trimmed(line).len() == 0 ==> statements(a.push(line)) == statements(a),
        starts_with(trimmed(line), "--"@) ==> statements(a.push(line)) == statements(a),
        trimmed(line).len() > 0 && !starts_with(trimmed(line), "--"@) ==> statements(a.push(line))
            == statements(a).push(trimmed(line)),
        statements(Seq::<Seq<char>>::empty()).len() == 0,
{
    assert(a.push(line).drop_last() =~= a);
}

/// Storing an entry changes the entries of its identifier and no others, and leaves when they were made.
pub proof fn storing_changes_one_entry(table: Seq<EntryView>, e: EntryView, i: int)
    requires
        0 <= i < table.len(),
    ensures
        replaced(table, e.id, e).len() == table.len(),
        table[i].id != e.id ==> replaced(table, e.id, e)[i] == table[i],
        table[i].id == e.id ==> replaced(table, e.id, e)[i].created_at == table[i].created_at
            && replaced(table, e.id, e)[i].summary_text == e.summary_text && replaced(table, e.id, e)[i]
            == (EntryView { created_at: table[i].created_at, ..e }),
{
}

/// A changed description is logged with the name, the old text and the new one.
pub proof fn changed_descriptions_are_logged(name: Seq<char>, old: Seq<char>, new: Seq<char>)
    ensures
        contains(description_change(name, old, new), name),
        contains(description_change(name, old, new), old),
        contains(description_change(name, old, new), new),
{
    let (a, b, c, d) = ("Entity '"@, "' description changed from '"@, "' to '"@, "'"@);
    let s = description_change(name, old, new);
    assert(s =~= a + name + (b + old + c + new + d));
    the_middle_is_contained(a, name, b + old + c + new + d);
    assert(s =~= (a + name + b) + old + (c + new + d));
    the_middle_is_contained(a + name + b, old, c + new + d);
    the_middle_is_contained(a + name + b + old + c, new, d);
}

}
