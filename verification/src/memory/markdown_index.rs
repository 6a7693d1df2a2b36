//! Mirroring markdown files as database entries.
use crate::clock::{is_time_text, local_now_text, parse_rfc3339, rfc3339_instant};
use crate::memory::confidence::AGENT_CONFIDENCE_BITS;
use crate::memory::db::{Entry, EntryView};
use crate::text::compose::cat2;
use crate::text::path::{components_of, file_name, file_stem, path_components, without_extension};
use crate::text::search::{ends_with, ends_with_text, slice_text};
use crate::text::split::{join_texts, joined, lemma_texts_push, texts};
use crate::text::trim::{trim_text, trimmed};
use vstd::prelude::*;
use vstd::string::*;

verus! {

broadcast use vstd::string::group_string_axioms;

/// The SHA-256 digest of the UTF-8 bytes of a text, in lower case hexadecimal.
pub uninterp spec fn sha256_hex(text: Seq<char>) -> Seq<char>;

/// `sha2::Sha256::digest` of the bytes of a text, written with `LowerHex`: 64 digits that depend on the
/// text alone.
#[verifier::external_body]
fn digest_hex(text: &str) -> (r: String)
    ensures
        r@ == sha256_hex(text@),
        r@.len() == 64,
{
    let digest = <sha2::Sha256 as sha2::Digest>::digest(text.as_bytes());
    format!("{:x}", digest)
}

/// The identifier of the entry that mirrors a file, given the digest of the file's path.
pub fn entry_id_of_digest(digest: &str) -> (r: String)
    requires
        digest@.len() >= 16,
    ensures
        r@ == "md_"@ + digest@.take(16),
{
    let head = slice_text(digest, 0, 16);
    assert(head@ =~= digest@.take(16));
    cat2("md_", head.as_str())
}

/// The identifier of the entry that mirrors the file at a path: it depends on the path alone.
pub fn entry_id_for_path(rel_path: &str) -> (r: String)
    ensures
        r@ == "md_"@ + sha256_hex(rel_path@).take(16),
        r@.len() == 19,
{
    let digest = digest_hex(rel_path);
    proof {
        reveal_strlit("md_");
    }
    entry_id_of_digest(digest.as_str())
}

/// The main topic of a file: its name without the extension.
pub open spec fn path_topic(rel_path: Seq<char>) -> Seq<char> {
    match file_name(rel_path) {
        Some(n) => without_extension(n),
        None => Seq::empty(),
    }
}

/// The main topic of a file.
pub fn topic_key_from_path(rel_path: &str) -> (r: String)
    ensures
        r@ == path_topic(rel_path@),
{
    match file_stem(rel_path) {
        Some(s) => s,
        None => String::new(),
    }
}

/// The tags that the components of a path give: a component without the ending `.md`, where something is
/// left of it.
pub open spec fn component_tags(parts: Seq<Seq<char>>) -> Seq<Seq<char>>
    decreases parts.len(),
{
    if parts.len() == 0 {
        Seq::empty()
    } else {
        let t = component_tags(parts.drop_last());
        let x = parts.last();
        if x.len() == 0 {
            t
        } else if ends_with(x, ".md"@) {
            if x.len() > 3 {
                t.push(x.take(x.len() - 3))
            } else {
                t
            }
        } else {
            t.push(x)
        }
    }
}

/// The tags of a file.
pub fn topic_tags_from_path(rel_path: &str) -> (r: String)
    ensures
        r@ == joined(component_tags(path_components(rel_path@)), ","@),
{
    let parts = components_of(rel_path);
    let ghost p = texts(parts@);
    let mut tags: Vec<String> = Vec::new();
    let mut i: usize = 0;
    proof {
        reveal_strlit(".md");
        assert(texts(tags@) =~= component_tags(p.take(0)));
    }
    while i < parts.len()
        invariant
            i <= parts.len(),
            p == texts(parts@),
            ".md"@.len() == 3,
            texts(tags@) == component_tags(p.take(i as int)),
        decreases parts.len() - i,
    {
        proof {
            assert(p.take(i + 1).drop_last() =~= p.take(i as int));
            assert(p.take(i + 1).last() == parts@[i as int]@);
        }
        let value = parts[i].as_str();
        if !value.is_empty() {
            if ends_with_text(value, ".md") {
                let n: usize = value.unicode_len();
                if n > 3 {
                    let s = slice_text(value, 0, n - 3);
                    proof {
                        assert(s@ =~= value@.take(value@.len() - 3));
                        lemma_texts_push(tags@, s);
                    }
                    tags.push(s);
                }
            } else {
                let s = value.to_owned();
                proof {
                    lemma_texts_push(tags@, s);
                }
                tags.push(s);
            }
        }
        i += 1;
    }
    proof {
        assert(p.take(i as int) =~= p);
    }
    join_texts(&tags, ",")
}

/// A moment; none where the text is blank or cannot be read.
pub open spec fn moment_of(value: Seq<char>) -> Option<(i64, u32)> {
    if trimmed(value).len() == 0 {
        None
    } else {
        rfc3339_instant(value)
    }
}

/// The moment that a text stands for.
pub fn parse_timestamp(value: &str) -> (r: Option<(i64, u32)>)
    ensures
        r == moment_of(value@),
{
    if trim_text(value).as_str().is_empty() {
        None
    } else {
        parse_rfc3339(value)
    }
}

/// One moment is later than another.
pub open spec fn is_later(a: (i64, u32), b: (i64, u32)) -> bool {
    a.0 > b.0 || (a.0 == b.0 && a.1 > b.1)
}

/// The entry has to be brought up to date: there is none, the file is newer, or one of the times cannot
/// be read.
pub open spec fn is_outdated(
    exists_entry: bool,
    file: Option<(i64, u32)>,
    entry: Option<(i64, u32)>,
) -> bool {
    ||| !exists_entry
    ||| match (file, entry) {
        (Some(f), Some(e)) => is_later(f, e),
        _ => true,
    }
}

/// Whether an entry has to be brought up to date, given the times of the file and the entry.
pub fn needs_sync_at(
    exists_entry: bool,
    file: Option<(i64, u32)>,
    entry: Option<(i64, u32)>,
) -> (r: bool)
    ensures
        r == is_outdated(exists_entry, file, entry),
{
    if !exists_entry {
        return true;
    }
    match (file, entry) {
        (Some(f), Some(e)) => f.0 > e.0 || (f.0 == e.0 && f.1 > e.1),
        _ => true,
    }
}

/// Whether the entry that mirrors a file has to be brought up to date.
pub fn needs_sync(existing: &Option<Entry>, modified_at: &str) -> (r: bool)
    ensures
        r == match existing {
            None => true,
            Some(e) => is_outdated(true, moment_of(modified_at@), moment_of(e.updated_at@)),
        },
{
    match existing {
        None => true,
        Some(e) => {
            let file = parse_timestamp(modified_at);
            let entry = parse_timestamp(e.updated_at.as_str());
            needs_sync_at(true, file, entry)
        },
    }
}

/// The entry that mirrors a file: a new one, or the old one with the file's text, topics and path.
pub open spec fn mirrored_entry(
    existing: Option<Entry>,
    new_id: Seq<char>,
    rel_path: Seq<char>,
    content: Seq<char>,
    reason: Seq<char>,
    now: Seq<char>,
) -> EntryView {
    let tags = joined(component_tags(path_components(rel_path)), ","@);
    match existing {
        Some(e) => EntryView {
            source: "markdown_store"@,
            reason,
            summary_text: content,
            topic_tags: tags,
            topic_key: path_topic(rel_path),
            updated_at: now,
            entry_type: "markdown_file"@,
            file_path: rel_path,
            ..e@
        },
        None => EntryView {
            id: new_id,
            memory_type: "semantic"@,
            source: "markdown_store"@,
            reason,
            status: "active"@,
            confidence_bits: AGENT_CONFIDENCE_BITS,
            summary_text: content,
            topic_tags: tags,
            topic_key: path_topic(rel_path),
            start_timestamp: now,
            end_timestamp: now,
            message_count: 0,
            source_entry_ids: Seq::empty(),
            related_entry_ids: Seq::empty(),
            superseded_by: Seq::empty(),
            created_at: now,
            updated_at: now,
            entry_type: "markdown_file"@,
            image_path: Seq::empty(),
            collated_at: Seq::empty(),
            file_path: rel_path,
        },
    }
}

/// The entry that mirrors a file, as of a given time and with a given identifier for a new one.
pub fn mirror_entry_at(
    existing: Option<Entry>,
    new_id: String,
    rel_path: &str,
    content: &str,
    reason: &str,
    now: &str,
) -> (r: Entry)
    ensures
        r@ == mirrored_entry(existing, new_id@, rel_path@, content@, reason@, now@),
{
    let topic_key = topic_key_from_path(rel_path);
    let topic_tags = topic_tags_from_path(rel_path);
    match existing {
        Some(e) => {
            let mut entry = e;
            entry.source = "markdown_store".to_owned();
            entry.reason = reason.to_owned();
            entry.summary_text = content.to_owned();
            entry.topic_tags = topic_tags;
            entry.topic_key = topic_key;
            entry.updated_at = now.to_owned();
            entry.entry_type = "markdown_file".to_owned();
            entry.file_path = rel_path.to_owned();
            entry
        },
        None => Entry {
            id: new_id,
            memory_type: "semantic".to_owned(),
            source: "markdown_store".to_owned(),
            reason: reason.to_owned(),
            status: "active".to_owned(),
            confidence_bits: AGENT_CONFIDENCE_BITS,
            summary_text: content.to_owned(),
            topic_tags,
            topic_key,
            start_timestamp: now.to_owned(),
            end_timestamp: now.to_owned(),
            message_count: 0,
            source_entry_ids: String::new(),
            related_entry_ids: String::new(),
            superseded_by: String::new(),
            created_at: now.to_owned(),
            updated_at: now.to_owned(),
            entry_type: "markdown_file".to_owned(),
            image_path: String::new(),
            collated_at: String::new(),
            file_path: rel_path.to_owned(),
        },
    }
}

/// The entry that mirrors a file now: a new one, or the existing one brought up to date.
pub fn upsert_markdown_entry(
    existing: Option<Entry>,
    rel_path: &str,
    content: &str,
    reason: &str,
) -> (r: Entry)
    ensures
        exists|now: Seq<char>|
            is_time_text(now) && r@ == #[trigger] mirrored_entry(
                existing,
                "md_"@ + sha256_hex(rel_path@).take(16),
                rel_path@,
                content@,
                reason@,
                now,
            ),
{
    let id = entry_id_for_path(rel_path);
    let now = local_now_text();
    mirror_entry_at(existing, id, rel_path, content, reason, now.as_str())
}

/// A file keeps its entry: bringing an entry up to date changes neither its identifier nor when it was
/// made, and a second time with the same text only changes when it was updated.
pub proof fn mirroring_is_stable(
    e: Entry,
    later: Entry,
    new_id: Seq<char>,
    rel_path: Seq<char>,
    content: Seq<char>,
    reason: Seq<char>,
    now: Seq<char>,
    then: Seq<char>,
)
    requires
        later@ == mirrored_entry(Some(e), new_id, rel_path, content, reason, now),
    ensures
        later@.id == e@.id,
        later@.created_at == e@.created_at,
        mirrored_entry(Some(later), new_id, rel_path, content, reason, then) == (EntryView {
            updated_at: then,
            ..later@
        }),
{
}

}
