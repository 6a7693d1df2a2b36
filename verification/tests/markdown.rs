use shore_daemon::clock::{Moment, FIRST_SECOND, LAST_SECOND};
use shore_daemon::memory::db::Entry;
use shore_daemon::memory::markdown_index::{
    entry_id_for_path, entry_id_of_digest, mirror_entry_at, needs_sync, needs_sync_at,
    parse_timestamp, topic_key_from_path, topic_tags_from_path, upsert_markdown_entry,
};
use shore_daemon::memory::markdown_query::{
    append_daily_note, append_dream_entry, daily_note_at, daily_note_path, dream_entry_at, excerpt,
    excerpt_for_query, format_direct_response, memory_status, recent_daily_notes,
    recent_dream_entries, truncate_chars,
};
use shore_daemon::memory::markdown_store::{
    entry_search_score, is_markdown_file, list_all, search_text, tokenize_query, MarkdownEntry,
    MarkdownMemoryStore, MarkdownStoreError,
};

fn file(path: &str, content: &str) -> MarkdownEntry {
    MarkdownEntry {
        path: path.to_string(),
        content: content.to_string(),
        size: content.len() as u64,
        modified_at: "2026-01-01T00:00:00+00:00".to_string(),
    }
}

fn paths(files: &[MarkdownEntry]) -> Vec<&str> {
    files.iter().map(|f| f.path.as_str()).collect()
}

// Index.

#[test]
fn entry_id_is_stable_for_path() {
    assert_eq!(entry_id_for_path("people/ren.md"), entry_id_for_path("people/ren.md"));
    assert_ne!(entry_id_for_path("people/ren.md"), entry_id_for_path("people/sam.md"));
}

#[test]
fn entry_ids_are_digests() {
    assert_eq!(entry_id_for_path("abc"), "md_ba7816bf8f01cfea");
    assert_eq!(entry_id_for_path(""), "md_e3b0c44298fc1c14");
    assert_eq!(entry_id_of_digest("0123456789abcdef0123"), "md_0123456789abcdef");
}

#[test]
fn topic_tags_follow_path_components() {
    assert_eq!(topic_key_from_path("topics/gaming/doom.md"), "doom");
    assert_eq!(topic_tags_from_path("topics/gaming/doom.md"), "topics,gaming,doom");
}

#[test]
fn mirrored_files() {
    let fresh = mirror_entry_at(None, "md_1".to_string(), "people/ren.md", "Likes tea", "sync", "now");
    assert_eq!(fresh.id, "md_1");
    assert_eq!(fresh.topic_key, "ren");
    assert_eq!(fresh.topic_tags, "people,ren");
    assert_eq!(fresh.file_path, "people/ren.md");
    assert_eq!(fresh.created_at, "now");
    let mut old = fresh.copied();
    old.created_at = "before".to_string();
    old.confidence_bits = 0.5f64.to_bits();
    let again = mirror_entry_at(Some(old), "md_2".to_string(), "people/ren.md", "Likes coffee", "sync", "later");
    assert_eq!(again.id, "md_1");
    assert_eq!(again.created_at, "before");
    assert_eq!(again.updated_at, "later");
    assert_eq!(again.summary_text, "Likes coffee");
    let now = upsert_markdown_entry(None, "people/ren.md", "Likes tea", "sync");
    assert_eq!(now.id, entry_id_for_path("people/ren.md"));
    assert!(parse_timestamp(&now.updated_at).is_some());
}

fn updated(at: &str) -> Option<Entry> {
    let mut e = mirror_entry_at(None, "id".to_string(), "a.md", "x", "r", at);
    e.updated_at = at.to_string();
    Some(e)
}

#[test]
fn newer_files_are_synchronised() {
    let noon = "2026-01-01T12:00:00+00:00";
    assert!(needs_sync(&None, noon));
    assert!(!needs_sync(&updated(noon), noon));
    assert!(needs_sync(&updated("2026-01-01T11:59:59+00:00"), noon));
    assert!(needs_sync(&updated("2026-01-01T13:00:00+02:00"), noon));
    assert!(!needs_sync(&updated("2026-01-01T11:30:00-01:00"), noon));
    assert!(needs_sync_at(false, None, None));
    assert!(needs_sync_at(true, Some((5, 1)), Some((5, 0))));
    assert!(!needs_sync_at(true, Some((5, 0)), Some((5, 0))));
    assert_eq!(parse_timestamp("1970-01-01T00:00:01.5Z"), Some((1, 500000000)));
    assert_eq!(parse_timestamp(" "), None);
    assert_eq!(parse_timestamp("yesterday"), None);
}

// Query.

#[test]
fn excerpt_for_query_prefers_matching_line_context() {
    let text = "\
Intro that should not be surfaced first.

## Preferences
Ren likes lapsang souchong tea after long walks.

Trailing detail.";

    let excerpt = excerpt_for_query(text, "lapsang souchong", 120);
    assert!(excerpt.contains("lapsang souchong tea"));
    assert!(!excerpt.starts_with("Intro that should not be surfaced first."));
    assert_eq!(excerpt, "## Preferences Ren likes lapsang souchong tea after long walks.");
}

#[test]
fn excerpts_are_cut() {
    assert_eq!(excerpt(" a \n b\nc", 10), "a b c");
    assert_eq!(excerpt("äöüß", 2), "äö...");
    assert_eq!(truncate_chars("äöüß", 3), "äöü");
    assert_eq!(truncate_chars("äöüß", 9), "äöüß");
    assert_eq!(excerpt_for_query("one\ntwo", "zzz", 100), "one two");
}

#[test]
fn direct_responses_list_the_hits() {
    assert_eq!(format_direct_response("tea", &[]), "No memory files matched 'tea'.");
    assert_eq!(
        format_direct_response("tea", &[file("a.md", "x\nRen likes tea"), file("b.md", "no")]),
        "Top memory matches for 'tea':\n- a.md\n  x Ren likes tea\n- b.md\n  no"
    );
    let many: Vec<MarkdownEntry> = (0..12).map(|i| file(&format!("{i}.md"), "t")).collect();
    assert_eq!(format_direct_response("t", &many).lines().count(), 21);
}

#[test]
fn files_are_counted_by_kind() {
    let files = vec![
        file("DREAMS.md", ""),
        file("daily/2026-01-01.md", ""),
        file("images/cat.md", ""),
        file("people/ren.md", ""),
        file("daily.md", ""),
    ];
    let s = memory_status(&files);
    assert_eq!(s.total_files, 4);
    assert_eq!(s.daily_files, 1);
    assert_eq!(s.image_files, 1);
    assert_eq!(s.topic_files, 2);
}

fn moment(text: &str) -> Moment {
    let t = chrono::DateTime::parse_from_rfc3339(text).unwrap();
    Moment { seconds: t.timestamp(), offset_seconds: t.offset().local_minus_utc() }
}

#[test]
fn daily_notes_are_appended() {
    let ts = &moment("2026-03-25T10:05:00+01:00");
    let first = append_daily_note(None, ts, "Talk", "body\n").unwrap();
    assert_eq!(first.path, "daily/2026-03-25.md");
    assert_eq!(daily_note_path(ts), Some("daily/2026-03-25.md".to_string()));
    let direct = daily_note_at(None, "2026-03-25", "10:05", "Talk", "body\n");
    assert_eq!(first.content, direct.content);
    assert_eq!(first.content, "# Daily Notes for 2026-03-25\n\n## 10:05 - Talk\n\nbody\n");
    let second = append_daily_note(Some(&first.content), ts, "More", "again").unwrap();
    assert_eq!(
        second.content,
        "# Daily Notes for 2026-03-25\n\n## 10:05 - Talk\n\nbody\n\n## 10:05 - More\n\nagain\n"
    );
}

#[test]
fn moments_of_all_years_are_dated() {
    let at = |seconds: i64, offset_seconds: i32| Moment { seconds, offset_seconds };
    let late = append_daily_note(None, &at(253402300800, 0), "Talk", "body").unwrap();
    assert_eq!(late.path, "daily/+10000-01-01.md");
    assert_eq!(late.content, "# Daily Notes for +10000-01-01\n\n## 00:00 - Talk\n\nbody\n");
    let dream = append_dream_entry(None, &at(253402300800, -60), "T", "b").unwrap();
    assert_eq!(dream, "# Dreams\n\n## 9999-12-31 23:59 - T\n\nb\n");
    let path = |seconds: i64, offset_seconds: i32| daily_note_path(&at(seconds, offset_seconds));
    assert_eq!(path(FIRST_SECOND, 0).as_deref(), Some("daily/-262143-01-01.md"));
    assert_eq!(path(LAST_SECOND, 0).as_deref(), Some("daily/+262142-12-31.md"));
    assert!(path(FIRST_SECOND, -86399).is_some());
    assert!(path(LAST_SECOND, 86399).is_some());
    assert_eq!(path(FIRST_SECOND - 1, 0), None);
    assert_eq!(path(LAST_SECOND + 1, 0), None);
    assert_eq!(path(0, 86400), None);
    assert_eq!(path(0, -86400), None);
    assert!(append_daily_note(None, &at(i64::MAX, 0), "Talk", "body").is_none());
    assert!(append_dream_entry(None, &at(0, i32::MIN), "T", "b").is_none());
    assert_eq!(chrono::DateTime::<chrono::Utc>::MIN_UTC.timestamp(), FIRST_SECOND);
    assert_eq!(chrono::DateTime::<chrono::Utc>::MAX_UTC.timestamp(), LAST_SECOND);
}

#[test]
fn dreams_are_read_back() {
    let one = append_dream_entry(None, &moment("2026-03-25T10:05:00+00:00"), "First", "I flew.").unwrap();
    assert_eq!(one, "# Dreams\n\n## 2026-03-25 10:05 - First\n\nI flew.\n");
    assert_eq!(one, dream_entry_at(None, "2026-03-25 10:05", "First", "I flew."));
    let two = append_dream_entry(Some(&one), &moment("2026-03-26T10:05:00+00:00"), "Second", "I fell.").unwrap();
    let recent = recent_dream_entries(Some(&two), 1);
    assert_eq!(recent.len(), 1);
    assert_eq!(recent[0], "## 2026-03-26 10:05 - Second\n\nI fell.");
    assert_eq!(recent_dream_entries(Some(&two), 5).len(), 2);
    assert!(recent_dream_entries(None, 5).is_empty());
}

#[test]
fn the_latest_daily_notes_come_first() {
    let files = vec![
        file("daily/2026-01-01.md", "a"),
        file("people/ren.md", "b"),
        file("daily/2026-01-03.md", "c"),
        file("daily/2026-01-02.md", "d"),
    ];
    let notes = recent_daily_notes(files, 2);
    let got: Vec<&str> = notes.iter().map(|n| n.entry.path.as_str()).collect();
    assert_eq!(got, vec!["daily/2026-01-03.md", "daily/2026-01-02.md"]);
}

// Store.

fn store() -> MarkdownMemoryStore {
    MarkdownMemoryStore { base_dir: "/m/memories".to_string() }
}

#[test]
fn write_read_cycle() {
    assert_eq!(
        store().resolve_path("topics/gaming/doom.md").unwrap(),
        "/m/memories/topics/gaming/doom.md"
    );
    assert_eq!(store().resolve_path(" a.md ").unwrap(), "/m/memories/a.md");
}

#[test]
fn list_all_recursive() {
    let entries = list_all(vec![file("deep/b.md", "B"), file("a.md", "A")]);
    assert_eq!(entries.len(), 2);
    assert_eq!(entries[0].path, "a.md");
    assert_eq!(entries[1].path, "deep/b.md");
}

#[test]
fn search_text_finds_matches() {
    let files = vec![file("a.md", "Ren likes chocolate"), file("b.md", "Alice prefers tea")];
    let results = search_text(files, "chocolate");
    assert_eq!(results.len(), 1);
    assert_eq!(results[0].path, "a.md");
}

#[test]
fn better_matches_come_first() {
    let files = vec![
        file("z.md", "green tea and black tea"),
        file("green-tea.md", "a drink"),
        file("b.md", "tea"),
        file("a.md", "tea"),
        file("c.md", "coffee"),
    ];
    let results = search_text(files, "Green Tea");
    assert_eq!(paths(&results), vec!["z.md", "green-tea.md", "a.md", "b.md"]);
    let terms = tokenize_query("tea");
    assert_eq!(terms, vec!["tea"]);
    assert_eq!(entry_search_score(&file("tea.md", " # Tea\nx"), "tea", &terms), 50 + 40 + 30 + 12 + 10 + 4);
    assert_eq!(entry_search_score(&file("x.md", "tea"), "tea", &terms), 34);
    assert_eq!(entry_search_score(&file("x.md", "nothing"), "tea", &terms), 0);
}

#[test]
fn rejects_traversal() {
    match store().resolve_path("../secret.md") {
        Err(MarkdownStoreError::PathTraversal(e)) => assert_eq!(e, "path traversal (..) not allowed"),
        _ => panic!("expected a refusal"),
    }
    assert!(store().resolve_path("a/../../secret.md").is_err());
    assert!(store().resolve_path("/etc/passwd").is_err());
    assert!(store().resolve_path("").is_err());
}

#[test]
fn markdown_files_are_recognised() {
    for name in ["a.md", "a.MD", ".md", "md", "a.markdown", "a.md.txt", "a.", "a.b.md", "..md"] {
        let want = std::path::Path::new(name).extension().is_some_and(|e| e == "md");
        assert_eq!(is_markdown_file(name), want, "{name}");
    }
}

#[test]
fn store_errors_are_shown_with_their_kind() {
    assert_eq!(MarkdownStoreError::Io("x".to_string()).message(), "io: x");
    assert_eq!(MarkdownStoreError::NotFound("x".to_string()).message(), "not found: x");
    assert_eq!(MarkdownStoreError::PathTraversal("x".to_string()).message(), "path traversal: x");
}
