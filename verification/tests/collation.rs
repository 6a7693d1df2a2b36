use shore_daemon::memory::collation::ancestry::{
    holds_text, resolve_timestamps_from_ancestors, split_ids,
};
use shore_daemon::memory::collation::clustering::{cluster_by_embeddings, cluster_candidates};
use shore_daemon::memory::collation::prompt::{
    build_refine_prompt, PromptEntry, DEFAULT_REFINE_PROMPT,
};
use shore_daemon::memory::collation::refine::{ActionWrites, RefineRun};
use shore_daemon::memory::collation::types::{
    CollationConfig, CollationError, CollationOutcome, RefineAction, RefineEntryFields,
};
use shore_daemon::memory::collation::phases::{
    backfill_candidates, backfill_changelog, decay_changelog, may_decay, phase_backfill_timestamps,
    phase_backfill_timestamps_at, phase_confidence_decay, with_confidence, with_timestamps, Fading,
};
use shore_daemon::memory::collation::{
    context_search_size, fetch_context_entries, CollationManager,
};
use shore_daemon::memory::confidence::{clamp_score, is_at_most, ONE_BITS, ZERO_BITS};
use shore_daemon::memory::db::Entry;

const NOW: &str = "2026-03-15T12:00:00+00:00";

fn make_entry(id: &str, summary: &str, confidence: f64, updated_at: &str) -> Entry {
    Entry {
        id: id.to_string(),
        memory_type: "semantic".to_string(),
        source: "summary".to_string(),
        reason: "compaction".to_string(),
        status: "active".to_string(),
        confidence_bits: confidence.to_bits(),
        summary_text: summary.to_string(),
        topic_tags: "test".to_string(),
        topic_key: "testing".to_string(),
        start_timestamp: updated_at.to_string(),
        end_timestamp: updated_at.to_string(),
        message_count: 5,
        source_entry_ids: String::new(),
        related_entry_ids: String::new(),
        superseded_by: String::new(),
        created_at: updated_at.to_string(),
        updated_at: updated_at.to_string(),
        entry_type: String::new(),
        image_path: String::new(),
        collated_at: String::new(),
        file_path: String::new(),
    }
}

fn fields(summary: &str, tags: &str, key: &str, confidence: f64) -> RefineEntryFields {
    RefineEntryFields {
        summary_text: summary.to_string(),
        topic_tags: tags.to_string(),
        topic_key: key.to_string(),
        confidence_bits: confidence.to_bits(),
    }
}

fn now_str() -> String {
    chrono::Utc::now().to_rfc3339()
}

fn ago(seconds: i64) -> String {
    (chrono::Utc::now() - chrono::TimeDelta::seconds(seconds)).to_rfc3339()
}

fn days(n: i64) -> i64 {
    n * 86400
}

fn manager() -> CollationManager {
    CollationManager::new(CollationConfig::default())
}

fn copies(entries: &[Entry]) -> Vec<Entry> {
    entries.iter().map(|e| e.copied()).collect()
}

/// A run in which every due entry is a candidate.
fn run_over(entries: Vec<Entry>) -> RefineRun {
    let now = now_str();
    let candidates = manager().select_candidates(&entries, &now, None);
    let active = entries.len();
    RefineRun::begin(entries, &candidates, active, CollationOutcome::default(), 0, now)
}

fn entry<'a>(run: &'a RefineRun, id: &str) -> &'a Entry {
    run.table.iter().find(|e| e.id == id).unwrap()
}

fn strings(v: &[&str]) -> Vec<String> {
    v.iter().map(|s| s.to_string()).collect()
}

#[test]
fn test_refine_merge_two_entries() {
    let now = now_str();
    let mut run = run_over(vec![
        make_entry("e1", "User prefers tea", 0.8, &now),
        make_entry("e2", "User drinks tea daily", 0.85, &now),
        make_entry("e3", "User works at ACME", 0.9, &now),
    ]);
    let writes = run
        .apply_merge(
            &strings(&["e1", "e2"]),
            &fields("User prefers and drinks tea daily", "preference,beverage", "preferences", 0.9),
            "Both entries describe tea preferences",
        )
        .unwrap();
    assert_eq!(run.outcome.refine_merges, 1);
    assert_eq!(run.outcome.refine_new_entries, 1);
    assert_eq!(entry(&run, "e1").status, "superseded");
    assert_eq!(entry(&run, "e2").status, "superseded");
    assert_eq!(entry(&run, "e3").status, "active");
    let merged: Vec<&Entry> = run
        .table
        .iter()
        .filter(|e| e.status == "active" && e.source == "collation_refine")
        .collect();
    assert_eq!(merged.len(), 1);
    assert_eq!(merged[0].summary_text, "User prefers and drinks tea daily");
    assert_eq!(merged[0].source_entry_ids, "e1,e2");
    assert_eq!(merged[0].message_count, 10);
    assert_eq!(entry(&run, "e1").superseded_by, merged[0].id);
    assert_eq!(writes.created.len(), 1);
    assert_eq!(writes.superseded_ids, vec!["e1", "e2"]);
    assert!(writes.changelog.contains("tea preferences"));
    assert!(run.processed.contains(&merged[0].id));
}

#[test]
fn test_refine_rejects_single_entry_merge() {
    let now = now_str();
    let mut run = run_over(vec![make_entry("e1", "A fact", 0.8, &now)]);
    let writes = run.apply_merge(&strings(&["e1"]), &fields("Same fact", "test", "test", 0.8), "bad merge");
    assert!(writes.is_none());
    assert_eq!(run.outcome.refine_merges, 0);
    assert_eq!(entry(&run, "e1").status, "active");
}

#[test]
fn test_refine_split_broad_entry() {
    let now = now_str();
    let mut run = run_over(vec![make_entry("entry_001", "User likes tea and works at ACME", 0.9, &now)]);
    let writes = run
        .apply_split(
            "entry_001",
            &vec![
                fields("User likes tea", "preference,beverage", "preferences", 0.9),
                fields("User works at ACME", "work,employer", "employment", 0.85),
            ],
            "Entry covers two distinct topics",
        )
        .unwrap();
    assert_eq!(run.outcome.refine_splits, 1);
    assert_eq!(run.outcome.refine_new_entries, 2);
    assert_eq!(entry(&run, "entry_001").status, "superseded");
    let active: Vec<&Entry> = run.table.iter().filter(|e| e.status == "active").collect();
    assert_eq!(active.len(), 2);
    let summaries: Vec<&str> = active.iter().map(|e| e.summary_text.as_str()).collect();
    assert!(summaries.contains(&"User likes tea"));
    assert!(summaries.contains(&"User works at ACME"));
    for e in &active {
        assert_eq!(e.source_entry_ids, "entry_001");
        assert_eq!(e.source, "collation_refine");
    }
    assert_ne!(active[0].id, active[1].id);
    assert_eq!(writes.superseded_by, format!("{},{}", active[0].id, active[1].id));
    assert!(writes.changelog.contains("Split"));
}

#[test]
fn test_refine_rejects_split_with_one_result() {
    let now = now_str();
    let mut run = run_over(vec![make_entry("e1", "A fact", 0.8, &now)]);
    let writes = run.apply_split("e1", &vec![fields("Same fact", "test", "test", 0.8)], "pointless split");
    assert!(writes.is_none());
    assert_eq!(run.outcome.refine_splits, 0);
    assert_eq!(entry(&run, "e1").status, "active");
}

#[test]
fn test_refine_update_entry() {
    let now = now_str();
    let mut run = run_over(vec![make_entry("e1", "usr likes tea", 0.7, &now)]);
    let writes = run
        .apply_update(
            "e1",
            &fields("User enjoys drinking tea", "preference,beverage", "preferences", 0.85),
            "Improved clarity and specificity",
        )
        .unwrap();
    assert_eq!(run.outcome.refine_updates, 1);
    assert_eq!(run.outcome.refine_new_entries, 0);
    let e1 = entry(&run, "e1");
    assert_eq!(e1.status, "active");
    assert_eq!(e1.summary_text, "User enjoys drinking tea");
    assert_eq!(e1.topic_tags, "preference,beverage");
    assert!((f64::from_bits(e1.confidence_bits) - 0.85).abs() < 0.001);
    assert!(writes.changelog.contains("Update"));
    assert_eq!(
        writes.changelog,
        "Update [e1]: \"usr likes tea\" -> \"User enjoys drinking tea\"\n  Reason: Improved clarity and specificity"
    );
}

#[test]
fn test_refine_rejects_context_entry_update() {
    let now = now_str();
    let mut context = make_entry("context_e", "Context fact", 0.9, &now);
    context.collated_at = ago(-3600);
    let mut run = run_over(vec![context, make_entry("candidate_e", "Real candidate", 0.8, &now)]);
    assert_eq!(run.candidate_ids, vec!["candidate_e"]);
    let writes = run.apply_update(
        "context_e",
        &fields("Should not change", "test", "test", 0.9),
        "Attempted context modification",
    );
    assert!(writes.is_none());
    assert_eq!(run.outcome.refine_updates, 0);
    assert_eq!(entry(&run, "context_e").summary_text, "Context fact");
}

#[test]
fn test_refine_keep_unchanged() {
    let now = now_str();
    let entries = vec![make_entry("e1", "Good entry", 0.9, &now)];
    let cluster = copies(&entries);
    let mut run = run_over(entries);
    run.close_cluster(&cluster);
    assert_eq!(run.outcome.refine_merges, 0);
    assert_eq!(run.outcome.refine_splits, 0);
    assert_eq!(run.outcome.refine_updates, 0);
    assert_eq!(run.outcome.refine_kept, 1);
    assert_eq!(entry(&run, "e1").status, "active");
}

#[test]
fn test_refine_mixed_actions() {
    let now = now_str();
    let entries = vec![
        make_entry("m1", "Tea preference A", 0.8, &now),
        make_entry("m2", "Tea preference B", 0.85, &now),
        make_entry("s1", "Broad entry: tea and work", 0.9, &now),
        make_entry("u1", "usr prefs cofee", 0.7, &now),
    ];
    let cluster = copies(&entries);
    let mut run = run_over(entries);
    let actions = vec![
        RefineAction::Merge {
            source_entry_ids: strings(&["m1", "m2"]),
            result: fields("User prefers tea", "preference", "preferences", 0.9),
            reason: "Duplicate tea preferences".to_string(),
        },
        RefineAction::Split {
            source_entry_id: "s1".to_string(),
            results: vec![
                fields("User likes tea", "beverage", "preferences", 0.9),
                fields("User works somewhere", "work", "employment", 0.85),
            ],
            reason: "Covers two topics".to_string(),
        },
        RefineAction::Update {
            entry_id: "u1".to_string(),
            result: fields("User prefers coffee", "preference,beverage", "preferences", 0.8),
            reason: "Fixed typos".to_string(),
        },
    ];
    let mut written = Vec::new();
    for action in &actions {
        written.push(run.apply_action(action).unwrap());
    }
    assert!(matches!(&written[0], ActionWrites::Replace(w) if w.created.len() == 1));
    assert!(matches!(&written[1], ActionWrites::Replace(w) if w.created.len() == 2));
    assert!(matches!(&written[2], ActionWrites::Rewrite(w) if w.updated.id == "u1"));
    for action in &actions[..2] {
        assert!(run.apply_action(action).is_none());
    }
    run.close_cluster(&cluster);
    assert_eq!(run.outcome.refine_merges, 1);
    assert_eq!(run.outcome.refine_splits, 1);
    assert_eq!(run.outcome.refine_updates, 1);
    assert_eq!(run.outcome.refine_new_entries, 3);
    assert_eq!(run.outcome.refine_kept, 0);
    assert_eq!(entry(&run, "m1").status, "superseded");
    assert_eq!(entry(&run, "m2").status, "superseded");
    assert_eq!(entry(&run, "s1").status, "superseded");
    let u1 = entry(&run, "u1");
    assert_eq!(u1.status, "active");
    assert_eq!(u1.summary_text, "User prefers coffee");
}

#[test]
fn test_refine_clamps_confidence() {
    let now = now_str();
    let mut run = run_over(vec![
        make_entry("e1", "Fact A", 0.8, &now),
        make_entry("e2", "Fact B", 0.8, &now),
    ]);
    run.apply_merge(&strings(&["e1", "e2"]), &fields("Combined", "test", "test", 1.5), "test");
    assert_eq!(run.outcome.refine_merges, 1);
    let merged = run.table.iter().find(|e| e.source == "collation_refine").unwrap();
    assert!((f64::from_bits(merged.confidence_bits) - 1.0).abs() < 0.001);
}

#[test]
fn merged_entries_are_gone_for_the_rest_of_the_run() {
    let now = now_str();
    let mut run = run_over(vec![
        make_entry("e1", "A", 0.8, &now),
        make_entry("e2", "B", 0.8, &now),
        make_entry("e3", "C", 0.8, &now),
    ]);
    let f = fields("x", "t", "k", 0.5);
    assert!(run.apply_merge_as(&strings(&["e1", "e2"]), &f, "r", "new_0".to_string(), strings(&["t1", "t2"])).is_some());
    assert_eq!((entry(&run, "e1").updated_at.as_str(), entry(&run, "e2").updated_at.as_str()), ("t1", "t2"));
    assert!(run.apply_merge_as(&strings(&["e2", "e3"]), &f, "r", "new_1".to_string(), strings(&["t3", "t4"])).is_none());
    assert!(run.apply_update("e1", &f, "r").is_none());
    assert!(run.apply_split_as("e2", &vec![fields("a", "", "", 0.1), fields("b", "", "", 0.2)], "r",
        &strings(&["x", "y"]), "t5".to_string()).is_none());
    assert_eq!(entry(&run, "e3").summary_text, "C");
    assert_eq!(run.id_counter, 1);
    assert_eq!(run.processed, vec!["e1", "e2", "e3", "new_0"]);
    assert_eq!(run.acted_on.len(), 2);
    assert!(run.apply_merge(&strings(&["e3", "absent"]), &f, "r").is_none());
}

#[test]
fn split_entries_are_superseded_at_their_time() {
    let mut run = run_over(vec![make_entry("e1", "A", 0.8, NOW)]);
    let parts = vec![fields("a", "", "", 0.1), fields("b", "", "", 0.2)];
    let ids = strings(&["x", "y"]);
    let writes = run.apply_split_as("e1", &parts, "r", &ids, "later".to_string()).unwrap();
    assert_eq!(writes.superseded_at, vec!["later"]);
    assert_eq!(writes.superseded_by, "x,y");
    assert_eq!(entry(&run, "e1").updated_at, "later");
    assert_eq!(entry(&run, "e1").status, "superseded");
}

#[test]
fn new_entries_are_traced_to_their_sources() {
    let mut run = run_over(vec![
        make_entry("e1", "A", 0.8, "2026-02-02T00:00:00Z"),
        make_entry("e2", "B", 0.8, "2026-01-01T00:00:00Z"),
    ]);
    let w = run.apply_merge(&strings(&["e1", "e2"]), &fields("x", "", "", 0.5), "r").unwrap();
    assert_eq!(split_ids(&w.created[0].source_entry_ids), vec!["e1", "e2"]);
    assert!(w.superseded_at.iter().all(|t| t.ends_with("+00:00")));
    let mut merged = w.created[0].copied();
    merged.start_timestamp = String::new();
    merged.end_timestamp = String::new();
    let (start, _, source) = resolve_timestamps_from_ancestors(&run.table, &merged);
    assert_eq!((start.as_str(), source.as_str()), ("2026-01-01T00:00:00Z", "ancestors"));
    assert_eq!(split_ids(&w.superseded_by), vec![w.superseded_by.clone()]);
}

#[test]
fn only_merges_that_happen_are_counted() {
    let mut a = make_entry("a", "A", 0.8, NOW);
    a.message_count = i64::MAX;
    let mut run = run_over(vec![a, make_entry("b", "B", 0.8, NOW)]);
    let merge = |ids: &[&str]| RefineAction::Merge {
        source_entry_ids: strings(ids),
        result: fields("x", "t", "k", 0.5),
        reason: "r".to_string(),
    };
    assert!(!run.can_apply(&merge(&["a", "b"])));
    assert!(run.can_apply(&merge(&["a", "b", "absent"])));
    assert!(run.apply_action(&merge(&["a", "b", "absent"])).is_none());
    assert!(run.can_apply(&merge(&["a"])));
    run.outcome.refine_merges = usize::MAX;
    assert!(!run.can_apply(&merge(&["a"])));
}

#[test]
fn merged_entries_span_their_sources() {
    let mut a = make_entry("a", "A", 0.8, "2026-02-01");
    a.end_timestamp = "2026-02-03".to_string();
    let mut b = make_entry("b", "B", 0.8, "2026-01-01");
    b.end_timestamp = "2026-01-09".to_string();
    let mut c = make_entry("c", "C", 0.8, "2026-01-01");
    c.start_timestamp = String::new();
    c.end_timestamp = String::new();
    let mut run = run_over(vec![a, b, c]);
    let times = strings(&["1", "2", "3"]);
    run.apply_merge_as(&strings(&["c", "a", "b"]), &fields("x", "t", "k", 0.5), "r", "n".to_string(), times);
    let m = entry(&run, "n");
    assert_eq!(m.start_timestamp, "2026-01-01");
    assert_eq!(m.end_timestamp, "2026-02-03");
}

#[test]
fn runs_without_candidates_pass_all_entries_over() {
    let run = RefineRun::begin(vec![], &vec![], 7, CollationOutcome::default(), 3, "n".to_string());
    assert_eq!(run.outcome.entries_skipped, 7);
    assert_eq!(run.id_counter, 3);
    assert!(run.processed.is_empty());
}

// Fading confidence.

/// Halves the confidence every 30 days, down to a floor.
fn fading(e: &Entry, now: &str, floor: f64) -> Fading {
    let at = |t: &str| chrono::DateTime::parse_from_rfc3339(t).unwrap();
    let days = (at(now) - at(&e.updated_at)).num_seconds() as f64 / 86400.0;
    let old = f64::from_bits(e.confidence_bits);
    let new = (old * 0.5f64.powf(days / 30.0)).max(floor);
    Fading { confidence_bits: new.to_bits(), is_negligible: (old - new).abs() < 0.001 }
}

fn decayed(entries: &Vec<Entry>, floor: f64) -> (Vec<Entry>, CollationOutcome, Option<String>) {
    let now = now_str();
    let fadings: Vec<Fading> = entries.iter().map(|e| fading(e, &now, floor)).collect();
    let mut outcome = CollationOutcome::default();
    let w = phase_confidence_decay(entries, &fadings, floor.to_bits(), "30", &now, &mut outcome);
    (w.updated, outcome, w.changelog)
}

#[test]
fn test_confidence_decay_reduces_stale_entries() {
    let (updated, outcome, _) = decayed(&vec![make_entry("old_entry", "Old fact", 0.8, &ago(days(30)))], 0.1);
    assert_eq!(outcome.entries_decayed, 1);
    let confidence = f64::from_bits(updated[0].confidence_bits);
    assert!(confidence > 0.35 && confidence < 0.45);
}

#[test]
fn test_confidence_decay_respects_floor() {
    let (updated, outcome, _) = decayed(&vec![make_entry("ancient", "Very old fact", 0.2, &ago(days(365)))], 0.1);
    assert_eq!(outcome.entries_decayed, 1);
    assert!(f64::from_bits(updated[0].confidence_bits) >= 0.1);
    assert!(!may_decay(0.1f64.to_bits(), 0.1f64.to_bits(), Some(days(365))));
    assert!(!may_decay(0.05f64.to_bits(), 0.1f64.to_bits(), Some(days(365))));
}

#[test]
fn test_confidence_decay_skips_recent_entries() {
    let (updated, outcome, changelog) = decayed(&vec![make_entry("fresh", "Recent fact", 0.9, &now_str())], 0.1);
    assert_eq!(outcome.entries_decayed, 0);
    assert_eq!(outcome.entries_skipped, 1);
    assert!(updated.is_empty());
    assert_eq!(changelog, None);
    assert!(!may_decay(0.9f64.to_bits(), 0.1f64.to_bits(), Some(0)));
    assert!(may_decay(0.9f64.to_bits(), 0.1f64.to_bits(), Some(1)));
    assert!(!may_decay(0.9f64.to_bits(), 0.1f64.to_bits(), None));
}

#[test]
fn test_confidence_decay_records_changelog() {
    let (_, _, changelog) = decayed(&vec![make_entry("decaying", "Old fact", 0.8, &ago(days(30)))], 0.1);
    assert_eq!(
        changelog.as_deref(),
        Some("Confidence decay: 1 entries decayed (half-life 30d)")
    );
    assert_eq!(
        decay_changelog(12, "30"),
        "Confidence decay: 12 entries decayed (half-life 30d)"
    );
    let e = with_confidence(&make_entry("e", "s", 0.8, NOW), 0.4f64.to_bits(), "later");
    assert_eq!(f64::from_bits(e.confidence_bits), 0.4);
    assert_eq!(e.updated_at, "later");
    assert_eq!(e.created_at, NOW);
}

#[test]
fn test_decay_runs_every_time_regardless_of_collated_at() {
    let old = ago(days(30));
    let mut e = make_entry("old_e", "Old fact", 0.8, &old);
    e.collated_at = old;
    let (updated, outcome, _) = decayed(&vec![e], 0.1);
    assert_eq!(outcome.entries_decayed, 1);
    let confidence = f64::from_bits(updated[0].confidence_bits);
    assert!(confidence > 0.35 && confidence < 0.45);
}

#[test]
fn confidences_are_clamped_as_doubles() {
    let values = [
        0.0, -0.0, 0.5, 1.0, 1.0000000000000002, 1.5, -1.5, -1e-300, f64::MIN_POSITIVE, 5e-324, f64::MAX,
        f64::INFINITY, f64::NEG_INFINITY, f64::NAN, 0.9999999999999999,
    ];
    for v in values {
        let got = f64::from_bits(clamp_score(v.to_bits(), ZERO_BITS, ONE_BITS));
        let want = v.clamp(0.0, 1.0);
        assert!(got == want || (got.is_nan() && want.is_nan()), "{v}");
        for w in values {
            assert_eq!(is_at_most(v.to_bits(), w.to_bits()), v <= w, "{v} {w}");
        }
    }
}

// Candidates.

#[test]
fn test_new_entries_always_candidates() {
    assert!(manager().is_refine_candidate(&make_entry("e1", "New fact", 0.9, &now_str())));
}

#[test]
fn test_recently_collated_not_candidates() {
    let now = now_str();
    let mut e = make_entry("e1", "Old fact", 0.9, &now);
    e.collated_at = now;
    assert!(!manager().is_refine_candidate(&e));
}

#[test]
fn test_ttl_expired_are_candidates() {
    let mgr = CollationManager::new(CollationConfig { reconsider_ttl_seconds: days(7) });
    let mut e = make_entry("e1", "Old fact", 0.9, &now_str());
    e.collated_at = ago(days(10));
    assert!(mgr.is_refine_candidate(&e));
}

#[test]
fn test_modified_since_collation_are_candidates() {
    let mut e = make_entry("e1", "Updated fact", 0.9, &now_str());
    e.collated_at = ago(3600);
    assert!(manager().is_refine_candidate(&e));
}

#[test]
fn test_image_excluded() {
    let mut e = make_entry("img1", "Photo memory", 0.9, &now_str());
    e.image_path = "attachments/photo.jpg".to_string();
    assert!(!manager().is_refine_candidate(&e));
}

#[test]
fn candidates_are_judged_by_the_age_of_their_stamp() {
    let mgr = CollationManager::new(CollationConfig { reconsider_ttl_seconds: days(7) });
    let mut e = make_entry("e1", "Fact", 0.9, "2026-03-01T00:00:00+00:00");
    e.collated_at = "2026-03-01T00:00:00+00:00".to_string();
    assert!(!mgr.is_refine_candidate_at(&e, "2026-03-08T00:00:00+00:00"));
    assert!(mgr.is_refine_candidate_at(&e, "2026-03-08T00:00:01+00:00"));
    assert!(!mgr.is_refine_candidate_at(&e, "2026-03-08T01:00:01+02:00"));
    assert!(mgr.is_refine_candidate_aged(&e, None));
    e.collated_at = "unreadable".to_string();
    assert!(mgr.is_refine_candidate_at(&e, "2026-03-01T00:00:00+00:00"));
}

#[test]
fn test_collated_at_prevents_reprocessing() {
    let mut e = make_entry("e1", "A fact", 0.9, &now_str());
    e.collated_at = ago(-3600);
    let mut run = run_over(vec![e]);
    assert_eq!(run.outcome.entries_skipped, 1);
    assert!(run.apply_update("e1", &fields("Should not happen", "test", "test", 0.9), "test").is_none());
    assert_eq!(run.outcome.refine_updates, 0);
    assert_eq!(entry(&run, "e1").summary_text, "A fact");
}

#[test]
fn test_batch_limit_caps_candidates() {
    let now = now_str();
    let entries: Vec<Entry> =
        (0..5).map(|i| make_entry(&format!("e{i}"), &format!("Fact {i}"), 0.9, &now)).collect();
    let candidates = manager().select_candidates(&entries, &now, Some(2));
    let run = RefineRun::begin(entries, &candidates, 5, CollationOutcome::default(), 0, now);
    assert_eq!(run.processed, vec!["e0", "e1"]);
}

#[test]
fn test_stamping_only_candidates() {
    let now = now_str();
    let a = make_entry("a", "New fact", 0.9, &now);
    let mut b = make_entry("b", "Old fact", 0.9, &now);
    b.collated_at = now.clone();
    let run = run_over(vec![a, b]);
    assert_eq!(run.processed, vec!["a"]);
}

#[test]
fn test_second_run_processes_ttl_expired() {
    let mut e = make_entry("old", "Old fact", 0.9, &now_str());
    e.collated_at = ago(days(10));
    let mgr = CollationManager::new(CollationConfig { reconsider_ttl_seconds: days(7) });
    let candidates = mgr.select_candidates(&vec![e], &now_str(), None);
    assert_eq!(candidates.len(), 1);
    assert_eq!(candidates[0].id, "old");
}

// Prompt.

fn shown(entries: &[Entry], confidence: &str) -> Vec<PromptEntry> {
    entries
        .iter()
        .map(|e| PromptEntry { entry: e.copied(), confidence_text: confidence.to_string() })
        .collect()
}

#[test]
fn test_build_refine_prompt_labels() {
    let now = now_str();
    let candidates = shown(&[make_entry("c1", "Candidate entry", 0.9, &now)], "0.90");
    let context = shown(&[make_entry("ctx1", "Context entry", 0.8, &now)], "0.80");
    let prompt = build_refine_prompt(
        "Candidates:\n{{candidates}}\nContext:\n{{context}}",
        &candidates,
        &context,
        &vec![],
    );
    assert!(prompt.contains("[CANDIDATE] ID: c1"));
    assert!(prompt.contains("[CONTEXT] ID: ctx1"));
    assert!(prompt.contains("Candidate entry"));
    assert!(prompt.contains("Context entry"));
    assert!(!prompt.contains("{{candidates}}"));
    assert!(!prompt.contains("{{context}}"));
}

#[test]
fn test_build_refine_prompt_substitutes_vars() {
    let now = now_str();
    let candidates = shown(&[make_entry("e1", "Test", 0.9, &now)], "0.90");
    let vars = vec![
        ("char".to_string(), "Shore".to_string()),
        ("user".to_string(), "Alice".to_string()),
    ];
    let prompt = build_refine_prompt(
        "{{char}} and {{user}}:\n{{candidates}}\n{{context}}",
        &candidates,
        &vec![],
        &vars,
    );
    assert!(prompt.contains("Shore and Alice:"));
    assert!(!prompt.contains("{{char}}"));
    assert!(!prompt.contains("{{user}}"));
}

#[test]
fn test_build_refine_prompt_includes_timestamps() {
    let candidates = shown(&[make_entry("e1", "Test", 0.9, "2026-03-15T12:00:00Z")], "0.90");
    let prompt = build_refine_prompt("{{candidates}}\n{{context}}", &candidates, &vec![], &vec![]);
    assert!(prompt.contains("Time: 2026-03-15T12:00:00Z"));
    assert!(prompt.starts_with(
        "[CANDIDATE] ID: e1 | Tags: test | Key: testing | Confidence: 0.90 | Time: 2026-03-15T12:00:00Z\n  Test"
    ));
}

#[test]
fn refine_prompt_definitions() {
    let vars = vec![("char_description".to_string(), "Kind.".to_string())];
    let prompt = build_refine_prompt("{{definitions}}|{{char_description}}", &vec![], &vec![], &vars);
    assert_eq!(prompt, "## Character definition\nKind.\n\n|Kind.");
    let default = build_refine_prompt(DEFAULT_REFINE_PROMPT, &vec![], &vec![], &vec![]);
    assert!(!default.contains("{{candidates}}"));
}

// Missing timestamps.

fn undated(id: &str, sources: &str, created_at: &str) -> Entry {
    let mut e = make_entry(id, id, 0.8, created_at);
    e.start_timestamp = String::new();
    e.end_timestamp = String::new();
    e.source_entry_ids = sources.to_string();
    e
}

/// Fills in the timestamps of a table of active entries, and gives the table and the number filled in.
fn backfilled(mut table: Vec<Entry>, batch: usize) -> (Vec<Entry>, usize) {
    let active = copies(&table);
    let mut outcome = CollationOutcome::default();
    let times: Vec<String> = (0..active.len()).map(|i| format!("time {i}")).collect();
    let writes = phase_backfill_timestamps_at(&mut table, &active, batch, &times, &mut outcome);
    assert_eq!(writes.updated.len(), outcome.timestamps_backfilled);
    assert_eq!(writes.sources.len(), outcome.timestamps_backfilled);
    assert_eq!(writes.changelog.is_some(), outcome.timestamps_backfilled > 0);
    (table, outcome.timestamps_backfilled)
}

#[test]
fn test_backfill_from_ancestors() {
    let parent = make_entry("parent1", "Parent entry", 0.9, NOW);
    let child = undated("child1", "parent1", "2026-04-01");
    let (table, n) = backfilled(vec![parent, child], 20);
    assert_eq!(n, 1);
    assert_eq!(table[1].start_timestamp, NOW);
    assert_eq!(table[1].end_timestamp, NOW);
    assert_eq!(table[1].updated_at, "time 0");
    assert_eq!(table[1].created_at, "2026-04-01");
}

#[test]
fn test_backfill_falls_back_to_created_at() {
    let (table, n) = backfilled(vec![undated("orphan1", "", NOW)], 20);
    assert_eq!(n, 1);
    assert_eq!(table[0].start_timestamp, NOW);
}

#[test]
fn test_backfill_respects_batch_size() {
    let table = (0..5).map(|i| undated(&format!("e{i}"), "", NOW)).collect();
    let (table, n) = backfilled(table, 3);
    assert_eq!(n, 3);
    assert_eq!(table.iter().filter(|e| e.start_timestamp.is_empty()).count(), 2);
    assert_eq!(backfilled(vec![], 3).1, 0);
}

#[test]
fn test_backfill_walks_chain() {
    let ts = "2026-01-15T12:00:00Z";
    let grandparent = make_entry("gp1", "Grandparent", 0.9, ts);
    let parent = undated("p1", "gp1", "2026-02-02");
    let child = undated("c1", "p1", "2026-03-03");
    let (table, n) = backfilled(vec![child, parent, grandparent], 20);
    assert_eq!(n, 2);
    assert_eq!(table[0].start_timestamp, ts);
    assert_eq!(table[1].start_timestamp, ts);
}

#[test]
fn filled_in_timestamps_are_reported() {
    let mut table = vec![
        make_entry("gp1", "Grandparent", 0.9, NOW),
        undated("p1", "gp1", "2026-02-02"),
        undated("x", "", "2026-03-03"),
    ];
    let active = copies(&table);
    let mut outcome = CollationOutcome::default();
    let writes = phase_backfill_timestamps(&mut table, &active, 20, &mut outcome);
    assert!(writes.updated.iter().all(|e| e.updated_at.starts_with("20")));
    assert_eq!(writes.sources, vec!["ancestors", "created_at"]);
    assert_eq!(
        writes.changelog.as_deref(),
        Some("Backfilled timestamps for 2 entries (1 from ancestors, 1 from created_at)")
    );
    assert_eq!(
        backfill_changelog(2, 2, 0),
        "Backfilled timestamps for 2 entries (2 from ancestors, 0 from created_at)"
    );
    assert_eq!(backfill_candidates(&active, 1)[0].id, "p1");
    assert_eq!(with_timestamps(&active[1], "a", "b", "c").end_timestamp, "b");
}

#[test]
fn ancestors_in_a_circle_are_visited_once() {
    let mut a = make_entry("a", "A", 0.9, "2026-05-05");
    a.start_timestamp = String::new();
    a.end_timestamp = String::new();
    a.source_entry_ids = "b, missing".to_string();
    let mut b = make_entry("b", "B", 0.9, "2026-06-06");
    b.start_timestamp = String::new();
    b.end_timestamp = String::new();
    b.source_entry_ids = "a,c,d".to_string();
    let mut c = make_entry("c", "C", 0.9, "2026-02-02");
    c.end_timestamp = "2026-02-04".to_string();
    let d = make_entry("d", "D", 0.9, "2026-02-03");
    let table = vec![a, b, c, d];
    let (start, end, source) = resolve_timestamps_from_ancestors(&table, &table[0]);
    assert_eq!(start, "2026-02-02");
    assert_eq!(end, "2026-02-04");
    assert_eq!(source, "ancestors");
    assert_eq!(split_ids(" a ,, b"), vec!["a", "b"]);
    assert!(holds_text(&strings(&["x", "y"]), "y"));
    assert!(!holds_text(&strings(&["x", "y"]), "z"));
}

// Clusters. Neighbours are numbered from the nearest on.

fn similar(count: usize, groups: &[&[usize]]) -> Vec<Option<Vec<usize>>> {
    (0..count)
        .map(|i| {
            groups
                .iter()
                .find(|g| g.contains(&i))
                .map(|g| g.iter().copied().filter(|&j| j != i).collect())
        })
        .collect()
}

#[test]
fn collation_test_cluster_by_embeddings_groups_similar() {
    let clusters = cluster_by_embeddings(&similar(6, &[&[0, 1, 2], &[3, 4, 5]]));
    assert_eq!(clusters.len(), 2);
    let mut sizes: Vec<usize> = clusters.iter().map(|c| c.len()).collect();
    sizes.sort();
    assert_eq!(sizes, vec![3, 3]);
    for cluster in &clusters {
        let all_food = cluster.iter().all(|i| [0, 1, 2].contains(i));
        let all_tech = cluster.iter().all(|i| [3, 4, 5].contains(i));
        assert!(all_food || all_tech);
    }
}

#[test]
fn collation_test_cluster_candidates_small_set_no_clustering() {
    let clusters = cluster_candidates(5, &None);
    assert_eq!(clusters.len(), 1);
    assert_eq!(clusters[0].len(), 5);
}

#[test]
fn collation_test_cluster_candidates_no_vectorstore_chunks() {
    let clusters = cluster_candidates(30, &None);
    assert_eq!(clusters.len(), 2);
    assert_eq!(clusters[0].len(), 15);
    assert_eq!(clusters[1].len(), 15);
}

#[test]
fn clustering_test_cluster_by_embeddings_groups_similar() {
    let mut clusters = cluster_by_embeddings(&similar(6, &[&[0, 1, 2], &[3, 4, 5]]));
    for cluster in &mut clusters {
        cluster.sort();
    }
    clusters.sort();
    assert_eq!(clusters, vec![vec![0, 1, 2], vec![3, 4, 5]]);
}

#[test]
fn clustering_test_cluster_candidates_small_set_no_clustering() {
    assert_eq!(cluster_candidates(5, &None), vec![vec![0, 1, 2, 3, 4]]);
}

#[test]
fn clustering_test_cluster_candidates_no_vectorstore_chunks() {
    let clusters = cluster_candidates(30, &None);
    assert_eq!(clusters, vec![(0..15).collect::<Vec<usize>>(), (15..30).collect()]);
}

#[test]
fn every_candidate_is_in_one_cluster() {
    let mut nb = similar(40, &[&[0, 1, 2, 3, 4, 5, 6, 7, 8, 9, 10, 11, 12, 13, 14, 15, 16, 17, 18, 19, 20],
        &[30, 31, 32]]);
    nb[39] = None;
    let clusters = cluster_candidates(40, &Some(nb));
    let mut all: Vec<usize> = clusters.iter().flatten().copied().collect();
    all.sort();
    assert_eq!(all, (0..40).collect::<Vec<usize>>());
    assert!(clusters.iter().all(|c| c.len() <= 15));
}

// Context.

#[test]
fn context_leaves_candidates_out() {
    let mut old = make_entry("old", "x", 0.9, NOW);
    old.status = "superseded".to_string();
    let table = vec![make_entry("a", "x", 0.9, NOW), make_entry("b", "x", 0.9, NOW), old];
    let ctx = fetch_context_entries(&strings(&["old", "b", "a", "gone"]), &table, &strings(&["a"]));
    assert_eq!(ctx.len(), 1);
    assert_eq!(ctx[0].id, "b");
    assert_eq!(context_search_size(5), 15);
    let many: Vec<Entry> = (0..20).map(|i| make_entry(&format!("e{i}"), "x", 0.9, NOW)).collect();
    let found: Vec<String> = (0..20).map(|i| format!("e{i}")).collect();
    assert_eq!(fetch_context_entries(&found, &many, &vec![]).len(), 10);
}

#[test]
fn collation_errors_are_shown_with_their_kind() {
    assert_eq!(CollationError::Llm("x".to_string()).message(), "llm: x");
    assert_eq!(CollationError::Db("x".to_string()).message(), "db: x");
    assert_eq!(CollationConfig::default().reconsider_ttl_seconds, 2592000);
}
