use shore_daemon::memory::compaction::types::RetentionParams;
use shore_daemon::memory::compaction_impls::{
    file_text, resolve_image_gen_config, CompactionManifest, ImageGenEntry, RealConversationManager,
    SegmentEntry,
};

const M1: &str = r#"{"msg_id":"m1","role":"User","content":"hello","images":[],"timestamp":"t1"}"#;
const M2: &str = r#"{"msg_id":"m2","role":"Assistant","content":"hi","images":[],"timestamp":"t2"}"#;
const M3: &str = r#"{"msg_id":"m3","role":"User","content":"bye","images":[],"timestamp":"t3"}"#;

fn params(keep_last_n: usize, active_content: String) -> RetentionParams {
    RetentionParams { keep_last_n, recap: None, active_content }
}

#[test]
fn archive_and_retain_splits_messages() {
    let content = format!("{M1}\n{M2}\n{M3}\n");
    let mgr = RealConversationManager::new("dir");
    let split = mgr.archive_and_retain(&params(1, content));
    assert!(!mgr.new_conversation_id().is_empty());

    let seg = file_text(&split.archived);
    assert!(seg.contains("m1"));
    assert!(seg.contains("m2"));
    assert!(!seg.contains("m3"));
    assert_eq!(seg, format!("{M1}\n{M2}\n"));

    let active = file_text(&split.retained);
    assert!(!active.contains("m1"));
    assert!(!active.contains("m2"));
    assert!(active.contains("m3"));

    let mut manifest = CompactionManifest::empty();
    let file = manifest.add_segment(split.archived.len());
    assert_eq!(file, "0001.jsonl");
    assert_eq!(manifest.segments.len(), 1);
    assert_eq!(manifest.segments[0].message_count, 2);
    assert_eq!(manifest.total_compacted_messages, 2);
}

#[test]
fn archive_and_retain_keep_all() {
    let content = format!("{M1}\n{M2}\n");
    let split = RealConversationManager::new("dir").archive_and_retain(&params(5, content));
    let active = file_text(&split.retained);
    assert!(active.contains("m1"));
    assert!(active.contains("m2"));
    assert!(split.archived.is_empty());
}

#[test]
fn archive_increments_segment_number() {
    let mut manifest = CompactionManifest {
        segments: vec![SegmentEntry {
            file: "0001.jsonl".into(),
            message_count: 5,
            compacted_at: "2026-01-01T00:00:00Z".into(),
        }],
        total_compacted_messages: 5,
    };
    let split = RealConversationManager::new("dir").archive_and_retain(&params(0, format!("{M3}\n")));
    let file = manifest.add_segment(split.archived.len());
    assert_eq!(file, "0002.jsonl");
    assert_eq!(manifest.segments.len(), 2);
    assert_eq!(manifest.segments[1].file, "0002.jsonl");
    assert_eq!(manifest.total_compacted_messages, 6);
    assert!(!manifest.segments[1].compacted_at.is_empty());
}

#[test]
fn archive_with_malformed_jsonl_lines() {
    let garbage = r#"corrupted{{{not valid json at all"#;
    let content = format!("{M1}\n{garbage}\n{M2}\n");
    let split = RealConversationManager::new("dir").archive_and_retain(&params(1, content));
    let seg = file_text(&split.archived);
    assert!(seg.contains("m1"));
    assert!(seg.contains("corrupted{{{"));
    assert!(!seg.contains("m2"));
    let active = file_text(&split.retained);
    assert!(active.contains("m2"));
    assert!(!active.contains("m1"));
    let mut manifest = CompactionManifest::empty();
    manifest.add_segment_at(split.archived.len(), "now".to_string());
    assert_eq!(manifest.segments[0].message_count, 2);
    assert_eq!(manifest.segments[0].compacted_at, "now");
}

#[test]
fn archive_empty_content_is_noop() {
    let split = RealConversationManager::new("dir").archive_and_retain(&params(1, String::new()));
    assert!(split.archived.is_empty());
    assert!(split.retained.is_empty());
    assert_eq!(file_text(&split.retained), "");
}

#[test]
fn archived_and_retained_messages_are_the_whole_conversation() {
    let content = format!("{M1}\n\n{M2}\n  \n{M3}");
    let mgr = RealConversationManager::new("dir");
    for keep in 0..5 {
        let split = mgr.archive_and_retain(&params(keep, content.clone()));
        let files = file_text(&split.archived) + &file_text(&split.retained);
        assert_eq!(files, format!("{M1}\n{M2}\n{M3}\n"));
        let again = mgr.archive_and_retain(&params(0, file_text(&split.retained)));
        assert_eq!(again.archived, split.retained);
    }
    let mut manifest = CompactionManifest::empty();
    manifest.add_segment(2);
    assert!(chrono::DateTime::parse_from_rfc3339(&manifest.segments[0].compacted_at).is_ok());
    manifest.add_segment(3);
    let total: usize = manifest.segments.iter().map(|s| s.message_count).sum();
    assert_eq!(manifest.total_compacted_messages, total);
}

#[test]
fn archive_files_lie_in_the_character_directory() {
    let mgr = RealConversationManager::new("/data/alice");
    assert_eq!(mgr.active_path(), "/data/alice/active.jsonl");
    assert_eq!(mgr.manifest_path(), "/data/alice/compaction.json");
    assert_eq!(mgr.segments_dir(), "/data/alice/segments");
}

#[test]
fn conversation_ids_are_random() {
    let mgr = RealConversationManager::new("d");
    let id = mgr.new_conversation_id();
    assert_eq!(id.len(), 36);
    for at in [8, 13, 18, 23] {
        assert_eq!(&id[at..at + 1], "-");
    }
    assert_ne!(id, mgr.new_conversation_id());
}

fn profile(name: &str) -> ImageGenEntry {
    ImageGenEntry {
        name: name.to_string(),
        model_id: Some(format!("{name}-model")),
        provider: None,
        api_key_env: None,
        base_url: None,
        size: None,
        quality: None,
        aspect_ratio: None,
        image_size: None,
    }
}

#[test]
fn image_generation_profiles() {
    let env = vec![
        ("OPENAI_API_KEY".to_string(), "plain".to_string()),
        ("OPENROUTER_API_KEY".to_string(), "router".to_string()),
        ("MINE".to_string(), "mine".to_string()),
    ];
    let mut router = profile("router");
    router.provider = Some("openrouter".to_string());
    router.size = Some("512x512".to_string());
    router.quality = Some("high".to_string());
    let mut own = profile("own");
    own.api_key_env = Some("MINE".to_string());
    own.base_url = Some("http://x".to_string());
    let mut broken = profile("broken");
    broken.model_id = None;
    let mut keyless = profile("keyless");
    keyless.api_key_env = Some("ABSENT".to_string());
    let catalog = vec![profile("plain"), router, own, broken, keyless];

    let c = resolve_image_gen_config(None, &catalog, &env).unwrap();
    assert_eq!(c.model_id, "plain-model");
    assert_eq!(c.provider, "openai");
    assert_eq!(c.api_key, "plain");
    assert_eq!(c.size, "1024x1024");
    assert_eq!(c.quality, None);
    let c = resolve_image_gen_config(Some("router"), &catalog, &env).unwrap();
    assert_eq!(c.provider, "openrouter");
    assert_eq!(c.api_key, "router");
    assert_eq!(c.size, "512x512");
    assert_eq!(c.quality, Some("high".to_string()));
    let c = resolve_image_gen_config(Some("own"), &catalog, &env).unwrap();
    assert_eq!(c.api_key, "mine");
    assert_eq!(c.base_url, Some("http://x".to_string()));

    assert_eq!(
        resolve_image_gen_config(Some("nope"), &catalog, &env).unwrap_err(),
        "image generation profile 'nope' not found in model catalog"
    );
    assert_eq!(
        resolve_image_gen_config(Some("broken"), &catalog, &env).unwrap_err(),
        "image generation profile 'broken' is missing model_id"
    );
    assert!(resolve_image_gen_config(Some("keyless"), &catalog, &env).unwrap_err().contains("ABSENT"));
    assert_eq!(
        resolve_image_gen_config(None, &vec![], &env).unwrap_err(),
        "no image generation model configured"
    );
}
