use shore_daemon::memory::deferred_edits::{
    active_prompt_dir, active_prompt_file, ensure_active_prompt_snapshot,
    ensure_character_workspace, is_protected_path, load_active_prompt_file,
    normalize_protected_path, pending_deferred_edit_paths, protected_paths, queue_deferred_edit,
    queue_line, queue_path, recent_memory_digest, recent_memory_digest_path,
    refresh_active_prompt_snapshot, workspace_migrations, SnapshotAction, SOUL_FILE,
};
use shore_daemon::runtime_state::{
    character_runtime_state_path, load_active_model, load_character_runtime_state,
    save_active_model, CharacterRuntimeState,
};

/// Carries out an action on a file of the snapshot.
fn carry_out(action: SnapshotAction, workspace: Option<&str>, snapshot: Option<String>) -> Option<String> {
    match action {
        SnapshotAction::CopyFromWorkspace => workspace.map(|s| s.to_string()),
        SnapshotAction::Remove => None,
        SnapshotAction::Leave => snapshot,
    }
}

fn ensured(workspace: Option<&str>, snapshot: Option<String>) -> Option<String> {
    let action = ensure_active_prompt_snapshot(workspace.is_some(), snapshot.is_some());
    carry_out(action, workspace, snapshot)
}

fn refreshed(workspace: Option<&str>, snapshot: Option<String>) -> Option<String> {
    let action = refresh_active_prompt_snapshot(workspace.is_some(), snapshot.is_some());
    carry_out(action, workspace, snapshot)
}

#[test]
fn test_is_protected_path() {
    assert!(is_protected_path("SOUL.md"));
    assert!(is_protected_path("workspace/SOUL.md"));
    assert!(is_protected_path("/workspace/USER.md"));
    assert!(is_protected_path(r"workspace\AGENTS.md"));
    assert!(is_protected_path("TOOLS.md"));
    assert!(!is_protected_path("notes.md"));
}

#[test]
fn test_queue_and_apply_refreshes_snapshot() {
    let soul = refreshed(Some("new soul"), None);
    assert_eq!(soul.as_deref(), Some("new soul"));
    assert_eq!(refreshed(Some("new user"), Some("old user".to_string())).as_deref(), Some("new user"));
    assert_eq!(refreshed(None, Some("gone".to_string())), None);
    assert_eq!(refreshed(None, None), None);
}

#[test]
fn test_pending_paths_deduped() {
    let mut queue = String::new();
    for path in ["workspace/SOUL.md", "SOUL.md", "AGENTS.md"] {
        queue.push_str(&queue_deferred_edit(path).unwrap());
        queue.push('\n');
    }
    let paths = pending_deferred_edit_paths(Some(&queue));
    assert_eq!(paths, vec!["AGENTS.md".to_string(), "SOUL.md".to_string()]);
}

#[test]
fn pending_paths_skip_what_cannot_be_read() {
    let queue = format!(
        "\n  {}  \nnot json\n{{\"path\":7}}\n{{\"path\":\"notes.md\"}}\n[]\n{{\"path\":\"/workspace/USER.md\"}}",
        queue_line("TOOLS.md", "t")
    );
    assert_eq!(pending_deferred_edit_paths(Some(&queue)), vec!["TOOLS.md", "USER.md"]);
    assert!(pending_deferred_edit_paths(None).is_empty());
    assert!(queue_deferred_edit("notes.md").is_none());
    let line = queue_line("a\"\n\\b", "2026-01-01T00:00:00+00:00");
    assert!(!line.contains('\n'));
    let value: serde_json::Value = serde_json::from_str(&line).unwrap();
    assert_eq!(value["path"].as_str(), Some("a\"\n\\b"));
    assert_eq!(value["timestamp"].as_str(), Some("2026-01-01T00:00:00+00:00"));
}

#[test]
fn test_workspace_migration_and_global_seed() {
    let m = workspace_migrations("config/characters/TestChar", "ws");
    assert_eq!(m[0].source, "config/characters/TestChar/character.md");
    assert_eq!(m[0].target, "ws/SOUL.md");
    assert_eq!(m[1].source, "config/characters/TestChar/user.md");
    assert_eq!(m[1].target, "ws/USER.md");
    assert_eq!(m[2].source, "config/characters/TestChar/prompts/system.md");
    assert_eq!(m[2].target, "ws/AGENTS.md");
    assert!(ensure_character_workspace(true, false));
    assert!(!ensure_character_workspace(true, true));
    assert!(!ensure_character_workspace(false, false));
}

#[test]
fn test_snapshot_seed_only_when_missing() {
    let seeded = ensured(Some("workspace soul"), None);
    let again = ensured(Some("edited later"), seeded);
    assert_eq!(again.as_deref(), Some("workspace soul"));
}

#[test]
fn test_protected_edit_stays_deferred_until_apply() {
    let active = ensured(Some("active soul"), None);
    let queue = queue_deferred_edit("SOUL.md").unwrap();
    let value: serde_json::Value = serde_json::from_str(&queue).unwrap();
    let queued_at = value["timestamp"].as_str().unwrap();
    assert!(chrono::DateTime::parse_from_rfc3339(queued_at).is_ok());
    let active = ensured(Some("edited soul"), active);
    assert_eq!(active.as_deref(), Some("active soul"));
    assert_eq!(pending_deferred_edit_paths(Some(&queue)), vec!["SOUL.md"]);
    let active = refreshed(Some("edited soul"), active);
    assert_eq!(active.as_deref(), Some("edited soul"));
}

#[test]
fn protected_names_are_kept_by_normalising() {
    for name in protected_paths() {
        assert_eq!(normalize_protected_path(&name), Some(name.clone()));
        assert_eq!(normalize_protected_path(&format!("workspace/{name}")), Some(name.clone()));
    }
    assert_eq!(protected_paths().len(), 5);
    assert_eq!(normalize_protected_path(r"\workspace\HEARTBEAT.md"), Some("HEARTBEAT.md".to_string()));
    assert_eq!(normalize_protected_path("sub/SOUL.md"), None);
}

#[test]
fn prompt_files_lie_below_the_data_directory() {
    assert_eq!(active_prompt_dir("/d/alice"), "/d/alice/active_prompt");
    assert_eq!(active_prompt_file("/d/alice", SOUL_FILE), "/d/alice/active_prompt/SOUL.md");
    assert_eq!(recent_memory_digest_path("/d/alice"), "/d/alice/active_prompt/RECENT_MEMORY.md");
    assert_eq!(queue_path("/d/alice/"), "/d/alice/deferred_edits.jsonl");
    assert_eq!(load_active_prompt_file(Some(" x ".to_string())), Some(" x ".to_string()));
    assert_eq!(load_active_prompt_file(Some(" \n".to_string())), None);
    assert_eq!(load_active_prompt_file(None), None);
    assert_eq!(recent_memory_digest("\n A recap of events. \n\n"), "A recap of events.\n");
}

#[test]
fn archive_and_retain_writes_recap() {
    assert_eq!(recent_memory_digest("A recap of events."), "A recap of events.\n");
}

#[test]
fn missing_state_defaults_empty() {
    let state = load_character_runtime_state(None);
    assert_eq!(state.active_model, None);
}

#[test]
fn active_model_roundtrips() {
    let state = save_active_model(Some("sonnet".into()));
    assert_eq!(load_active_model(Ok(state)).as_deref(), Some("sonnet"));
    assert_eq!(load_active_model(Err("unreadable".to_string())), None);
    let stored = CharacterRuntimeState { active_model: Some("m".to_string()) };
    assert_eq!(load_character_runtime_state(Some(stored)).active_model, Some("m".to_string()));
    assert_eq!(character_runtime_state_path("d"), "d/runtime_state.json");
}

#[test]
fn forgetting_the_model_is_remembered() {
    let mut state = save_active_model(Some("sonnet".into()));
    assert_eq!(load_active_model(Ok(state)), Some("sonnet".to_string()));
    state = save_active_model(None);
    assert_eq!(load_active_model(Ok(state)), None);
}

#[test]
fn protected_files_are_those_at_the_root() {
    for name in protected_paths() {
        for path in [name.to_string(), format!("./{name}"), format!("workspace/{name}")] {
            assert_eq!(normalize_protected_path(&path).as_deref(), Some(name.as_str()));
        }
        assert!(!is_protected_path(&format!("notes/{name}")));
        assert!(!is_protected_path(&format!("{name}/x")));
    }
}
