use shore_daemon::memory::dreaming::{
    append_dream_report, append_memory_promotions, collect_candidates, dream_status, is_due,
    is_due_at, parse_daily_cron, parse_u32, promoted_of, run_sweep, run_sweep_at, runs_sweep,
    staged_name, state_path, DreamState, DreamingError, DueTime, LocalClock,
};
use shore_daemon::memory::markdown_store::MarkdownEntry;

fn file(path: &str, content: &str) -> MarkdownEntry {
    MarkdownEntry {
        path: path.to_string(),
        content: content.to_string(),
        size: content.len() as u64,
        modified_at: String::new(),
    }
}

#[test]
fn dry_run_does_not_write_files() {
    let r = run_sweep(&vec![file("notes.md", "- Alice likes tea.\n")], "alice", true, "mem");
    assert!(r.dry_run);
    assert_eq!(r.staged_path, None);
    assert_eq!(r.dreams_path, None);
    assert_eq!(r.memory_path, None);
    assert!(!r.ran_at.is_empty());
}

#[test]
fn deep_promotes_only_threshold_candidates() {
    let notes = vec![file(
        "notes.md",
        "- Alice likes tea and remembers the blue cup.\n- maybe later\n",
    )];
    let r = run_sweep(&notes, "alice", false, "mem");
    assert!(chrono::DateTime::parse_from_rfc3339(&r.ran_at).is_ok());
    let staged = r.staged_path.as_deref().unwrap();
    let stamp = staged.strip_prefix("mem/.dreams/candidates-").unwrap();
    let stamp = stamp.strip_suffix(".json").unwrap();
    assert!(chrono::NaiveDateTime::parse_from_str(stamp, "%Y%m%d-%H%M%S").is_ok());
    assert_eq!(r.promoted.len(), 1);
    assert_eq!(r.promoted[0], "Alice likes tea and remembers the blue cup.");
    assert!(r.staged_path.unwrap().starts_with("mem/.dreams/candidates-"));
    assert_eq!(r.dreams_path.as_deref(), Some("mem/DREAMS.md"));
    assert_eq!(r.memory_path.as_deref(), Some("mem/MEMORY.md"));
}

#[test]
fn candidates_are_scored() {
    let notes = vec![file(
        "n.md",
        "# Important project\nshort\nAlice prefers quiet mornings\n  - promised IMPORTANT project birthday\n- nothing of note here\nplain line without signal\n",
    )];
    let c = collect_candidates(&notes);
    let got: Vec<(&str, u8, bool)> = c.iter().map(|c| (c.text.as_str(), c.score, c.promote)).collect();
    assert_eq!(
        got,
        vec![
            ("Alice prefers quiet mornings", 1, false),
            ("promised IMPORTANT project birthday", 5, true),
            ("nothing of note here", 1, false),
        ]
    );
    assert_eq!(c[0].source, "n.md");
    assert_eq!(promoted_of(&c), vec!["promised IMPORTANT project birthday"]);
}

#[test]
fn sweeps_look_at_so_much_and_no_more() {
    let many: Vec<MarkdownEntry> =
        (0..60).map(|i| file(&format!("{i}.md"), "- it is what it is here\n")).collect();
    let c = collect_candidates(&many);
    assert_eq!(c.len(), 40);
    assert_eq!(c[39].source, "39.md");
    let long = file("l.md", &"- it is what it is here\n".repeat(70));
    assert_eq!(collect_candidates(&vec![long]).len(), 50);
}

#[test]
fn reports_are_appended() {
    let c = collect_candidates(&vec![file("n.md", "- Alice likes tea a lot\n")]);
    let p = promoted_of(&c);
    assert_eq!(
        append_dream_report(None, "T", &c, &p),
        "# Dreams\n\n## T - dream sweep\n\n### Light\n\n- Alice likes tea a lot (score 2, source `n.md`)\n\n### REM\n\n- Reviewed recent markdown memory for durable signals and contradictions.\n\n### Deep\n\n- Promoted: Alice likes tea a lot\n\n"
    );
    assert_eq!(
        append_dream_report(Some("X\n"), "T", &vec![], &vec![]),
        "X\n## T - dream sweep\n\n### Light\n\n- No candidate memory signals found.\n\n### REM\n\n- Reviewed recent markdown memory for durable signals and contradictions.\n\n### Deep\n\n- Nothing met the promotion threshold.\n\n"
    );
    assert_eq!(append_memory_promotions(None, "T", &vec![]), None);
    assert_eq!(
        append_memory_promotions(None, "T", &p),
        Some("# Memory\n\n## Dream consolidation - T\n\n- Alice likes tea a lot\n\n".to_string())
    );
}

#[test]
fn daily_schedules_are_read() {
    assert_eq!(parse_daily_cron("30 3 * * *").unwrap(), (30, 3));
    assert_eq!(parse_daily_cron("  0\t23 * * * ").unwrap(), (0, 23));
    assert_eq!(parse_daily_cron("+5 007 * * *").unwrap(), (5, 7));
    for bad in ["60 3 * * *", "0 24 * * *", "0 3 * *", "0 3 1 * *", "x 3 * * *", "", "-1 3 * * *", "4294967296 1 * * *"] {
        match parse_daily_cron(bad) {
            Err(DreamingError::Schedule(e)) => assert_eq!(e, bad),
            _ => panic!("expected an error"),
        }
    }
    for s in ["0", "42", "4294967295", "4294967296", "", "+", "+1", "-1", "-0", "1 ", "00000000000001", "٣", "99999999999999999999"] {
        assert_eq!(parse_u32(s), s.parse::<u32>().ok(), "{s}");
    }
}

#[test]
fn sweeps_are_due_once_a_day() {
    let clock = |now: i64, due: Option<(i64, u32)>| LocalClock {
        year: 2026,
        ordinal: 84,
        now: (now, 0),
        due: due.map(|moment| DueTime { hour: 3, minute: 0, moment }),
    };
    assert_eq!(is_due_at("f", &clock(99, Some((100, 0))), None).unwrap(), false);
    assert_eq!(is_due_at("f", &clock(100, Some((100, 0))), None).unwrap(), true);
    assert_eq!(is_due_at("f", &clock(100, Some((100, 1))), None).unwrap(), false);
    assert_eq!(is_due_at("f", &clock(100, Some((100, 0))), Some(Ok((2026, 84)))).unwrap(), false);
    assert_eq!(is_due_at("f", &clock(100, Some((100, 0))), Some(Ok((2026, 83)))).unwrap(), true);
    assert_eq!(is_due_at("f", &clock(100, Some((100, 0))), Some(Ok((2025, 84)))).unwrap(), true);
    assert!(matches!(is_due_at("f", &clock(1, None), None), Err(DreamingError::Schedule(e)) if e == "f"));
    assert!(matches!(
        is_due_at("f", &clock(100, Some((100, 0))), Some(Err("bad".to_string()))),
        Err(DreamingError::Schedule(e)) if e == "bad"
    ));
}

#[test]
fn due_by_the_clock() {
    assert!(matches!(is_due("never", None), Err(DreamingError::Schedule(e)) if e == "never"));
    let today = chrono::Local::now().to_rfc3339();
    assert_eq!(is_due("0 0 * * *", Some(&today)).unwrap_or(false), false);
    if let Ok(due) = is_due("0 0 * * *", Some("2001-01-01T12:00:00+00:00")) {
        assert!(due);
    }
    if let Ok(due) = is_due("0 0 * * *", None) {
        assert!(due);
    }
    assert!(is_due("0 0 * * *", Some("unreadable")).is_err());
}

#[test]
fn sweep_results_name_their_files() {
    let r = run_sweep_at(&vec![], "alice", false, "/m", "2026", "20260101-000000");
    assert_eq!(r.staged_path.as_deref(), Some("/m/.dreams/candidates-20260101-000000.json"));
    assert_eq!(r.ran_at, "2026");
    assert_eq!(r.character, "alice");
    assert_eq!(state_path("/m"), "/m/.dreams/state.json");
    assert_eq!(staged_name("s"), ".dreams/candidates-s.json");
    let state = DreamState { last_run_at: None, runs: 3 }.after_run("now");
    assert_eq!(state.runs, 4);
    assert_eq!(state.last_run_at.as_deref(), Some("now"));
    let s = dream_status("/m", "alice", false, "0 3 * * *", &state, true);
    assert!(!s.due);
    assert_eq!(s.dreams_path, "/m/DREAMS.md");
    assert!(dream_status("/m", "alice", true, "0 3 * * *", &state, true).due);
    assert!(runs_sweep(true, false, false));
    assert!(runs_sweep(false, true, false));
    assert!(runs_sweep(false, false, true));
    assert!(!runs_sweep(false, false, false));
    assert_eq!(DreamingError::Io("x".to_string()).message(), "io: x");
    assert_eq!(DreamingError::Memory("x".to_string()).message(), "memory: x");
    assert_eq!(DreamingError::Schedule("x".to_string()).message(), "invalid schedule: x");
}
