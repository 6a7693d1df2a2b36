use shore_daemon::notifications::{
    dispatch, render_command, truncate, Delivery, NotificationBackend, NotificationEvent,
    NotificationEventsConfig, NotificationService, NotificationsConfig, NtfyConfig,
};

fn all_events(on: bool) -> NotificationEventsConfig {
    NotificationEventsConfig {
        autonomous_message: on,
        cache_warning: on,
        compaction_complete: on,
        collation_complete: on,
        error: on,
        message_complete: on,
    }
}

fn config(enabled: bool, events: NotificationEventsConfig) -> NotificationsConfig {
    NotificationsConfig {
        enabled,
        backend: NotificationBackend::NotifySend,
        ntfy: NtfyConfig { url: String::new(), topic: String::new(), token: String::new() },
        command_template: String::new(),
        generation_threshold_secs: 0,
        events,
    }
}

#[test]
fn disabled_service_blocks_all_events() {
    let svc = NotificationService::new(config(false, all_events(true)));
    assert!(!svc.config.enabled);
    assert!(svc.notify(NotificationEvent::Error, "t", "b").is_none());
}

#[test]
fn event_toggles_respected() {
    let events = NotificationEventsConfig {
        autonomous_message: true,
        cache_warning: false,
        compaction_complete: true,
        collation_complete: false,
        error: true,
        message_complete: true,
    };
    let svc = NotificationService::new(config(true, events));
    assert!(svc.is_event_enabled(NotificationEvent::AutonomousMessage));
    assert!(!svc.is_event_enabled(NotificationEvent::CacheWarning));
    assert!(svc.is_event_enabled(NotificationEvent::CompactionComplete));
    assert!(!svc.is_event_enabled(NotificationEvent::CollationComplete));
    assert!(svc.is_event_enabled(NotificationEvent::Error));
    assert!(svc.is_event_enabled(NotificationEvent::MessageComplete));
    assert!(svc.notify(NotificationEvent::CacheWarning, "t", "b").is_none());
}

#[test]
fn truncate_short_string() {
    assert_eq!(truncate("hello", 10), "hello");
}

#[test]
fn truncate_exact_length() {
    assert_eq!(truncate("hello", 5), "hello");
}

#[test]
fn truncate_long_string() {
    assert_eq!(truncate("hello world", 5), "hello…");
}

#[test]
fn truncate_unicode() {
    assert_eq!(truncate("héllo wörld", 5), "héllo…");
}

#[test]
fn command_template_rendering() {
    let template = "echo '{title}: {body}'";
    let rendered = render_command(template, "Shore — Test", "hello world");
    assert_eq!(rendered, "echo 'Shore — Test: hello world'");
}

#[test]
fn bodies_are_shortened() {
    let svc = NotificationService::new(config(true, all_events(true)));
    let n = svc.notify(NotificationEvent::Error, "t", &"x".repeat(300)).unwrap();
    assert_eq!(n.title, "t");
    assert_eq!(n.body.chars().count(), 201);
    assert!(n.body.ends_with('…'));
    assert_eq!(svc.notify(NotificationEvent::Error, "t", "b").unwrap().body, "b");
}

#[test]
fn quick_answers_are_not_announced() {
    let mut cfg = config(true, all_events(true));
    cfg.generation_threshold_secs = 5;
    let svc = NotificationService::new(cfg);
    assert!(svc.notify_message_complete("t", "b", 4999).is_none());
    assert!(svc.notify_message_complete("t", "b", 5000).is_none());
    assert!(svc.notify_message_complete("t", "b", 5001).is_some());
}

#[test]
fn notifications_go_to_their_backend() {
    let mut cfg = config(true, all_events(true));
    assert!(matches!(
        dispatch(&cfg, "t", "b"),
        Ok(Delivery::NotifySend { title, body }) if title == "t" && body == "b"
    ));
    cfg.backend = NotificationBackend::Ntfy;
    assert!(dispatch(&cfg, "t", "b").is_err());
    cfg.ntfy.url = "https://ntfy.example/".to_string();
    cfg.ntfy.topic = "shore".to_string();
    match dispatch(&cfg, "t", "b").unwrap() {
        Delivery::Ntfy { url, authorization, title, body } => {
            assert_eq!(url, "https://ntfy.example/shore");
            assert_eq!(authorization, None);
            assert_eq!(title, "t");
            assert_eq!(body, "b");
        }
        _ => panic!("expected a post"),
    }
    cfg.ntfy.token = "k".to_string();
    assert!(matches!(
        dispatch(&cfg, "t", "b"),
        Ok(Delivery::Ntfy { authorization: Some(a), .. }) if a == "Bearer k"
    ));
    cfg.backend = NotificationBackend::Command;
    assert!(dispatch(&cfg, "t", "b").is_err());
    cfg.command_template = "say {title} {body}".to_string();
    assert!(matches!(
        dispatch(&cfg, "t", "b"),
        Ok(Delivery::Command { script }) if script == "say t b"
    ));
}
