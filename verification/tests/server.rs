use shore_daemon::server::registry::{pid_path, prune, InstanceInfo, Registry};
use shore_daemon::server::{
    after_disconnect, handshake, is_host_allowed, msg_type_name, outgoing_line, read_message,
    tcp_listen_addr, ClientHello, ClientMessage, Command, Connection, ConnectionAction,
    ConnectionEvent, Handshake, IncomingLine, RoutedMessage, MAX_MESSAGE_SIZE,
};

fn hello(client_type: &str, character: Option<&str>) -> ClientMessage {
    ClientMessage::Hello(ClientHello {
        client_type: client_type.to_string(),
        client_name: "test-client".to_string(),
        capabilities: vec!["streaming".to_string()],
        character: character.map(|c| c.to_string()),
    })
}

fn connected(character: Option<&str>) -> Connection {
    match handshake(1, Some(hello("tui", character))) {
        Handshake::Accept(info) => Connection::new(&info),
        _ => panic!("expected to be accepted"),
    }
}

fn command(name: &str, arg: Option<&str>) -> Command {
    Command { name: name.to_string(), name_arg: arg.map(|a| a.to_string()), raw: "{}".to_string() }
}

#[test]
fn handshake_and_disconnect() {
    match handshake(1, Some(hello("tui", None))) {
        Handshake::Accept(info) => {
            assert_eq!(info.id, 1);
            assert_eq!(info.client_type, "tui");
            assert_eq!(info.client_name, "test-client");
            assert_eq!(info.capabilities, vec!["streaming"]);
        }
        _ => panic!("expected to be accepted"),
    }
    let mut c = connected(None);
    assert!(matches!(c.on_event(ConnectionEvent::Closed), ConnectionAction::Disconnect));
    assert!(matches!(after_disconnect(0), Some(RoutedMessage::AllClientsDisconnected)));
    assert!(after_disconnect(1).is_none());
}

#[test]
fn routes_message_to_engine() {
    let mut c = connected(Some("alice"));
    match c.on_event(ConnectionEvent::Message(ClientMessage::Message("Hello world".to_string()))) {
        ConnectionAction::Route(RoutedMessage::Engine { msg: ClientMessage::Message(body), character }) => {
            assert_eq!(body, "Hello world");
            assert_eq!(character.as_deref(), Some("alice"));
        }
        _ => panic!("expected the engine"),
    }
    assert!(matches!(
        c.on_event(ConnectionEvent::Message(ClientMessage::Regen("regen_01".to_string()))),
        ConnectionAction::Route(RoutedMessage::Engine { msg: ClientMessage::Regen(r), .. }) if r == "regen_01"
    ));
}

#[test]
fn routes_command_to_dispatcher() {
    let mut c = connected(None);
    match c.on_event(ConnectionEvent::Message(ClientMessage::Command(command("status", None)))) {
        ConnectionAction::Route(RoutedMessage::Command { cmd, character }) => {
            assert_eq!(cmd.name, "status");
            assert_eq!(character, None);
        }
        _ => panic!("expected the dispatcher"),
    }
}

#[test]
fn switching_the_character() {
    let mut c = connected(Some("alice"));
    match c.route_client_message(ClientMessage::Command(command("switch_character", Some("bea")))) {
        ConnectionAction::Route(RoutedMessage::Command { character, .. }) => {
            assert_eq!(character.as_deref(), Some("bea"));
        }
        _ => panic!("expected the dispatcher"),
    }
    c.route_client_message(ClientMessage::Command(command("switch_character", None)));
    c.route_client_message(ClientMessage::Command(command("status", Some("cleo"))));
    assert_eq!(c.character.as_deref(), Some("bea"));
}

#[test]
fn broadcast_reaches_client() {
    let mut c = connected(None);
    for _ in 0..7 {
        assert!(matches!(c.on_event(ConnectionEvent::Push), ConnectionAction::Forward));
    }
}

#[test]
fn protocol_error_on_non_hello_first() {
    match handshake(1, Some(ClientMessage::Message("oops".to_string()))) {
        Handshake::Refuse { reply, error } => {
            assert_eq!(reply, "Expected hello, got \"message\"");
            assert_eq!(error, "Protocol error: expected hello");
        }
        _ => panic!("expected a refusal"),
    }
    assert!(matches!(handshake(1, None), Handshake::Gone { .. }));
}

#[test]
fn duplicate_hello_returns_error() {
    let mut c = connected(None);
    match c.on_event(ConnectionEvent::Message(hello("tui", None))) {
        ConnectionAction::Reply(text) => assert!(text.contains("Duplicate hello")),
        _ => panic!("expected an error"),
    }
}

#[test]
fn client_disconnect_is_graceful() {
    let mut c = connected(None);
    assert!(matches!(c.on_event(ConnectionEvent::Shutdown), ConnectionAction::Disconnect));
    assert!(matches!(c.on_event(ConnectionEvent::PushClosed), ConnectionAction::Disconnect));
}

#[test]
fn slow_clients_are_dropped_at_the_third_lag_in_a_row() {
    let mut c = connected(None);
    assert!(matches!(c.on_event(ConnectionEvent::Lagged), ConnectionAction::Wait));
    assert!(matches!(c.on_event(ConnectionEvent::Lagged), ConnectionAction::Wait));
    assert!(matches!(c.on_event(ConnectionEvent::Push), ConnectionAction::Forward));
    assert!(matches!(c.on_event(ConnectionEvent::Lagged), ConnectionAction::Wait));
    assert!(matches!(c.on_event(ConnectionEvent::Lagged), ConnectionAction::Wait));
    assert!(matches!(c.on_event(ConnectionEvent::Lagged), ConnectionAction::Disconnect));
}

#[test]
fn tcp_acl_empty_allows_all() {
    assert!(is_host_allowed(&vec![], "127.0.0.1"));
}

#[test]
fn tcp_acl_allows_matching_ip() {
    assert!(is_host_allowed(&vec!["127.0.0.1".to_string()], "127.0.0.1"));
}

#[test]
fn tcp_acl_rejects_non_matching_ip() {
    assert!(!is_host_allowed(&vec!["10.0.0.1".to_string()], "127.0.0.1"));
}

#[test]
fn tcp_addresses() {
    assert_eq!(tcp_listen_addr(false, &Some("x".to_string())), None);
    assert_eq!(tcp_listen_addr(true, &None).as_deref(), Some("127.0.0.1:7320"));
    assert_eq!(tcp_listen_addr(true, &Some("0.0.0.0:1".to_string())).as_deref(), Some("0.0.0.0:1"));
}

#[test]
fn lines_are_read_and_written() {
    assert!(matches!(read_message(""), IncomingLine::Closed));
    assert!(matches!(read_message(" {} \n"), IncomingLine::Text(t) if t == "{}"));
    assert!(matches!(read_message(&"x".repeat(MAX_MESSAGE_SIZE + 1)), IncomingLine::TooLong));
    assert!(matches!(read_message(&"x".repeat(MAX_MESSAGE_SIZE)), IncomingLine::Text(_)));
    assert_eq!(outgoing_line("{}"), "{}\n");
    assert_eq!(msg_type_name(&ClientMessage::Cancel(String::new())), "cancel");
    assert_eq!(msg_type_name(&ClientMessage::Regen(String::new())), "regen");
    assert_eq!(msg_type_name(&ClientMessage::Command(command("x", None))), "command");
    assert_eq!(msg_type_name(&hello("x", None)), "hello");
}

// Registry of running instances.

const PID: u32 = 4711;

fn sample_instance(id: &str) -> InstanceInfo {
    InstanceInfo {
        id: id.into(),
        pid: PID,
        socket_path: format!("/tmp/shore-{}.sock", id),
        tcp_addr: None,
        started_at: "2026-01-01T00:00:00Z".into(),
    }
}

fn registry() -> Registry {
    Registry::at("/run/shore/instances.json")
}

fn alive() -> Vec<u32> {
    vec![PID]
}

#[test]
fn register_and_list() {
    let reg = registry();
    let entries = reg.register(vec![], &alive(), sample_instance("test-1"));
    let (entries, changed) = reg.list(entries, &alive());
    assert_eq!(entries.len(), 1);
    assert_eq!(entries[0].id, "test-1");
    assert_eq!(entries[0].pid, PID);
    assert_eq!(entries[0].socket_path, "/tmp/shore-test-1.sock");
    assert_eq!(entries[0].tcp_addr, None);
    assert!(!changed);
}

#[test]
fn register_and_unregister() {
    let reg = registry();
    let entries = reg.register(vec![], &alive(), sample_instance("test-2"));
    let entries = reg.register(entries, &alive(), sample_instance("test-3"));
    assert_eq!(entries.len(), 2);
    let entries = reg.unregister(entries, &alive(), "test-2");
    assert_eq!(entries.len(), 1);
    assert_eq!(entries[0].id, "test-3");
}

#[test]
fn register_replaces_stale_entry() {
    let reg = registry();
    let entries = reg.register(vec![], &alive(), sample_instance("test-4"));
    let mut updated = sample_instance("test-4");
    updated.socket_path = "/tmp/shore-test-4-new.sock".into();
    let entries = reg.register(entries, &alive(), updated);
    assert_eq!(entries.len(), 1);
    assert_eq!(entries[0].socket_path, "/tmp/shore-test-4-new.sock");
}

#[test]
fn list_empty_when_no_registry() {
    let (entries, changed) = registry().list(vec![], &alive());
    assert!(entries.is_empty());
    assert!(!changed);
    assert_eq!(registry().path(), "/run/shore/instances.json");
}

#[test]
fn cleanup_on_shutdown() {
    let reg = registry();
    let entries = reg.register(vec![], &alive(), sample_instance("daemon-a"));
    let entries = reg.register(entries, &alive(), sample_instance("daemon-b"));
    let entries = reg.unregister(entries, &alive(), "daemon-a");
    assert_eq!(entries.len(), 1);
    assert_eq!(entries[0].id, "daemon-b");
}

#[test]
fn dead_instances_are_dropped() {
    let mut dead = sample_instance("dead");
    dead.pid = 1;
    let (entries, changed) = registry().list(vec![dead, sample_instance("live")], &alive());
    assert_eq!(entries.len(), 1);
    assert_eq!(entries[0].id, "live");
    assert!(changed);
    assert!(prune(vec![sample_instance("x")], &vec![]).is_empty());
    assert_eq!(pid_path(42), "/proc/42");
}
