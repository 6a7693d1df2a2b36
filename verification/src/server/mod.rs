//! Client connections: the handshake, the routing of messages, and when a client is dropped.
use crate::text::compose::{byte_count, byte_len, cat2, cat3, clone_option, option_text, same_text};
use crate::text::trim::{trim_text, trimmed};
use crate::memory::collation::ancestry::holds_text;
use crate::text::split::texts;
use vstd::prelude::*;

pub mod registry;

verus! {

broadcast use vstd::string::group_string_axioms;

/// The most bytes that a message may have.
pub const MAX_MESSAGE_SIZE: usize = 16777216;

/// How often in a row a client may fall behind before it is dropped.
pub const MAX_CONSECUTIVE_LAGS: u32 = 3;

/// The TCP address that is used where none is configured.
pub const DEFAULT_TCP_ADDR: &'static str = "127.0.0.1:7320";

/// A connected client.
#[derive(Debug)]
pub struct ClientInfo {
    /// The client's number.
    pub id: u64,
    /// What kind of client it is.
    pub client_type: String,
    /// Its name.
    pub client_name: String,
    /// What it can do.
    pub capabilities: Vec<String>,
    /// The character it talks to.
    pub character: Option<String>,
}

/// How a client introduces itself.
#[derive(Debug)]
pub struct ClientHello {
    /// What kind of client it is.
    pub client_type: String,
    /// Its name.
    pub client_name: String,
    /// What it can do.
    pub capabilities: Vec<String>,
    /// The character it talks to.
    pub character: Option<String>,
}

/// A command of a client.
#[derive(Debug)]
pub struct Command {
    /// The command's name.
    pub name: String,
    /// Its argument `name`, where that is a string.
    pub name_arg: Option<String>,
    /// The command as it was sent.
    pub raw: String,
}

/// A message of a client.
#[derive(Debug)]
pub enum ClientMessage {
    /// The client introduces itself.
    Hello(ClientHello),
    /// A message of the user, as it was sent.
    Message(String),
    /// A request to generate again, as it was sent.
    Regen(String),
    /// A request to stop, as it was sent.
    Cancel(String),
    /// A command.
    Command(Command),
}

/// Where a message goes.
#[derive(Debug)]
pub enum RoutedMessage {
    /// To the engine.
    Engine {
        /// The message.
        msg: ClientMessage,
        /// The character it is for.
        character: Option<String>,
    },
    /// To the command dispatcher.
    Command {
        /// The command.
        cmd: Command,
        /// The character it is for.
        character: Option<String>,
    },
    /// The last client is gone.
    AllClientsDisconnected,
}

/// The name of a message's kind.
pub open spec fn kind_name(msg: ClientMessage) -> Seq<char> {
    match msg {
        ClientMessage::Hello(_) => "hello"@,
        ClientMessage::Message(_) => "message"@,
        ClientMessage::Regen(_) => "regen"@,
        ClientMessage::Command(_) => "command"@,
        ClientMessage::Cancel(_) => "cancel"@,
    }
}

/// The name of a message's kind.
pub fn msg_type_name(msg: &ClientMessage) -> (r: &'static str)
    ensures
        r@ == kind_name(*msg),
{
    match msg {
        ClientMessage::Hello(_) => "hello",
        ClientMessage::Message(_) => "message",
        ClientMessage::Regen(_) => "regen",
        ClientMessage::Command(_) => "command",
        ClientMessage::Cancel(_) => "cancel",
    }
}

/// What a line from a client gives.
#[derive(Debug)]
pub enum IncomingLine {
    /// The client has closed the connection.
    Closed,
    /// The line is too long.
    TooLong,
    /// The text to read a message from.
    Text(String),
}

/// What a line from a client gives; an empty line means that the connection is closed.
pub fn read_message(line: &str) -> (r: IncomingLine)
    ensures
        match r {
            IncomingLine::Closed => line@.len() == 0,
            IncomingLine::TooLong => line@.len() > 0 && byte_len(line@) > MAX_MESSAGE_SIZE,
            IncomingLine::Text(t) => line@.len() > 0 && byte_len(line@) <= MAX_MESSAGE_SIZE && t@
                == trimmed(line@),
        },
{
    if line.is_empty() {
        return IncomingLine::Closed;
    }
    if byte_count(line) > MAX_MESSAGE_SIZE {
        return IncomingLine::TooLong;
    }
    IncomingLine::Text(trim_text(line))
}

/// What follows on the first message of a client.
#[derive(Debug)]
pub enum Handshake {
    /// The client is registered.
    Accept(ClientInfo),
    /// The client is sent an error and dropped.
    Refuse {
        /// What the client is told.
        reply: String,
        /// What is logged.
        error: String,
    },
    /// The client is gone.
    Gone {
        /// What is logged.
        error: String,
    },
}

/// Decides on the first message of a client, which must introduce it.
pub fn handshake(client_id: u64, first: Option<ClientMessage>) -> (r: Handshake)
    ensures
        match first {
            Some(ClientMessage::Hello(h)) => r == Handshake::Accept(
                ClientInfo {
                    id: client_id,
                    client_type: h.client_type,
                    client_name: h.client_name,
                    capabilities: h.capabilities,
                    character: h.character,
                },
            ),
            Some(other) => match r {
                Handshake::Refuse { reply, error } => {
                    &&& reply@ == "Expected hello, got \""@ + kind_name(other) + "\""@
                    &&& error@ == "Protocol error: expected hello"@
                },
                _ => false,
            },
            None => match r {
                Handshake::Gone { error } => error@ == "Client disconnected before hello"@,
                _ => false,
            },
        },
{
    match first {
        Some(msg) => match msg {
            ClientMessage::Hello(h) => Handshake::Accept(
                ClientInfo {
                    id: client_id,
                    client_type: h.client_type,
                    client_name: h.client_name,
                    capabilities: h.capabilities,
                    character: h.character,
                },
            ),
            other => Handshake::Refuse {
                reply: cat3("Expected hello, got \"", msg_type_name(&other), "\""),
                error: "Protocol error: expected hello".to_owned(),
            },
        },
        None => Handshake::Gone { error: "Client disconnected before hello".to_owned() },
    }
}

/// A client that has been accepted.
#[derive(Debug)]
pub struct Connection {
    /// The character it talks to.
    pub character: Option<String>,
    /// How often in a row it has fallen behind.
    pub consecutive_lags: u32,
}

/// What happens on a connection.
#[derive(Debug)]
pub enum ConnectionEvent {
    /// A message of the client.
    Message(ClientMessage),
    /// The client closed the connection.
    Closed,
    /// A push message is to be handed on.
    Push,
    /// The client fell behind and missed push messages.
    Lagged,
    /// There are no more push messages.
    PushClosed,
    /// The server stops.
    Shutdown,
}

/// What is done about it.
#[derive(Debug)]
pub enum ConnectionAction {
    /// The message is handed on.
    Route(RoutedMessage),
    /// The client is told of a protocol error.
    Reply(String),
    /// The push message is sent to the client.
    Forward,
    /// Nothing.
    Wait,
    /// The connection ends.
    Disconnect,
}

/// The character that a client talks to after a message: one command switches it.
pub open spec fn character_after(before: Option<String>, msg: ClientMessage) -> Option<Seq<char>> {
    match msg {
        ClientMessage::Command(cmd) => if cmd.name@ == "switch_character"@ && cmd.name_arg is Some {
            Some(cmd.name_arg->Some_0@)
        } else {
            option_text(before)
        },
        _ => option_text(before),
    }
}

/// The action is what a message of a client leads to, for a character.
pub open spec fn is_routing(
    action: ConnectionAction,
    msg: ClientMessage,
    character: Option<Seq<char>>,
) -> bool {
    match msg {
        ClientMessage::Hello(_) => match action {
            ConnectionAction::Reply(text) => text@ == "Duplicate hello"@,
            _ => false,
        },
        ClientMessage::Command(cmd) => match action {
            ConnectionAction::Route(RoutedMessage::Command { cmd: c, character: k }) => c == cmd
                && option_text(k) == character,
            _ => false,
        },
        _ => match action {
            ConnectionAction::Route(RoutedMessage::Engine { msg: m, character: k }) => m == msg
                && option_text(k) == character,
            _ => false,
        },
    }
}

/// An event takes a connection from one state to the next, and leads to an action.
pub open spec fn event_step(
    before: Connection,
    after: Connection,
    event: ConnectionEvent,
    action: ConnectionAction,
) -> bool {
    match event {
        ConnectionEvent::Message(msg) => {
            &&& option_text(after.character) == character_after(before.character, msg)
            &&& after.consecutive_lags == before.consecutive_lags
            &&& is_routing(action, msg, option_text(after.character))
        },
        ConnectionEvent::Push => {
            &&& action is Forward
            &&& after.consecutive_lags == 0
            &&& after.character == before.character
        },
        ConnectionEvent::Lagged => {
            &&& after.consecutive_lags == before.consecutive_lags + 1
            &&& after.character == before.character
            &&& if before.consecutive_lags + 1 >= MAX_CONSECUTIVE_LAGS {
                action is Disconnect
            } else {
                action is Wait
            }
        },
        _ => action is Disconnect && after == before,
    }
}

impl Connection {
    /// The client has not fallen behind too often.
    pub open spec fn wf(&self) -> bool {
        self.consecutive_lags < MAX_CONSECUTIVE_LAGS
    }

    /// A connection of an accepted client.
    pub fn new(info: &ClientInfo) -> (r: Connection)
        ensures
            r.wf(),
            r.consecutive_lags == 0,
            option_text(r.character) == option_text(info.character),
    {
        Connection { character: clone_option(&info.character), consecutive_lags: 0 }
    }

    /// Where a message of the client goes: a second introduction is an error, commands go to the command
    /// dispatcher, everything else to the engine.
    pub fn route_client_message(&mut self, msg: ClientMessage) -> (r: ConnectionAction)
        ensures
            option_text(final(self).character) == character_after(old(self).character, msg),
            final(self).consecutive_lags == old(self).consecutive_lags,
            is_routing(r, msg, option_text(final(self).character)),
    {
        match msg {
            ClientMessage::Hello(_) => ConnectionAction::Reply("Duplicate hello".to_owned()),
            ClientMessage::Command(cmd) => {
                if same_text(cmd.name.as_str(), "switch_character") {
                    match &cmd.name_arg {
                        Some(name) => {
                            self.character = Some(name.clone());
                        },
                        None => {},
                    }
                }
                let character = clone_option(&self.character);
                ConnectionAction::Route(RoutedMessage::Command { cmd, character })
            },
            other => {
                let character = clone_option(&self.character);
                ConnectionAction::Route(RoutedMessage::Engine { msg: other, character })
            },
        }
    }

    /// Decides on an event. A push message that gets through makes up for falling behind; the third time
    /// in a row ends the connection.
    pub fn on_event(&mut self, event: ConnectionEvent) -> (r: ConnectionAction)
        requires
            old(self).wf(),
        ensures
            event_step(*old(self), *final(self), event, r),
            !(r is Disconnect) ==> final(self).wf(),
    {
        match event {
            ConnectionEvent::Message(msg) => self.route_client_message(msg),
            ConnectionEvent::Push => {
                self.consecutive_lags = 0;
                ConnectionAction::Forward
            },
            ConnectionEvent::Lagged => {
                self.consecutive_lags = self.consecutive_lags + 1;
                if self.consecutive_lags >= MAX_CONSECUTIVE_LAGS {
                    ConnectionAction::Disconnect
                } else {
                    ConnectionAction::Wait
                }
            },
            _ => ConnectionAction::Disconnect,
        }
    }
}

/// What is reported once a client is gone: that there is no client left, where that is so.
pub fn after_disconnect(clients_left: usize) -> (r: Option<RoutedMessage>)
    ensures
        match r {
            Some(m) => clients_left == 0 && m is AllClientsDisconnected,
            None => clients_left > 0,
        },
{
    if clients_left == 0 {
        Some(RoutedMessage::AllClientsDisconnected)
    } else {
        None
    }
}

/// Whether a host may connect: any host where no hosts are listed, otherwise the listed ones.
pub fn is_host_allowed(allowed_hosts: &Vec<String>, peer_ip: &str) -> (r: bool)
    ensures
        r == (allowed_hosts@.len() == 0 || texts(allowed_hosts@).contains(peer_ip@)),
{
    allowed_hosts.len() == 0 || holds_text(allowed_hosts, peer_ip)
}

/// The TCP address to listen on, where TCP is switched on.
pub fn tcp_listen_addr(enabled: bool, addr: &Option<String>) -> (r: Option<String>)
    ensures
        option_text(r) == if !enabled {
            None
        } else {
            match addr {
                Some(a) => Some(a@),
                None => Some(DEFAULT_TCP_ADDR@),
            }
        },
{
    if !enabled {
        return None;
    }
    match addr {
        Some(a) => Some(a.clone()),
        None => Some(DEFAULT_TCP_ADDR.to_owned()),
    }
}

/// A message as it is sent: its JSON text and a line feed.
pub fn outgoing_line(json: &str) -> (r: String)
    ensures
        r@ == json@ + "\n"@,
{
    cat2(json, "\n")
}

/// How often in a row a client has fallen behind after these events.
pub open spec fn lags(events: Seq<ConnectionEvent>) -> nat
    decreases events.len(),
{
    if events.len() == 0 {
        0
    } else {
        match events.last() {
            ConnectionEvent::Push => 0,
            ConnectionEvent::Lagged => lags(events.drop_last()) + 1,
            _ => lags(events.drop_last()),
        }
    }
}

/// How many of the events are lags.
pub open spec fn lag_events(events: Seq<ConnectionEvent>) -> nat {
    events.filter(|e: ConnectionEvent| e is Lagged).len()
}

/// A connection counts its lags: where its counter stood for the events so far, it stands for them and the
/// next event after that event, and a lag ends the connection just when it is the third in a row.
pub proof fn connections_count_lags(
    before: Connection,
    after: Connection,
    events: Seq<ConnectionEvent>,
    event: ConnectionEvent,
    action: ConnectionAction,
)
    requires
        event_step(before, after, event, action),
        before.consecutive_lags == lags(events),
    ensures
        after.consecutive_lags == lags(events.push(event)),
        event is Lagged ==> (action is Disconnect) == (lags(events.push(event))
            >= MAX_CONSECUTIVE_LAGS),
{
    assert(events.push(event).drop_last() =~= events);
}

/// Only the lags since the last push message count: whatever came before it is forgiven.
pub proof fn lags_count_from_last_push(before: Seq<ConnectionEvent>, after: Seq<ConnectionEvent>)
    requires
        forall|i: int| 0 <= i < after.len() ==> !((#[trigger] after[i]) is Push),
    ensures
        lags(before.push(ConnectionEvent::Push) + after) == lag_events(after),
    decreases after.len(),
{
    reveal(Seq::filter);
    let start = before.push(ConnectionEvent::Push);
    let all = start + after;
    if after.len() == 0 {
        assert(all =~= start);
    } else {
        let rest = after.drop_last();
        assert forall|i: int| 0 <= i < rest.len() implies !((#[trigger] rest[i]) is Push) by {
            assert(rest[i] == after[i]);
        }
        lags_count_from_last_push(before, rest);
        assert(all.drop_last() =~= start + rest);
        assert(all.last() == after.last());
        assert(!(after[after.len() - 1] is Push));
    }
}

/// A message of a client goes where it belongs, for the character that the client talks to: a command to the
/// dispatcher, after it has switched the character where that is what it asks for; a second introduction
/// back to the client as an error; and anything else to the engine. Nothing of it changes on the way.
pub proof fn messages_go_where_they_belong(
    before: Connection,
    after: Connection,
    msg: ClientMessage,
    action: ConnectionAction,
)
    requires
        event_step(before, after, ConnectionEvent::Message(msg), action),
    ensures
        match msg {
            ClientMessage::Command(cmd) => {
                &&& action is Route && action->Route_0 is Command
                &&& action->Route_0->cmd == cmd
                &&& option_text(action->Route_0->Command_character) == option_text(after.character)
                &&& cmd.name@ == "switch_character"@ && cmd.name_arg is Some ==> option_text(
                    after.character,
                ) == Some(cmd.name_arg->Some_0@)
                &&& cmd.name@ != "switch_character"@ || cmd.name_arg is None ==> option_text(
                    after.character,
                ) == option_text(before.character)
            },
            ClientMessage::Hello(_) => action is Reply && option_text(after.character) == option_text(
                before.character,
            ),
            _ => {
                &&& action is Route && action->Route_0 is Engine
                &&& action->Route_0->msg == msg
                &&& option_text(action->Route_0->Engine_character) == option_text(before.character)
                &&& option_text(after.character) == option_text(before.character)
            },
        },
{
}

/// A connection ends when the client closes it, when there are no more push messages, and when the server
/// stops; a push message is handed on.
pub proof fn connections_end_when_they_must(
    before: Connection,
    after: Connection,
    event: ConnectionEvent,
    action: ConnectionAction,
)
    requires
        event_step(before, after, event, action),
    ensures
        event is Closed || event is PushClosed || event is Shutdown ==> action is Disconnect,
        event is Push ==> action is Forward,
        event is Message ==> !(action is Disconnect),
{
}

/// Each kind of message goes by its own name.
pub proof fn kinds_go_by_their_names(hello: ClientHello, cmd: Command, text: String)
    ensures
        kind_name(ClientMessage::Hello(hello)) == "hello"@,
        kind_name(ClientMessage::Command(cmd)) == "command"@,
        kind_name(ClientMessage::Message(text)) == "message"@,
        kind_name(ClientMessage::Regen(text)) == "regen"@,
        kind_name(ClientMessage::Cancel(text)) == "cancel"@,
{
}

}
