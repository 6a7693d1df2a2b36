//! Conversation-memory logic of a chat daemon: the rules by which memories are searched, written,
//! compacted and merged, and the decisions behind the daemon's connections and notifications.
//!
//! Every function takes and returns plain values. Files, databases, language models and sockets are
//! reached by the program around this library, which performs the actions that the library decides
//! on and hands back what happened.
pub mod clock;
pub mod memory;
pub mod notifications;
pub mod runtime_state;
pub mod server;
pub mod text;
