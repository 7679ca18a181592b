//! Verified core of a line-oriented IRC-style chat client: a wire-format
//! message parser, the client session state machine, and the event-dispatch
//! table that binds parsed messages to state transitions and reactions.
//!
//! Transport I/O (sockets, the read loop, handler callbacks) lives outside
//! the verified library and drives it through the functions exported here.

pub mod client;
pub mod event_manager;
pub mod message_parser;
