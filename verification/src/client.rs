//! The client session: its state machine and the protocol lines it emits.
//!
//! A session advances monotonically through its phases, driven only by
//! incoming commands (see the dispatch table in `event_manager`). The
//! emitting operations here build the outbound lines; writing them to the
//! transport, like all I/O, happens outside the verified library.

use vstd::prelude::*;

verus! {

use vstd::string::StringExecFns;

/// The phase of a session: no transport yet, transport open, registration
/// sent and awaiting acknowledgment, handshake acknowledged, or joined to
/// the named channel. There is no path backward short of discarding the
/// session.
#[derive(Debug)]
pub enum ClientState {
    Uninit,
    Connecting,
    Registering,
    InServer,
    InChannel(String),
}

/// The mathematical value of a [`ClientState`].
pub enum StateView {
    Uninit,
    Connecting,
    Registering,
    InServer,
    InChannel(Seq<char>),
}

impl View for ClientState {
    type V = StateView;

    open spec fn view(&self) -> StateView {
        match self {
            ClientState::Uninit => StateView::Uninit,
            ClientState::Connecting => StateView::Connecting,
            ClientState::Registering => StateView::Registering,
            ClientState::InServer => StateView::InServer,
            ClientState::InChannel(name) => StateView::InChannel(name@),
        }
    }
}

/// A terminal failure of the connection: the transport could not be
/// opened, a read or a write failed, or the server closed the stream
/// (the abort sentinel). Every kind ends the read loop.
#[derive(Debug, Clone, Copy, PartialEq, Eq)]
pub enum ConnectionError {
    ConnectFailure,
    ReadFailure,
    WriteFailure,
    Aborted,
}

/// One session over one logical connection: the server's network identity
/// and the current phase. The transport handle and the event handler live
/// with the read loop, outside the verified library.
#[derive(Debug)]
pub struct Client {
    pub ip: String,
    pub port: u16,
    pub state: ClientState,
}

/// The mathematical value of a [`Client`].
pub struct ClientView {
    pub ip: Seq<char>,
    pub port: u16,
    pub state: StateView,
}

impl View for Client {
    type V = ClientView;

    open spec fn view(&self) -> ClientView {
        ClientView { ip: self.ip@, port: self.port, state: self.state@ }
    }
}

impl Client {
    /// A fresh session for the given server, with no transport yet.
    pub fn new(ip: &str, port: u16) -> (c: Client)
        ensures
            c@.ip == ip@,
            c@.port == port,
            c@.state is Uninit,
    {
        Client { ip: ip.to_owned(), port, state: ClientState::Uninit }
    }

    /// Records that the transport for this session was opened: the one
    /// transition out of `Uninit`. The connection attempt itself is I/O
    /// and stays with the caller; on its failure the state is left alone.
    pub fn connect(&mut self)
        requires
            old(self)@.state is Uninit,
        ensures
            final(self)@.state is Connecting,
            final(self)@.ip == old(self)@.ip,
            final(self)@.port == old(self)@.port,
    {
        self.state = ClientState::Connecting;
    }

    /// The registration sequence: a password line, a nickname line and a
    /// user-info line, in that fixed order. The dispatcher triggers it, so
    /// the session has already moved to `Registering`.
    pub fn register(&self, username: &str) -> (lines: Vec<String>)
        requires
            self@.state is Registering,
        ensures
            lines@.len() == 3,
            lines@[0]@ == "PASS "@ + username@,
            lines@[1]@ == "NICK "@ + username@,
            lines@[2]@ == "USER guest * 0 :"@ + username@,
    {
        let mut pass_line = "PASS ".to_owned();
        pass_line.append(username);
        let mut nick_line = "NICK ".to_owned();
        nick_line.append(username);
        let mut user_line = "USER guest * 0 :".to_owned();
        user_line.append(username);
        let mut lines: Vec<String> = Vec::new();
        lines.push(pass_line);
        lines.push(nick_line);
        lines.push(user_line);
        lines
    }

    /// The join command line for the named channel, channel-prefixed.
    /// Joining is confirmed by the server, so no state changes here.
    pub fn join_channel(&self, name: &str) -> (line: String)
        ensures
            line@ == "JOIN #"@ + name@,
    {
        let mut line = "JOIN #".to_owned();
        line.append(name);
        line
    }

    /// The message-send line for the named channel, valid once the
    /// handshake was acknowledged.
    pub fn send_message(&self, channel: &str, msg: &str) -> (line: String)
        requires
            self@.state is InServer || self@.state is InChannel,
        ensures
            line@ == "PRIVMSG #"@ + channel@ + " "@ + msg@,
    {
        let mut line = "PRIVMSG #".to_owned();
        line.append(channel);
        line.append(" ");
        line.append(msg);
        line
    }

    /// The keep-alive reply to a liveness probe, valid in any connected
    /// state.
    pub fn send_pong(&self) -> (line: String)
        requires
            !(self@.state is Uninit),
        ensures
            line@ == "PONG"@,
    {
        "PONG".to_owned()
    }
}

} // verus!
