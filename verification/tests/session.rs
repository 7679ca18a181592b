use irc_client::client::{Client, ClientState};
use irc_client::event_manager::{handle_event, Action};
use irc_client::message_parser::parse_message;

#[test]
fn new_client_starts_uninit_and_connect_opens() {
    let mut c = Client::new("irc.example.com", 6667);
    assert!(matches!(c.state, ClientState::Uninit));
    assert_eq!(c.ip, "irc.example.com".to_string());
    assert_eq!(c.port, 6667);
    c.connect();
    assert!(matches!(c.state, ClientState::Connecting));
}

#[test]
fn registration_lines_come_in_fixed_order() {
    let mut c = Client::new("irc.example.com", 6667);
    c.state = ClientState::Registering;
    let lines = c.register("rustbot");
    assert_eq!(
        lines,
        vec![
            "PASS rustbot".to_string(),
            "NICK rustbot".to_string(),
            "USER guest * 0 :rustbot".to_string()
        ]
    );
}

#[test]
fn outbound_lines_match_the_wire_grammar() {
    let mut c = Client::new("irc.example.com", 6667);
    c.state = ClientState::InServer;
    assert_eq!(c.join_channel("rust"), "JOIN #rust".to_string());
    assert_eq!(c.send_message("rust", "hello world"), "PRIVMSG #rust hello world".to_string());
    assert_eq!(c.send_pong(), "PONG".to_string());
}

#[test]
fn notice_in_connecting_registers_exactly_once() {
    let mut c = Client::new("irc.example.com", 6667);
    c.state = ClientState::Connecting;
    let notice = parse_message(b":irc.example.com NOTICE * :*** Checking Ident").unwrap();
    let a = handle_event(&mut c, &notice);
    assert_eq!(a, Action::Register);
    assert!(matches!(c.state, ClientState::Registering));

    let again = parse_message(b":irc.example.com NOTICE * :*** Looking up hostname").unwrap();
    let a = handle_event(&mut c, &again);
    assert_eq!(a, Action::Ignore);
    assert!(matches!(c.state, ClientState::Registering));
}

#[test]
fn ping_answers_with_pong_and_no_state_change() {
    let mut c = Client::new("irc.example.com", 6667);
    c.state = ClientState::InServer;
    let ping = parse_message(b"PING :irc.example.com").unwrap();
    let a = handle_event(&mut c, &ping);
    assert_eq!(a, Action::Pong);
    assert!(matches!(c.state, ClientState::InServer));
}

#[test]
fn welcome_drives_server_connect_and_in_server() {
    let mut c = Client::new("irc.example.com", 6667);
    c.state = ClientState::Registering;
    let welcome = parse_message(b":server 001 nick :Welcome").unwrap();
    let a = handle_event(&mut c, &welcome);
    assert_eq!(a, Action::ServerConnect);
    assert!(matches!(c.state, ClientState::InServer));
}

#[test]
fn join_confirmation_records_channel_name() {
    let mut c = Client::new("irc.example.com", 6667);
    c.state = ClientState::InServer;
    let join = parse_message(b":rustbot JOIN #rust").unwrap();
    let a = handle_event(&mut c, &join);
    assert_eq!(a, Action::ChannelJoin);
    match &c.state {
        ClientState::InChannel(name) => assert_eq!(name, "rust"),
        other => panic!("expected InChannel, got {:?}", other),
    }
}

#[test]
fn motd_replies_invoke_motd_without_state_change() {
    let mut c = Client::new("irc.example.com", 6667);
    c.state = ClientState::InServer;
    let start = parse_message(b":server 375 nick :- server Message of the day -").unwrap();
    assert_eq!(handle_event(&mut c, &start), Action::MessageOfTheDay);
    let body = parse_message(b":server 372 nick :- Be excellent to each other.").unwrap();
    assert_eq!(handle_event(&mut c, &body), Action::MessageOfTheDay);
    assert!(matches!(c.state, ClientState::InServer));
}

#[test]
fn abort_sentinel_terminates_in_any_state() {
    for state in [ClientState::Connecting, ClientState::Registering, ClientState::InServer] {
        let mut c = Client::new("irc.example.com", 6667);
        c.state = state;
        let abort = parse_message(b"").unwrap();
        assert_eq!(handle_event(&mut c, &abort), Action::Terminate);
    }
}

#[test]
fn unrecognized_commands_reach_on_unimplemented() {
    let mut c = Client::new("irc.example.com", 6667);
    c.state = ClientState::InServer;
    let m = parse_message(b":server 470 nick #chan :Forwarding").unwrap();
    assert_eq!(handle_event(&mut c, &m), Action::Unimplemented);
    assert!(matches!(c.state, ClientState::InServer));
}

#[test]
fn unmatched_known_replies_are_no_ops() {
    let mut c = Client::new("irc.example.com", 6667);
    c.state = ClientState::InServer;
    let m = parse_message(b":server 005 nick CHANTYPES=# :are supported").unwrap();
    assert_eq!(handle_event(&mut c, &m), Action::Ignore);
    assert!(matches!(c.state, ClientState::InServer));
}

#[test]
fn dispatch_follows_arrival_order_and_stops_on_abort() {
    let lines: Vec<&[u8]> = vec![
        b":irc.example.com NOTICE * :*** Checking Ident",
        b":irc.example.com NOTICE * :*** Found your hostname",
        b":server 001 nick :Welcome",
        b":rustbot JOIN #rust",
        b"PING :irc.example.com",
        b"",
        b"PING :never reached",
    ];
    let expected = vec![
        Action::Register,
        Action::Ignore,
        Action::ServerConnect,
        Action::ChannelJoin,
        Action::Pong,
        Action::Terminate,
    ];

    let mut c = Client::new("irc.example.com", 6667);
    c.state = ClientState::Connecting;
    let mut actions = Vec::new();
    for line in lines {
        let m = parse_message(line).unwrap();
        let a = handle_event(&mut c, &m);
        actions.push(a);
        if a == Action::Terminate {
            break;
        }
    }
    assert_eq!(actions, expected);
    match &c.state {
        ClientState::InChannel(name) => assert_eq!(name, "rust"),
        other => panic!("expected InChannel, got {:?}", other),
    }
}
