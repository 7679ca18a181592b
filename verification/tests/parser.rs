use irc_client::message_parser::{
    consume_attribute, consume_string, parse_message, parse_parameters, match_command, Command,
    ParseError,
};

#[test]
fn consume_attribute_stops_at_the_separator() {
    let (token, next) = consume_attribute(b"NOTICE * :hi", 0);
    assert_eq!(token, "NOTICE");
    assert_eq!(next, 6);

    let (token, next) = consume_attribute(b"irc.example.com NOTICE", 0);
    assert_eq!(token, "irc.example.com");
    assert_eq!(next, 15);
}

#[test]
fn consume_string_token_and_verbatim_modes() {
    let (token, next) = consume_string(b"abc def\r\n", 4, true);
    assert_eq!(token, "def");
    assert_eq!(next, 7);

    let (token, next) = consume_string(b"abc def\r\n", 0, false);
    assert_eq!(token, "abc def");
    assert_eq!(next, 7);
}

#[test]
fn parse_parameters_splits_middle_and_trailing() {
    let params = parse_parameters(b" nick = #rust :a b c", 0);
    assert_eq!(
        params,
        vec!["nick".to_string(), "=".to_string(), "#rust".to_string(), "a b c".to_string()]
    );

    let params = parse_parameters(b"", 0);
    assert!(params.is_empty());
}

#[test]
fn parses_prefixed_notice_with_trailing() {
    let m = parse_message(b":irc.example.com NOTICE * :*** Checking Ident").unwrap();
    assert_eq!(m.source, Some("irc.example.com".to_string()));
    assert_eq!(m.command, Command::Notice);
    assert_eq!(m.parameters, vec!["*".to_string(), "*** Checking Ident".to_string()]);
}

#[test]
fn parses_ping_without_prefix() {
    let m = parse_message(b"PING :irc.example.com").unwrap();
    assert_eq!(m.source, None);
    assert_eq!(m.command, Command::Ping);
    assert_eq!(m.parameters, vec!["irc.example.com".to_string()]);
}

#[test]
fn parses_welcome_reply() {
    let m = parse_message(b":server 001 nick :Welcome").unwrap();
    assert_eq!(m.source, Some("server".to_string()));
    assert_eq!(m.command, Command::RplWelcome);
    assert_eq!(m.parameters, vec!["nick".to_string(), "Welcome".to_string()]);
}

#[test]
fn empty_line_is_abort_sentinel() {
    let m = parse_message(b"").unwrap();
    assert_eq!(m.source, None);
    assert_eq!(m.command, Command::AbortClient);
    assert!(m.parameters.is_empty());
}

#[test]
fn line_terminator_alone_is_abort_sentinel() {
    let m = parse_message(b"\r\n").unwrap();
    assert_eq!(m.command, Command::AbortClient);
    assert!(m.parameters.is_empty());

    let m = parse_message(b"   ").unwrap();
    assert_eq!(m.command, Command::AbortClient);
}

#[test]
fn prefix_without_command_is_rejected() {
    assert_eq!(parse_message(b":irc.example.com").unwrap_err(), ParseError::MissingCommand);
    assert_eq!(parse_message(b":irc.example.com \r\n").unwrap_err(), ParseError::MissingCommand);
}

#[test]
fn middle_parameters_split_on_spaces() {
    let m = parse_message(b":server 353 nick = #rust :alice bob carol").unwrap();
    assert_eq!(m.command, Command::RplNamReply);
    assert_eq!(
        m.parameters,
        vec![
            "nick".to_string(),
            "=".to_string(),
            "#rust".to_string(),
            "alice bob carol".to_string()
        ]
    );
}

#[test]
fn trailing_keeps_embedded_markers_and_spaces() {
    let m = parse_message(b"TOPIC #rust :see https://example.com: the spec").unwrap();
    assert_eq!(m.command, Command::Unimplemented("TOPIC".to_string()));
    assert_eq!(
        m.parameters,
        vec!["#rust".to_string(), "see https://example.com: the spec".to_string()]
    );
}

#[test]
fn line_terminator_is_stripped_from_parameters() {
    let m = parse_message(b"JOIN #rust\r\n").unwrap();
    assert_eq!(m.command, Command::Join);
    assert_eq!(m.parameters, vec!["#rust".to_string()]);

    let m = parse_message(b"PING :tic.example.com\r\n").unwrap();
    assert_eq!(m.parameters, vec!["tic.example.com".to_string()]);
}

#[test]
fn repeated_spaces_separate_like_one() {
    let m = parse_message(b"PRIVMSG   #rust   :hi there").unwrap();
    assert_eq!(m.command, Command::PrivMsg);
    assert_eq!(m.parameters, vec!["#rust".to_string(), "hi there".to_string()]);
}

#[test]
fn numeric_replies_classify_to_their_variants() {
    let table: Vec<(&[u8], Command)> = vec![
        (b"001", Command::RplWelcome),
        (b"002", Command::RplYourHost),
        (b"003", Command::RplCreated),
        (b"004", Command::RplMyInfo),
        (b"005", Command::RplIsSupport),
        (b"221", Command::RplUModeIs),
        (b"375", Command::RplMotdStart),
        (b"372", Command::RplMotd),
        (b"251", Command::RplLUserClient),
        (b"254", Command::RplLUserChannels),
        (b"255", Command::RplLUserMe),
        (b"353", Command::RplNamReply),
        (b"366", Command::RplEndOfNames),
    ];
    for (token, expected) in table {
        let text = String::from_utf8(token.to_vec()).unwrap();
        assert_eq!(match_command(text), expected);
    }
}

#[test]
fn textual_commands_classify_case_sensitively() {
    assert_eq!(match_command("NOTICE".to_string()), Command::Notice);
    assert_eq!(match_command("PRIVMSG".to_string()), Command::PrivMsg);
    assert_eq!(match_command("JOIN".to_string()), Command::Join);
    assert_eq!(match_command("PING".to_string()), Command::Ping);
    assert_eq!(
        match_command("notice".to_string()),
        Command::Unimplemented("notice".to_string())
    );
}

#[test]
fn unknown_tokens_round_trip_through_escape() {
    assert_eq!(
        match_command("WHOIS".to_string()),
        Command::Unimplemented("WHOIS".to_string())
    );
    assert_eq!(match_command("999".to_string()), Command::Unimplemented("999".to_string()));
    assert_eq!(match_command("".to_string()), Command::AbortClient);
}

#[test]
fn unknown_command_keeps_raw_token_in_message() {
    let m = parse_message(b":server 470 nick #chan :Forwarding").unwrap();
    assert_eq!(m.command, Command::Unimplemented("470".to_string()));
}
