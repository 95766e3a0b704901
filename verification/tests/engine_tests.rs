use ircbot::dispatch::DisplayEvent;
use ircbot::engine::Engine;
use ircbot::session::Config;

fn config(channels: &[&str]) -> Config {
    Config {
        nickname: b"Nick".to_vec(),
        username: b"nickuser".to_vec(),
        realname: b"A Real Name".to_vec(),
        password: b"swordfish".to_vec(),
        server: b"irc.example.net".to_vec(),
        port: 6667,
        channels: channels.iter().map(|c| c.as_bytes().to_vec()).collect(),
    }
}

#[test]
fn hello_sends_nick_then_user_once() {
    let engine = Engine::new(config(&["#a"]));
    let (out, evs) = engine.hello();
    assert_eq!(out, vec![b"NICK Nick \r\n".to_vec(), b"USER nickuser 0 * :A Real Name\r\n".to_vec()]);
    assert!(evs.is_empty());
}

#[test]
fn ping_yields_exactly_one_pong() {
    let mut engine = Engine::new(config(&[]));
    let (out, evs) = engine.feed(b"PING :abc\r\n");
    assert_eq!(out, vec![b"PONG :abc\r\n".to_vec()]);
    assert!(evs.is_empty());
}

#[test]
fn ping_token_as_param_is_echoed() {
    let mut engine = Engine::new(config(&[]));
    let (out, _) = engine.feed(b"PING abc123\r\n");
    assert_eq!(out, vec![b"PONG :abc123\r\n".to_vec()]);
}

#[test]
fn ping_without_token_gets_bare_pong() {
    let mut engine = Engine::new(config(&[]));
    let (out, _) = engine.feed(b"PING\r\n");
    assert_eq!(out, vec![b"PONG \r\n".to_vec()]);
}

#[test]
fn welcome_and_motd_end_joins_the_channels() {
    let mut engine = Engine::new(config(&["#a", "#b"]));
    let (out, _) = engine.feed(
        b":irc.example.net 001 Nick :Welcome\r\n:irc.example.net 376 Nick :End of MOTD\r\n",
    );
    assert_eq!(out, vec![b"JOIN :#a\r\n".to_vec(), b"JOIN :#b\r\n".to_vec()]);
    assert!(engine.session.registered);
    assert_eq!(
        engine.session.channels,
        vec![b"#a".to_vec(), b"#b".to_vec()]
    );
}

#[test]
fn missing_motd_also_completes_registration() {
    let mut engine = Engine::new(config(&["#a"]));
    let (out, _) = engine.feed(b":irc.example.net 422 Nick :No MOTD\r\n");
    assert_eq!(out, vec![b"JOIN :#a\r\n".to_vec()]);
    assert!(engine.session.registered);
}

#[test]
fn motd_end_after_registration_is_a_no_op() {
    let mut engine = Engine::new(config(&["#a"]));
    engine.feed(b":irc.example.net 376 Nick :End of MOTD\r\n");
    let (out, evs) = engine.feed(b":irc.example.net 376 Nick :End of MOTD\r\n");
    assert!(out.is_empty());
    assert!(evs.is_empty());
}

#[test]
fn privmsg_reaches_the_relay_sink() {
    let mut engine = Engine::new(config(&[]));
    let (out, evs) = engine.feed(b":nick!user@host PRIVMSG #chan :hello\r\n");
    assert!(out.is_empty());
    assert_eq!(evs.len(), 1);
    match &evs[0] {
        DisplayEvent::Chat { notice, channel, nick, text } => {
            assert!(!notice);
            assert_eq!(channel, &b"#chan".to_vec());
            assert_eq!(nick, &b"nick".to_vec());
            assert_eq!(text, &b"hello".to_vec());
        }
        _ => panic!("expected a chat event"),
    }
}

#[test]
fn notice_is_marked_as_notice() {
    let mut engine = Engine::new(config(&[]));
    let (_, evs) = engine.feed(b":services. NOTICE Nick :registered\r\n");
    match &evs[0] {
        DisplayEvent::Chat { notice, channel, nick, text } => {
            assert!(notice);
            assert_eq!(channel, &b"Nick".to_vec());
            assert_eq!(nick, &b"services.".to_vec());
            assert_eq!(text, &b"registered".to_vec());
        }
        _ => panic!("expected a chat event"),
    }
}

#[test]
fn motd_line_is_displayed() {
    let mut engine = Engine::new(config(&[]));
    let (_, evs) = engine.feed(b":irc.example.net 372 Nick :- welcome to the server\r\n");
    match &evs[0] {
        DisplayEvent::Motd(text) => assert_eq!(text, &b"- welcome to the server".to_vec()),
        _ => panic!("expected a MOTD event"),
    }
}

#[test]
fn motd_start_is_silent() {
    let mut engine = Engine::new(config(&[]));
    let (out, evs) = engine.feed(b":irc.example.net 375 Nick :- MOTD -\r\n");
    assert!(out.is_empty());
    assert!(evs.is_empty());
}

#[test]
fn unknown_commands_pass_through_raw() {
    let mut engine = Engine::new(config(&[]));
    let (out, evs) = engine.feed(b":irc.example.net 251 Nick :There are 7 users\r\n");
    assert!(out.is_empty());
    match &evs[0] {
        DisplayEvent::Raw { source, command, args } => {
            assert_eq!(source, &b"irc.example.net".to_vec());
            assert_eq!(command, &b"251".to_vec());
            assert_eq!(args, &vec![b"Nick".to_vec(), b"There are 7 users".to_vec()]);
        }
        _ => panic!("expected a raw event"),
    }
}

#[test]
fn privmsg_with_wrong_arity_passes_through_raw() {
    let mut engine = Engine::new(config(&[]));
    let (_, evs) = engine.feed(b":nick!user@host PRIVMSG #chan\r\n");
    match &evs[0] {
        DisplayEvent::Raw { source, command, args } => {
            assert_eq!(source, &b"nick".to_vec());
            assert_eq!(command, &b"PRIVMSG".to_vec());
            assert_eq!(args, &vec![b"#chan".to_vec()]);
        }
        _ => panic!("expected a raw event"),
    }
}

#[test]
fn motd_line_with_wrong_arity_passes_through_raw() {
    let mut engine = Engine::new(config(&[]));
    let (_, evs) = engine.feed(b":irc.example.net 372 a b :text\r\n");
    assert!(matches!(&evs[0], DisplayEvent::Raw { .. }));
}

#[test]
fn two_collisions_grow_the_nickname_twice() {
    let mut engine = Engine::new(config(&["#a"]));
    let (hello, _) = engine.hello();
    let (out1, _) = engine.feed(b":irc.example.net 433 * Nick :Nickname is already in use\r\n");
    assert_eq!(out1, vec![b"NICK Nick_ \r\n".to_vec()]);
    let (out2, _) = engine.feed(b":irc.example.net 433 * Nick_ :Nickname is already in use\r\n");
    assert_eq!(out2, vec![b"NICK Nick__ \r\n".to_vec()]);
    assert_eq!(engine.session.nickname, b"Nick__".to_vec());
    assert!(!engine.session.registered);
    // over the whole connection: one USER (at connect), and one NICK resend
    // per collision beside the connect-time claim
    let all: Vec<&Vec<u8>> = hello.iter().chain(out1.iter()).chain(out2.iter()).collect();
    let users = all.iter().filter(|l| l.starts_with(b"USER ")).count();
    let nicks = all.iter().filter(|l| l.starts_with(b"NICK ")).count();
    assert_eq!(users, 1);
    assert_eq!(nicks, 3);
}

#[test]
fn malformed_records_are_reported_and_skipped() {
    let mut engine = Engine::new(config(&[]));
    let (out, evs) = engine.feed(b"   \r\nPING :ok\r\n");
    assert_eq!(out, vec![b"PONG :ok\r\n".to_vec()]);
    assert!(matches!(&evs[0], DisplayEvent::BadRecord(_)));
}

#[test]
fn empty_records_are_skipped_silently() {
    let mut engine = Engine::new(config(&[]));
    let (out, evs) = engine.feed(b"\r\n\r\nPING :x\r\n");
    assert_eq!(out, vec![b"PONG :x\r\n".to_vec()]);
    assert!(evs.is_empty());
}

#[test]
fn oversize_record_is_rejected_and_reported() {
    let mut engine = Engine::new(config(&[]));
    let mut stream = vec![b'x'; 600];
    stream.extend_from_slice(b"\r\nPING :ok\r\n");
    let (out, evs) = engine.feed(&stream);
    assert!(matches!(&evs[0], DisplayEvent::OversizeRecord));
    assert_eq!(out, vec![b"PONG :ok\r\n".to_vec()]);
}

#[test]
fn an_unsendable_reply_is_dropped_and_reported() {
    let mut engine = Engine::new(config(&[]));
    // a 510-byte record whose PONG reply would be 513 bytes
    let mut stream = b"PING ".to_vec();
    stream.extend_from_slice(&vec![b'a'; 505]);
    stream.extend_from_slice(b"\r\n");
    let (out, evs) = engine.feed(&stream);
    assert!(out.is_empty());
    assert!(matches!(&evs[0], DisplayEvent::DroppedReply));
}

#[test]
fn eof_dispatches_the_final_partial_record() {
    let mut engine = Engine::new(config(&[]));
    let (out, _) = engine.feed(b"PING :tail");
    assert!(out.is_empty());
    let (out, _) = engine.finish();
    assert_eq!(out, vec![b"PONG :tail\r\n".to_vec()]);
}

#[test]
fn partial_delivery_reaches_the_same_replies() {
    let stream = b"PING :abc\r\n:irc.example.net 376 Nick :End\r\n";
    let mut whole = Engine::new(config(&["#a"]));
    let (out_whole, _) = whole.feed(stream);

    let mut trickle = Engine::new(config(&["#a"]));
    let mut out_trickle = Vec::new();
    for b in stream.iter() {
        let (out, _) = trickle.feed(std::slice::from_ref(b));
        out_trickle.extend(out);
    }
    assert_eq!(out_whole, out_trickle);
}
