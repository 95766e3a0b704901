use ircbot::message::OutboundCommand;
use ircbot::parser::parse;
use ircbot::writer::serialize;

fn cmd(
    source: Option<&str>,
    command: &str,
    params: &[&str],
    trailing: Option<&str>,
) -> OutboundCommand {
    OutboundCommand {
        source: source.map(|s| s.as_bytes().to_vec()),
        command: command.as_bytes().to_vec(),
        params: params.iter().map(|p| p.as_bytes().to_vec()).collect(),
        trailing: trailing.map(|t| t.as_bytes().to_vec()),
    }
}

#[test]
fn serializes_nick() {
    let v = serialize(&cmd(None, "NICK", &["guard"], None)).unwrap();
    assert_eq!(v, b"NICK guard \r\n".to_vec());
}

#[test]
fn serializes_user_handshake() {
    let v = serialize(&cmd(None, "USER", &["guard", "0", "*"], Some("a real name"))).unwrap();
    assert_eq!(v, b"USER guard 0 * :a real name\r\n".to_vec());
}

#[test]
fn serializes_join_with_trailing_channel() {
    let v = serialize(&cmd(None, "JOIN", &[], Some("#chan"))).unwrap();
    assert_eq!(v, b"JOIN :#chan\r\n".to_vec());
}

#[test]
fn serializes_source_prefix() {
    let v = serialize(&cmd(Some("me"), "QUIT", &[], Some("bye"))).unwrap();
    assert_eq!(v, b":me QUIT :bye\r\n".to_vec());
}

#[test]
fn serializes_bare_pong() {
    let v = serialize(&cmd(None, "PONG", &[], None)).unwrap();
    assert_eq!(v, b"PONG \r\n".to_vec());
}

#[test]
fn fits_exactly_at_the_limit() {
    // "PONG " + ":" + 504 bytes + CRLF = 512 bytes exactly
    let token = "x".repeat(504);
    let v = serialize(&cmd(None, "PONG", &[], Some(&token))).unwrap();
    assert_eq!(v.len(), 512);
}

#[test]
fn refuses_an_oversize_line() {
    let token = "x".repeat(505);
    assert!(serialize(&cmd(None, "PONG", &[], Some(&token))).is_err());
}

#[test]
fn wire_form_parses_back() {
    let v = serialize(&cmd(Some("nick!user@host"), "PRIVMSG", &["#chan"], Some("hi there")))
        .unwrap();
    // strip the CR LF terminator to get the record
    let record = v[..v.len() - 2].to_vec();
    let m = parse(&record).unwrap();
    assert_eq!(m.command, b"PRIVMSG".to_vec());
    assert_eq!(m.params, vec![b"#chan".to_vec()]);
    assert_eq!(m.trailing, Some(b"hi there".to_vec()));
}
