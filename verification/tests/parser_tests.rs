use ircbot::message::Source;
use ircbot::parser::{parse, parse_args, parse_source};

fn rec(s: &str) -> Vec<u8> {
    s.as_bytes().to_vec()
}

#[test]
fn parses_server_numeric_with_trailing() {
    let m = parse(&rec(":irc.example.net 001 Nick :Welcome")).unwrap();
    match m.source {
        Some(Source::ServerName(x)) => assert_eq!(x, b"irc.example.net".to_vec()),
        _ => panic!("expected a server name source"),
    }
    assert_eq!(m.command, b"001".to_vec());
    assert_eq!(m.params, vec![b"Nick".to_vec()]);
    assert_eq!(m.trailing, Some(b"Welcome".to_vec()));
}

#[test]
fn parses_client_identity_source() {
    let m = parse(&rec(":nick!user@host PRIVMSG #chan :hello")).unwrap();
    match m.source {
        Some(Source::ClientName(n, u, h)) => {
            assert_eq!(n, b"nick".to_vec());
            assert_eq!(u, b"user".to_vec());
            assert_eq!(h, b"host".to_vec());
        }
        _ => panic!("expected a client identity source"),
    }
    assert_eq!(m.command, b"PRIVMSG".to_vec());
    assert_eq!(m.params, vec![b"#chan".to_vec()]);
    assert_eq!(m.trailing, Some(b"hello".to_vec()));
}

#[test]
fn parses_without_source() {
    let m = parse(&rec("PING :abc")).unwrap();
    assert!(m.source.is_none());
    assert_eq!(m.command, b"PING".to_vec());
    assert!(m.params.is_empty());
    assert_eq!(m.trailing, Some(b"abc".to_vec()));
}

#[test]
fn parses_params_without_trailing() {
    let m = parse(&rec("MODE #chan +o guard")).unwrap();
    assert_eq!(m.command, b"MODE".to_vec());
    assert_eq!(m.params, vec![b"#chan".to_vec(), b"+o".to_vec(), b"guard".to_vec()]);
    assert_eq!(m.trailing, None);
}

#[test]
fn keeps_colon_inside_a_param() {
    // only a token that begins with ':' opens the trailing parameter
    let m = parse(&rec("CMD a:b c")).unwrap();
    assert_eq!(m.params, vec![b"a:b".to_vec(), b"c".to_vec()]);
    assert_eq!(m.trailing, None);
}

#[test]
fn first_trailing_marker_wins() {
    let m = parse(&rec("CMD a :first :second")).unwrap();
    assert_eq!(m.params, vec![b"a".to_vec()]);
    assert_eq!(m.trailing, Some(b"first :second".to_vec()));
}

#[test]
fn empty_trailing_is_present() {
    let m = parse(&rec("CMD a :")).unwrap();
    assert_eq!(m.params, vec![b"a".to_vec()]);
    assert_eq!(m.trailing, Some(Vec::new()));
}

#[test]
fn tolerates_extra_spaces() {
    let m = parse(&rec("CMD   a   b")).unwrap();
    assert_eq!(m.command, b"CMD".to_vec());
    assert_eq!(m.params, vec![b"a".to_vec(), b"b".to_vec()]);
}

#[test]
fn skips_leading_spaces_before_the_command() {
    let m = parse(&rec(" PING :x")).unwrap();
    assert!(m.source.is_none());
    assert_eq!(m.command, b"PING".to_vec());
    assert_eq!(m.trailing, Some(b"x".to_vec()));
}

#[test]
fn rejects_empty_and_blank_records() {
    assert!(parse(&rec("")).is_err());
    assert!(parse(&rec("   ")).is_err());
}

#[test]
fn rejects_source_without_command() {
    assert!(parse(&rec(":irc.example.net")).is_err());
    assert!(parse(&rec(":irc.example.net ")).is_err());
}

#[test]
fn source_splits_at_last_separators() {
    // the nick may contain '!'; user and host are read from the last
    // eligible separators
    match parse_source(&rec("a!b!c@d")) {
        Source::ClientName(n, u, h) => {
            assert_eq!(n, b"a!b".to_vec());
            assert_eq!(u, b"c".to_vec());
            assert_eq!(h, b"d".to_vec());
        }
        _ => panic!("expected a client identity"),
    }
}

#[test]
fn source_without_pattern_is_server_name() {
    match parse_source(&rec("services.")) {
        Source::ServerName(x) => assert_eq!(x, b"services.".to_vec()),
        _ => panic!("expected a server name"),
    }
    // an '@' before the only '!' is not the client pattern
    match parse_source(&rec("a@b!c")) {
        Source::ServerName(x) => assert_eq!(x, b"a@b!c".to_vec()),
        _ => panic!("expected a server name"),
    }
}

#[test]
fn shorten_takes_the_nick() {
    let s = Source::ClientName(b"nick".to_vec(), b"user".to_vec(), b"host".to_vec());
    assert_eq!(s.shorten(), &b"nick".to_vec());
    let s = Source::ServerName(b"irc.example.net".to_vec());
    assert_eq!(s.shorten(), &b"irc.example.net".to_vec());
}

#[test]
fn parse_args_reads_params_and_trailing() {
    let r = rec("CMD a b :tail here");
    let (params, trailing) = parse_args(&r, 3);
    assert_eq!(params, vec![b"a".to_vec(), b"b".to_vec()]);
    assert_eq!(trailing, Some(b"tail here".to_vec()));
}
