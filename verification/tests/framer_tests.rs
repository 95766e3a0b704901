use ircbot::framer::{FrameItem, LineFramer};

fn records(items: &[FrameItem]) -> Vec<Option<Vec<u8>>> {
    items
        .iter()
        .map(|it| match it {
            FrameItem::Record(r) => Some(r.clone()),
            FrameItem::Oversize => None,
        })
        .collect()
}

#[test]
fn frames_crlf_terminated_records() {
    let mut f = LineFramer::new();
    let items = f.push_chunk(b"PING :abc\r\nPONG :x\r\n");
    let recs = records(&items);
    // the LF after each CR yields an empty record, which the engine skips
    assert_eq!(
        recs,
        vec![
            Some(b"PING :abc".to_vec()),
            Some(Vec::new()),
            Some(b"PONG :x".to_vec()),
            Some(Vec::new())
        ]
    );
}

#[test]
fn tolerates_bare_lf_and_bare_cr() {
    let mut f = LineFramer::new();
    let items = f.push_chunk(b"a\nb\rc\n");
    assert_eq!(
        records(&items),
        vec![Some(b"a".to_vec()), Some(b"b".to_vec()), Some(b"c".to_vec())]
    );
}

#[test]
fn chunking_does_not_change_the_records() {
    let stream = b":irc.example.net 001 Nick :Welcome\r\nPING :abc\r\n";
    let mut one_shot = LineFramer::new();
    let whole = records(&one_shot.push_chunk(stream));

    // deliver the same bytes one at a time
    let mut trickle = LineFramer::new();
    let mut collected = Vec::new();
    for b in stream.iter() {
        collected.extend(records(&trickle.push_chunk(std::slice::from_ref(b))));
    }
    assert_eq!(whole, collected);

    // and in two uneven chunks, split inside a record
    let mut split = LineFramer::new();
    let mut collected = records(&split.push_chunk(&stream[..17]));
    collected.extend(records(&split.push_chunk(&stream[17..])));
    assert_eq!(whole, collected);
}

#[test]
fn eof_yields_the_final_partial_record() {
    let mut f = LineFramer::new();
    let items = f.push_chunk(b"PING :a\r\nPARTIAL");
    assert_eq!(
        records(&items),
        vec![Some(b"PING :a".to_vec()), Some(Vec::new())]
    );
    match f.eof() {
        Some(FrameItem::Record(r)) => assert_eq!(r, b"PARTIAL".to_vec()),
        _ => panic!("expected the final partial record"),
    }
}

#[test]
fn eof_with_nothing_pending_yields_nothing() {
    let mut f = LineFramer::new();
    f.push_chunk(b"done\r\n");
    assert!(f.eof().is_none());
}

#[test]
fn a_510_byte_record_is_accepted() {
    let mut f = LineFramer::new();
    let mut line = vec![b'x'; 510];
    line.extend_from_slice(b"\r\n");
    let items = f.push_chunk(&line);
    assert_eq!(records(&items)[0], Some(vec![b'x'; 510]));
}

#[test]
fn an_oversize_record_is_rejected_and_framing_recovers() {
    let mut f = LineFramer::new();
    let mut line = vec![b'x'; 600];
    line.extend_from_slice(b"\r\nPING :ok\r\n");
    let items = f.push_chunk(&line);
    // one rejection for the overlong record, nothing of its content
    assert!(matches!(items[0], FrameItem::Oversize));
    let recs = records(&items[1..]);
    assert!(recs.contains(&Some(b"PING :ok".to_vec())));
    assert!(recs.iter().all(|r| r != &Some(vec![b'x'; 600])));
}
