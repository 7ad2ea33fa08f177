use console_relay::framer::{frame_all, LineFramer, ReadEvent, ReadOutcome};

fn texts(records: Vec<Vec<u8>>) -> Vec<String> {
    records.into_iter().map(|r| String::from_utf8(r).unwrap()).collect()
}

#[test]
fn reframes_joined_records() {
    let stream = b"players: 3\0map: dm1\r\n\0last\n\0".to_vec();
    assert_eq!(texts(frame_all(&stream)), vec!["players: 3", "map: dm1", "last"]);
}

#[test]
fn records_hold_no_nul_and_no_trailing_terminator() {
    let stream = b"a\r\n\r\0\r\n\0b\n\n\0c".to_vec();
    let records = frame_all(&stream);
    assert_eq!(texts(records.clone()), vec!["a", "", "b", "c"]);
    for r in records {
        assert!(!r.contains(&0u8));
        if let Some(last) = r.last() {
            assert!(*last != b'\r' && *last != b'\n' && *last != 0);
        }
    }
}

#[test]
fn empty_segment_is_ignored() {
    let stream = b"\0\0one\0\0two\0".to_vec();
    assert_eq!(texts(frame_all(&stream)), vec!["one", "two"]);
}

#[test]
fn pending_bytes_at_end_make_a_final_record() {
    let stream = b"one\0tail\r\n".to_vec();
    assert_eq!(texts(frame_all(&stream)), vec!["one", "tail"]);
}

#[test]
fn empty_stream_has_no_records() {
    assert!(frame_all(&[]).is_empty());
    assert!(frame_all(b"\0\0\0").is_empty());
}

#[test]
fn incremental_framing_waits_for_nul() {
    let mut f = LineFramer::new();
    f.feed(b"Enter pass");
    assert_eq!(f.next_record(), None);
    assert_eq!(f.pending_len(), 10);
    f.feed(b"word:\0rest");
    assert_eq!(f.next_text(), Some("Enter password:".to_string()));
    assert_eq!(f.pending_len(), 4);
    assert_eq!(f.next_text(), None);
    assert_eq!(f.finish_text(), Some("rest".to_string()));
    assert_eq!(f.finish_text(), None);
}

#[test]
fn lossy_text_replaces_invalid_bytes() {
    let mut f = LineFramer::new();
    f.feed(&[b'a', 0xff, b'b', 0]);
    assert_eq!(f.next_text(), Some("a\u{fffd}b".to_string()));
}

#[test]
fn read_outcomes_become_events() {
    let mut f = LineFramer::new();
    assert!(f.on_read(ReadOutcome::Bytes(b"players".to_vec())).is_none());
    match f.on_read(ReadOutcome::Bytes(b": 3\0map".to_vec())) {
        Some(ReadEvent::Record(t)) => assert_eq!(t, "players: 3"),
        other => panic!("unexpected {:?}", other),
    }
    assert!(matches!(f.on_read(ReadOutcome::TimedOut), Some(ReadEvent::Timeout)));
    assert!(matches!(f.on_read(ReadOutcome::Failed), Some(ReadEvent::IoError)));
    match f.on_read(ReadOutcome::End) {
        Some(ReadEvent::Record(t)) => assert_eq!(t, "map"),
        other => panic!("unexpected {:?}", other),
    }
    assert!(matches!(f.on_read(ReadOutcome::End), Some(ReadEvent::Closed)));
}
