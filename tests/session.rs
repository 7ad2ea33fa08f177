use console_relay::error::ConsoleError;
use console_relay::framer::{LineFramer, ReadEvent, ReadOutcome};
use console_relay::reply::reply_lines;
use console_relay::session::{check_live, collect_reply, ReplyCollector};

#[test]
fn exec_and_collect() {
    let mut f = LineFramer::new();
    let mut c = ReplyCollector::new();
    let outcomes = vec![
        ReadOutcome::Bytes(b"players: 3\0map: dm1\0".to_vec()),
        ReadOutcome::TimedOut,
    ];
    for o in outcomes {
        if let Some(ev) = f.on_read(o) {
            c.on_event(ev);
        }
        while !c.is_finished() {
            match f.next_text() {
                Some(t) => c.on_event(ReadEvent::Record(t)),
                None => break,
            }
        }
    }
    assert!(c.is_finished());
    assert!(!c.is_dead());
    let lines = reply_lines(0, &c.into_records());
    assert_eq!(lines, vec![r#"[0] :: "players: 3""#, r#"[0] :: "map: dm1""#]);
}

#[test]
fn silent_remote_gives_empty_reply() {
    let (records, dead) = collect_reply(vec![ReadEvent::Timeout]);
    assert!(records.is_empty());
    assert!(!dead);
    let (records, dead) = collect_reply(vec![ReadEvent::Timeout, ReadEvent::Record("late".to_string())]);
    assert!(records.is_empty());
    assert!(!dead);
}

#[test]
fn closed_stream_keeps_partial_reply_and_kills_session() {
    let (records, dead) = collect_reply(vec![
        ReadEvent::Record("a".to_string()),
        ReadEvent::Closed,
        ReadEvent::Record("b".to_string()),
    ]);
    assert_eq!(records, vec!["a".to_string()]);
    assert!(dead);
    let (records, dead) = collect_reply(vec![ReadEvent::Record("x".to_string()), ReadEvent::IoError]);
    assert_eq!(records, vec!["x".to_string()]);
    assert!(dead);
}

#[test]
fn failed_write_ends_reply() {
    let mut c = ReplyCollector::new();
    c.write_failed();
    assert!(c.is_finished());
    assert!(c.is_dead());
    assert!(c.into_records().is_empty());
}

#[test]
fn dead_session_fails_fast() {
    assert!(check_live(3, false).is_ok());
    assert!(matches!(check_live(3, true), Err(ConsoleError::SessionDead(3))));
}
