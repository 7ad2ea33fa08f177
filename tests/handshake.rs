use console_relay::error::HandshakeError;
use console_relay::framer::{LineFramer, ReadEvent, ReadOutcome};
use console_relay::handshake::{line_bytes, Handshake, HandshakeAction, Phase, GRANTED, PROMPT};

fn record(s: &str) -> ReadEvent {
    ReadEvent::Record(s.to_string())
}

#[test]
fn happy_path_handshake() {
    let mut f = LineFramer::new();
    let mut h = Handshake::new();
    let ev = f.on_read(ReadOutcome::Bytes(b"Enter password:\0".to_vec())).unwrap();
    assert!(matches!(h.on_event(ev), HandshakeAction::SendPassword));
    assert_eq!(h.phase, Phase::AwaitVerdict);
    assert_eq!(line_bytes(b"hunter2"), b"hunter2\r\n".to_vec());
    let ev = f
        .on_read(ReadOutcome::Bytes(
            b"Authentication successful. External console access granted.\0".to_vec(),
        ))
        .unwrap();
    assert!(matches!(h.on_event(ev), HandshakeAction::Authenticated));
}

#[test]
fn wrong_password_is_rejected() {
    let mut h = Handshake::new();
    assert!(matches!(h.on_event(record(PROMPT)), HandshakeAction::SendPassword));
    match h.on_event(record("Wrong password.")) {
        HandshakeAction::Fail(HandshakeError::AuthRejected(t)) => assert_eq!(t, "Wrong password."),
        other => panic!("unexpected {:?}", other),
    }
}

#[test]
fn unexpected_greeting_fails() {
    let mut h = Handshake::new();
    match h.on_event(record(GRANTED)) {
        HandshakeAction::Fail(HandshakeError::UnexpectedGreeting(t)) => assert_eq!(t, GRANTED),
        other => panic!("unexpected {:?}", other),
    }
    assert_eq!(h.phase, Phase::AwaitPrompt);
}

#[test]
fn empty_records_are_waited_past() {
    let mut h = Handshake::new();
    assert!(matches!(h.on_event(record("")), HandshakeAction::Wait));
    assert!(matches!(h.on_event(record(PROMPT)), HandshakeAction::SendPassword));
    assert!(matches!(h.on_event(record("")), HandshakeAction::Wait));
    assert_eq!(h.phase, Phase::AwaitVerdict);
}

#[test]
fn closed_and_timeout_fail_the_handshake() {
    let mut h = Handshake::new();
    assert!(matches!(
        h.on_event(ReadEvent::Closed),
        HandshakeAction::Fail(HandshakeError::ClosedDuringHandshake)
    ));
    assert!(matches!(
        h.on_event(ReadEvent::IoError),
        HandshakeAction::Fail(HandshakeError::ClosedDuringHandshake)
    ));
    assert!(matches!(
        h.on_event(ReadEvent::Timeout),
        HandshakeAction::Fail(HandshakeError::HandshakeTimeout)
    ));
}

#[test]
fn bytes_after_the_verdict_stay_pending() {
    let mut f = LineFramer::new();
    let mut h = Handshake::new();
    f.feed(b"Enter password:\0");
    assert!(matches!(h.on_event(ReadEvent::Record(f.next_text().unwrap())), HandshakeAction::SendPassword));
    f.feed(b"Authentication successful. External console access granted.\0motd\0");
    assert!(matches!(h.on_event(ReadEvent::Record(f.next_text().unwrap())), HandshakeAction::Authenticated));
    assert_eq!(f.pending_len(), 5);
    assert_eq!(f.next_text(), Some("motd".to_string()));
}
