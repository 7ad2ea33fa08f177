use console_relay::error::{ConsoleError, HandshakeError};
use console_relay::reply::{add_reply, decimal, error_text, record_line};

#[test]
fn decimal_renders_digits() {
    assert_eq!(decimal(0), "0");
    assert_eq!(decimal(7), "7");
    assert_eq!(decimal(10), "10");
    assert_eq!(decimal(8303), "8303");
    assert_eq!(decimal(usize::MAX), usize::MAX.to_string());
}

#[test]
fn record_line_quotes_the_record() {
    assert_eq!(record_line(0, "players: 3"), r#"[0] :: "players: 3""#);
    assert_eq!(record_line(12, "say \"hi\""), r#"[12] :: "say \"hi\"""#);
}

#[test]
fn add_replies() {
    assert_eq!(add_reply(&Ok(0)), "server authed & added 0");
    let rejected = Err(ConsoleError::Handshake(HandshakeError::AuthRejected("Wrong password.".to_string())));
    assert_eq!(add_reply(&rejected), r#"<- "Wrong password.""#);
    let refused = Err(ConsoleError::ConnectError("Connection refused".to_string()));
    assert!(add_reply(&refused).starts_with("failed to connect"));
    let timeout = Err(ConsoleError::Handshake(HandshakeError::HandshakeTimeout));
    assert_eq!(add_reply(&timeout), "handshake timed out");
}

#[test]
fn error_texts() {
    assert_eq!(error_text(&ConsoleError::NotFound(7)), "server not registered 7");
    assert_eq!(error_text(&ConsoleError::SessionDead(2)), "server 2 is dead");
    assert_eq!(error_text(&ConsoleError::ArgumentError), "bad arguments");
    assert_eq!(
        error_text(&ConsoleError::Handshake(HandshakeError::ClosedDuringHandshake)),
        "connection closed during handshake"
    );
    assert_eq!(
        error_text(&ConsoleError::Handshake(HandshakeError::UnexpectedGreeting("hi".to_string()))),
        r#"<- "hi""#
    );
}
