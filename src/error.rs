use vstd::prelude::*;

verus! {

/// Why a handshake ended without a session.
#[derive(Debug, Clone)]
pub enum HandshakeError {
    ClosedDuringHandshake,
    UnexpectedGreeting(String),
    AuthRejected(String),
    HandshakeTimeout,
}

/// The errors that reach the command surface.
#[derive(Debug, Clone)]
pub enum ConsoleError {
    ConnectError(String),
    Handshake(HandshakeError),
    NotFound(usize),
    SessionDead(usize),
    ArgumentError,
}

} // verus!
