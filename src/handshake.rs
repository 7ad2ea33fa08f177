use vstd::prelude::*;
use crate::error::HandshakeError;
use crate::framer::ReadEvent;

verus! {

/// The record with which the console asks for the password.
pub const PROMPT: &'static str = "Enter password:";

/// The record with which the console accepts the password.
pub const GRANTED: &'static str = "Authentication successful. External console access granted.";

#[derive(Debug, Clone, Copy, PartialEq, Eq, Structural)]
pub enum Phase {
    AwaitPrompt,
    AwaitVerdict,
}

/// What the handshake asks of the stream after one event.
#[derive(Debug, Clone)]
pub enum HandshakeAction {
    /// Write the password and a CR LF, then wait for the verdict.
    SendPassword,
    /// Read the next record in the same phase.
    Wait,
    /// The stream is authenticated and becomes a session.
    Authenticated,
    Fail(HandshakeError),
}

/// What the handshake does, in `phase`, on event `e`.
pub open spec fn handshake_spec(phase: Phase, e: ReadEvent) -> HandshakeAction {
    match e {
        ReadEvent::Record(t) => if t@.len() == 0 {
            HandshakeAction::Wait
        } else if phase == Phase::AwaitPrompt {
            if t@ == PROMPT@ {
                HandshakeAction::SendPassword
            } else {
                HandshakeAction::Fail(HandshakeError::UnexpectedGreeting(t))
            }
        } else {
            if t@ == GRANTED@ {
                HandshakeAction::Authenticated
            } else {
                HandshakeAction::Fail(HandshakeError::AuthRejected(t))
            }
        },
        ReadEvent::Timeout => HandshakeAction::Fail(HandshakeError::HandshakeTimeout),
        _ => HandshakeAction::Fail(HandshakeError::ClosedDuringHandshake),
    }
}

/// The password exchange on a fresh console stream, one event at a time.
pub struct Handshake {
    pub phase: Phase,
}

impl Handshake {
    pub fn new() -> (r: Handshake)
        ensures
            r.phase == Phase::AwaitPrompt,
    {
        Handshake { phase: Phase::AwaitPrompt }
    }

    /// Decides on one event; after `SendPassword` the verdict is awaited.
    pub fn on_event(&mut self, e: ReadEvent) -> (r: HandshakeAction)
        ensures
            r == handshake_spec(old(self).phase, e),
            final(self).phase == (if r is SendPassword {
                Phase::AwaitVerdict
            } else {
                old(self).phase
            }),
    {
        match e {
            ReadEvent::Record(t) => {
                if t == String::new() {
                    HandshakeAction::Wait
                } else {
                    assert(t@.len() != 0) by {
                        if t@.len() == 0 {
                            assert(t@ =~= Seq::<char>::empty());
                        }
                    }
                    match self.phase {
                        Phase::AwaitPrompt => {
                            if t == String::from_str(PROMPT) {
                                self.phase = Phase::AwaitVerdict;
                                HandshakeAction::SendPassword
                            } else {
                                HandshakeAction::Fail(HandshakeError::UnexpectedGreeting(t))
                            }
                        },
                        Phase::AwaitVerdict => {
                            if t == String::from_str(GRANTED) {
                                HandshakeAction::Authenticated
                            } else {
                                HandshakeAction::Fail(HandshakeError::AuthRejected(t))
                            }
                        },
                    }
                }
            },
            ReadEvent::Timeout => HandshakeAction::Fail(HandshakeError::HandshakeTimeout),
            ReadEvent::Closed => HandshakeAction::Fail(HandshakeError::ClosedDuringHandshake),
            ReadEvent::IoError => HandshakeAction::Fail(HandshakeError::ClosedDuringHandshake),
        }
    }
}

/// `text` followed by CR LF: one line of the console protocol.
pub fn line_bytes(text: &[u8]) -> (r: Vec<u8>)
    ensures
        r@ == text@ + seq![13u8, 10u8],
{
    let mut r: Vec<u8> = Vec::new();
    let mut i: usize = 0;
    while i < text.len()
        invariant
            0 <= i <= text@.len(),
            r@ == text@.subrange(0, i as int),
        decreases text@.len() - i,
    {
        r.push(text[i]);
        i = i + 1;
        assert(r@ =~= text@.subrange(0, i as int));
    }
    r.push(13u8);
    r.push(10u8);
    assert(r@ =~= text@ + seq![13u8, 10u8]);
    r
}

} // verus!
