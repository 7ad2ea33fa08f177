use vstd::prelude::*;
use crate::error::{ConsoleError, HandshakeError};

verus! {

pub open spec fn digit_char(d: nat) -> char {
    if d == 0 {
        '0'
    } else if d == 1 {
        '1'
    } else if d == 2 {
        '2'
    } else if d == 3 {
        '3'
    } else if d == 4 {
        '4'
    } else if d == 5 {
        '5'
    } else if d == 6 {
        '6'
    } else if d == 7 {
        '7'
    } else if d == 8 {
        '8'
    } else {
        '9'
    }
}

/// The decimal digits of `n`, without leading zeros.
pub open spec fn decimal_of(n: nat) -> Seq<char>
    decreases n,
{
    if n < 10 {
        seq![digit_char(n)]
    } else {
        decimal_of(n / 10).push(digit_char(n % 10))
    }
}

fn digit_str(d: usize) -> (r: &'static str)
    requires
        d < 10,
    ensures
        r@ == seq![digit_char(d as nat)],
{
    if d == 0 {
        proof { reveal_strlit("0"); }
        "0"
    } else if d == 1 {
        proof { reveal_strlit("1"); }
        "1"
    } else if d == 2 {
        proof { reveal_strlit("2"); }
        "2"
    } else if d == 3 {
        proof { reveal_strlit("3"); }
        "3"
    } else if d == 4 {
        proof { reveal_strlit("4"); }
        "4"
    } else if d == 5 {
        proof { reveal_strlit("5"); }
        "5"
    } else if d == 6 {
        proof { reveal_strlit("6"); }
        "6"
    } else if d == 7 {
        proof { reveal_strlit("7"); }
        "7"
    } else if d == 8 {
        proof { reveal_strlit("8"); }
        "8"
    } else {
        proof { reveal_strlit("9"); }
        "9"
    }
}

/// `n` in decimal.
pub fn decimal(n: usize) -> (r: String)
    ensures
        r@ == decimal_of(n as nat),
    decreases n,
{
    if n < 10 {
        String::from_str(digit_str(n))
    } else {
        let mut r = decimal(n / 10);
        r.append(digit_str(n % 10));
        r
    }
}

/// What `{:?}` writes for a string: quoted, with escapes.
pub uninterp spec fn debug_text(s: Seq<char>) -> Seq<char>;

/// Relies on `<str as Debug>::fmt`: the text depends on the string alone.
#[verifier::external_body]
fn debug_quote(s: &str) -> (r: String)
    ensures
        r@ == debug_text(s@),
{
    format!("{:?}", s)
}

/// The line that shows one record of the reply of session `id`.
pub fn record_line(id: usize, text: &str) -> (r: String)
    ensures
        r@ == "["@ + decimal_of(id as nat) + "] :: "@ + debug_text(text@),
{
    let mut r = String::from_str("[");
    r.append(decimal(id).as_str());
    r.append("] :: ");
    r.append(debug_quote(text).as_str());
    r
}

/// The lines that show a reply of session `id`, one per record.
pub fn reply_lines(id: usize, records: &Vec<String>) -> (r: Vec<String>)
    ensures
        r@.len() == records@.len(),
        forall|i: int|
            0 <= i < r@.len() ==> (#[trigger] r@[i])@ == "["@ + decimal_of(id as nat) + "] :: "@
                + debug_text(records@[i]@),
{
    let mut r: Vec<String> = Vec::new();
    let mut i: usize = 0;
    while i < records.len()
        invariant
            0 <= i <= records@.len(),
            r@.len() == i,
            forall|k: int|
                0 <= k < i ==> (#[trigger] r@[k])@ == "["@ + decimal_of(id as nat) + "] :: "@
                    + debug_text(records@[k]@),
        decreases records@.len() - i,
    {
        r.push(record_line(id, records[i].as_str()));
        i = i + 1;
    }
    r
}

/// What the chat is told of an error.
pub open spec fn error_text_spec(e: ConsoleError) -> Seq<char> {
    match e {
        ConsoleError::ConnectError(d) => "failed to connect "@ + d@,
        ConsoleError::Handshake(h) => match h {
            HandshakeError::ClosedDuringHandshake => "connection closed during handshake"@,
            HandshakeError::UnexpectedGreeting(t) => "<- "@ + debug_text(t@),
            HandshakeError::AuthRejected(t) => "<- "@ + debug_text(t@),
            HandshakeError::HandshakeTimeout => "handshake timed out"@,
        },
        ConsoleError::NotFound(id) => "server not registered "@ + decimal_of(id as nat),
        ConsoleError::SessionDead(id) => "server "@ + decimal_of(id as nat) + " is dead"@,
        ConsoleError::ArgumentError => "bad arguments"@,
    }
}

pub fn error_text(e: &ConsoleError) -> (r: String)
    ensures
        r@ == error_text_spec(*e),
{
    match e {
        ConsoleError::ConnectError(d) => {
            let mut r = String::from_str("failed to connect ");
            r.append(d.as_str());
            r
        },
        ConsoleError::Handshake(h) => match h {
            HandshakeError::ClosedDuringHandshake => String::from_str(
                "connection closed during handshake",
            ),
            HandshakeError::UnexpectedGreeting(t) => {
                let mut r = String::from_str("<- ");
                r.append(debug_quote(t.as_str()).as_str());
                r
            },
            HandshakeError::AuthRejected(t) => {
                let mut r = String::from_str("<- ");
                r.append(debug_quote(t.as_str()).as_str());
                r
            },
            HandshakeError::HandshakeTimeout => String::from_str("handshake timed out"),
        },
        ConsoleError::NotFound(id) => {
            let mut r = String::from_str("server not registered ");
            r.append(decimal(*id).as_str());
            r
        },
        ConsoleError::SessionDead(id) => {
            let mut r = String::from_str("server ");
            r.append(decimal(*id).as_str());
            r.append(" is dead");
            r
        },
        ConsoleError::ArgumentError => String::from_str("bad arguments"),
    }
}

/// What the chat is told of a `server add`.
pub fn add_reply(outcome: &Result<usize, ConsoleError>) -> (r: String)
    ensures
        outcome matches Ok(id) ==> r@ == "server authed & added "@ + decimal_of(*id as nat),
        outcome matches Err(e) ==> r@ == error_text_spec(*e),
{
    match outcome {
        Ok(id) => {
            let mut r = String::from_str("server authed & added ");
            r.append(decimal(*id).as_str());
            r
        },
        Err(e) => error_text(e),
    }
}

} // verus!
