//! The decisions of the server's HTTP binding: which requests are let in,
//! and which reply each outcome gets.

use vstd::prelude::*;
use vstd::string::StringExecFns;

use crate::client::{STATUS_CONFLICT, STATUS_OK};
use crate::lock_manager::{message_of, LockError};

verus! {

/// The HTTP status of a request without the right secret.
pub const STATUS_UNAUTHORIZED: u16 = 401;

/// The header that carries the shared secret.
pub const SECRET_HEADER: &'static str = "X-LOCKSERVER-SECRET";

/// An HTTP reply: its status and its text body.
pub struct Reply {
    pub status: u16,
    pub body: String,
}

/// Whether a request whose secret header holds `header` (none when absent)
/// may pass, the server's secret being `expected`.
pub fn secret_matches(header: Option<&str>, expected: &str) -> (r: bool)
    ensures
        r == (header is Some && header->0@ == expected@),
{
    match header {
        Some(h) => h.to_owned() == expected.to_owned(),
        None => false,
    }
}

/// The reply to a request refused for its secret.
pub fn unauthorized_reply() -> (r: Reply)
    ensures
        r.status == STATUS_UNAUTHORIZED,
        r.body@ == "Missing or invalid secret"@,
{
    Reply { status: STATUS_UNAUTHORIZED, body: "Missing or invalid secret".to_owned() }
}

/// The reply to an acquire or release request with outcome `outcome`:
/// `OK` on success, and `ERR` with the error's text, as a conflict, on
/// failure.
pub fn reply_for(outcome: &Result<(), LockError>) -> (r: Reply)
    ensures
        outcome is Ok ==> r.status == STATUS_OK && r.body@ == "OK"@,
        outcome is Err ==> r.status == STATUS_CONFLICT && r.body@ == "ERR "@ + message_of(outcome->Err_0),
{
    match outcome {
        Ok(()) => Reply { status: STATUS_OK, body: "OK".to_owned() },
        Err(e) => {
            let mut body = "ERR ".to_owned();
            let m = e.message();
            body.append(m.as_str());
            Reply { status: STATUS_CONFLICT, body }
        },
    }
}

} // verus!
