//! What an HTTP exchange gave, as plain values.

use vstd::prelude::*;

verus! {

/// How one GET request ended.
#[derive(Debug, Clone)]
pub enum HttpOutcome {
    /// No response came: the request could not be sent.
    SendFailed { detail: String },
    /// A response came, and its body could not be received.
    BodyFailed { status: u16, reason: String, detail: String },
    /// A response came with this body.
    Complete { status: u16, reason: String, body: Vec<u8> },
}

/// Whether a status code is in the 2xx range.
pub open spec fn is_success(status: u16) -> bool {
    200 <= status && status < 300
}

/// Whether a status code is in the 2xx range.
pub fn status_is_success(status: u16) -> (ok: bool)
    ensures
        ok == is_success(status),
{
    200 <= status && status < 300
}

/// The name under which this client introduces itself to a server: that of a
/// Debian APT HTTP client.
pub fn user_agent() -> (agent: &'static str)
    ensures
        agent@ == "Debian APT-HTTP/1.3 (2.0.9)"@,
{
    "Debian APT-HTTP/1.3 (2.0.9)"
}

} // verus!
