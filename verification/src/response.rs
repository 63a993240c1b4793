//! The uniform response envelope and the helpers that build error replies.
use vstd::prelude::*;

verus! {

/// Response envelope sent back for every operation: a success flag, a
/// human-readable message, and an optional payload.
pub struct ResponseToSend<T> {
    pub success: bool,
    pub message: String,
    pub data: Option<T>,
}

/// Alias of the envelope kept for callers that name it by this older name.
pub struct SuccessResponse<T> {
    pub success: bool,
    pub message: String,
    pub data: Option<T>,
}

/// A status code paired with the envelope: what a routing layer would turn
/// into an HTTP response.
pub struct Reply<T> {
    pub status: u16,
    pub body: ResponseToSend<T>,
}

/// Validation or semantic rejection: status 400, failure envelope.
pub fn handle_bad_request(message: &str) -> (r: Reply<()>)
    ensures
        r.status == 400,
        !r.body.success,
        r.body.message@ == message@,
        r.body.data is None,
{
    Reply {
        status: 400,
        body: ResponseToSend { success: false, message: message.to_owned(), data: None },
    }
}

/// Unexpected store, cache or hashing failure: status 500, failure envelope.
pub fn handle_internal_server_error(message: &str) -> (r: Reply<()>)
    ensures
        r.status == 500,
        !r.body.success,
        r.body.message@ == message@,
        r.body.data is None,
{
    Reply {
        status: 500,
        body: ResponseToSend { success: false, message: message.to_owned(), data: None },
    }
}

/// Duplicate resource: status 409. The success flag is set on this reply,
/// matching the envelope this service has always sent for conflicts.
pub fn handle_conflict_error(message: &str) -> (r: Reply<()>)
    ensures
        r.status == 409,
        r.body.success,
        r.body.message@ == message@,
        r.body.data is None,
{
    Reply {
        status: 409,
        body: ResponseToSend { success: true, message: message.to_owned(), data: None },
    }
}

/// Resource absent: status 404. The success flag is set on this reply,
/// matching the envelope this service has always sent for missing resources.
pub fn handle_not_found_error(message: &str) -> (r: Reply<()>)
    ensures
        r.status == 404,
        r.body.success,
        r.body.message@ == message@,
        r.body.data is None,
{
    Reply {
        status: 404,
        body: ResponseToSend { success: true, message: message.to_owned(), data: None },
    }
}

} // verus!
