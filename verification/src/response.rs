//! Status classification shared by the mutating tools.
//!
//! The session-revocation and mail-sending tools POST or DELETE against a
//! single endpoint: success is any success status, and a failure surfaces
//! the response body verbatim.

use vstd::prelude::*;
use crate::fetch::spec_status_success;

verus! {

/// Why a mutating request failed: the status and the response body.
#[derive(Debug)]
pub struct RequestError {
    pub status: u16,
    pub body: String,
}

/// Whether a status counts as success.
pub fn status_is_success(status: u16) -> (r: bool)
    ensures
        r == spec_status_success(status),
{
    200 <= status && status < 300
}

/// Judges a mutating endpoint's response: `Ok` iff the status is a success;
/// otherwise the status and body, verbatim.
pub fn classify_response(status: u16, body: String) -> (r: Result<(), RequestError>)
    ensures
        r is Ok <==> spec_status_success(status),
        r matches Err(e) ==> e.status == status && e.body@ == body@,
{
    if 200 <= status && status < 300 {
        Ok(())
    } else {
        Err(RequestError { status, body })
    }
}

} // verus!
