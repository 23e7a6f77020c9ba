//! The network check: whether the catalog host answers.
//!
//! The caller asks the host with a metadata request first and, only if that gets no
//! answer at all, with a plain request. This module reads the verdict off what came back.

use vstd::prelude::*;
use vstd::string::StringExecFns;
use crate::probe::HttpStatus;

verus! {

/// Seconds after which a request of the network check gives up.
pub const TIMEOUT_SECS: u64 = 5;

/// The verdict after the metadata request: whether the host answered with success, or
/// nothing yet where it did not answer, so that the plain request decides.
pub fn head_verdict(head: Option<HttpStatus>) -> (verdict: Option<bool>)
    ensures
        match head {
            Some(status) => verdict == Some(status.success()),
            None => verdict is None,
        },
{
    match head {
        Some(status) => Some(status.is_success()),
        None => None,
    }
}

/// The message of a plain request that got no answer.
pub open spec fn request_failure(error: Seq<char>) -> Seq<char> {
    "Request failed: "@ + error
}

/// The verdict after the plain request: whether the host answered with success; the
/// check fails where this request got no answer either.
pub fn get_verdict(get: Result<HttpStatus, String>) -> (verdict: Result<bool, String>)
    ensures
        match get {
            Ok(status) => verdict == Ok::<bool, String>(status.success()),
            Err(error) => verdict matches Err(message) && message@ == request_failure(error@),
        },
{
    match get {
        Ok(status) => Ok(status.is_success()),
        Err(error) => {
            let mut message: String = "Request failed: ".to_owned();
            message.append(error.as_str());
            Err(message)
        },
    }
}

} // verus!
