//! The redirect policy of the HTTP fetcher.
//!
//! The fetcher always issues GET. On a 301, 302, 303, 307 or 308 response it
//! re-issues the request against the `Location` header, up to a bounded
//! number of hops; a 2xx response is terminal success; everything else is a
//! terminal failure. The caller performs the requests and feeds each
//! response's status, `Location` header and hop count through
//! [`redirect_step`].

use vstd::prelude::*;

use crate::error::UpdateError;

verus! {

/// How many redirect hops a single fetch may take before it is abandoned.
pub const MAX_REDIRECTS: usize = 10;

/// What to do with one response.
pub enum RedirectDecision {
    /// Re-issue the request against this URL.
    Follow(String),
    /// Terminal success: drive the response body.
    Done,
    /// Terminal failure.
    Fail(UpdateError),
}

/// The five statuses that redirect a GET.
pub open spec fn is_redirect_status(status: u16) -> bool {
    status == 301 || status == 302 || status == 303 || status == 307 || status == 308
}

/// The statuses of a successful terminal response.
pub open spec fn is_success_status(status: u16) -> bool {
    200 <= status < 300
}

/// Decides what one response means for the fetch: follow its redirect, drive
/// its body, or fail with `RedirectLoop` (hop budget spent) or `HttpStatus`
/// (terminal non-success, or a redirect without a `Location`).
pub fn redirect_step(status: u16, location: Option<String>, hops: usize) -> (r: RedirectDecision)
    ensures
        is_success_status(status) ==> r == RedirectDecision::Done,
        is_redirect_status(status) && hops >= MAX_REDIRECTS ==> r == RedirectDecision::Fail(
            UpdateError::RedirectLoop,
        ),
        is_redirect_status(status) && hops < MAX_REDIRECTS ==> match location {
            Some(l) => r == RedirectDecision::Follow(l),
            None => r == RedirectDecision::Fail(UpdateError::HttpStatus(status)),
        },
        !is_success_status(status) && !is_redirect_status(status) ==> r == RedirectDecision::Fail(
            UpdateError::HttpStatus(status),
        ),
{
    if 200 <= status && status < 300 {
        RedirectDecision::Done
    } else if status == 301 || status == 302 || status == 303 || status == 307 || status == 308 {
        if hops >= MAX_REDIRECTS {
            RedirectDecision::Fail(UpdateError::RedirectLoop)
        } else {
            match location {
                Some(l) => RedirectDecision::Follow(l),
                None => RedirectDecision::Fail(UpdateError::HttpStatus(status)),
            }
        }
    } else {
        RedirectDecision::Fail(UpdateError::HttpStatus(status))
    }
}

} // verus!
