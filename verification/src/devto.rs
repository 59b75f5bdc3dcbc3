//! The decision logic of the dev.to adapter: how an HTTP response's status
//! line is classified into success, rate limiting, not-found and API
//! errors.  The adapter performs the request and hands the status, the
//! retry-after header and the body here as plain values.

use vstd::prelude::*;

use crate::digits::{dec_seq, parse_u64_spec, u64_digits};
use crate::error::PullError;
use crate::text::chars_string;

verus! {

/// How long to wait when the platform rate-limits us and its retry-after
/// header is absent or unreadable.
pub const DEFAULT_RETRY_AFTER: u64 = 60;

/// The authoritative minimum wait, in seconds, taken from a retry-after
/// header: its decimal value, or the default when the header is absent or
/// not a number.
pub open spec fn retry_after_spec(header: Option<Seq<char>>) -> u64 {
    match header {
        Some(s) => match parse_u64_spec(s) {
            Some(n) => n,
            None => DEFAULT_RETRY_AFTER,
        },
        None => DEFAULT_RETRY_AFTER,
    }
}

/// Reads a retry-after header value, exactly as `retry_after_spec` does.
pub fn retry_after_seconds(header: Option<&str>) -> (r: u64)
    ensures
        r == retry_after_spec(match header {
            Some(h) => Some(h@),
            None => None,
        }),
{
    match header {
        Some(h) => match crate::digits::parse_u64_str(h) {
            Some(n) => n,
            None => DEFAULT_RETRY_AFTER,
        },
        None => DEFAULT_RETRY_AFTER,
    }
}

/// The message reported when the API answers with a non-success status.
pub open spec fn api_error_msg(status: u16, body: Seq<char>) -> Seq<char> {
    "Dev.to API returned "@ + dec_seq(status as nat) + ": "@ + body
}

/// True when the status signals success.
pub open spec fn status_success(status: u16) -> bool {
    200 <= status < 300
}

/// Classifies a listing response: 429 is rate limiting with the header's
/// wait, any other non-success status is an API error carrying the status
/// and body, and a success status is no error at all.
pub fn list_response_error(status: u16, retry_after: Option<&str>, body: &str) -> (r: Option<
    PullError,
>)
    ensures
        status == 429 ==> (r matches Some(e) && e == PullError::RateLimited(
            retry_after_spec(
                match retry_after {
                    Some(h) => Some(h@),
                    None => None,
                },
            ),
        )),
        status != 429 && !status_success(status) ==> (r matches Some(e) && (e matches
            PullError::Api(m) && m@ == api_error_msg(status, body@))),
        status_success(status) ==> r is None,
{
    if status == 429 {
        return Some(PullError::RateLimited(retry_after_seconds(retry_after)));
    }
    if !(200 <= status && status < 300) {
        return Some(PullError::Api(api_error_message(status, body)));
    }
    None
}

/// Classifies a single-article fetch response: 404 means the article no
/// longer exists, then rate limiting and generic errors as for listings.
pub fn fetch_response_error(status: u16, retry_after: Option<&str>, body: &str, id: &str) -> (r:
    Option<PullError>)
    ensures
        status == 404 ==> (r matches Some(e) && (e matches PullError::NotFound(m) && m@ == id@)),
        status != 404 && status == 429 ==> (r matches Some(e) && e == PullError::RateLimited(
            retry_after_spec(
                match retry_after {
                    Some(h) => Some(h@),
                    None => None,
                },
            ),
        )),
        status != 404 && status != 429 && !status_success(status) ==> (r matches Some(e) && (e
            matches PullError::Api(m) && m@ == api_error_msg(status, body@))),
        status != 404 && status_success(status) ==> r is None,
{
    if status == 404 {
        return Some(PullError::NotFound(id.to_owned()));
    }
    list_response_error(status, retry_after, body)
}

/// Builds the API error message for a status and body.
fn api_error_message(status: u16, body: &str) -> (r: String)
    ensures
        r@ == api_error_msg(status, body@),
{
    let digits = u64_digits(status as u64);
    let num = chars_string(&digits);
    String::from_str("Dev.to API returned ").concat(num.as_str()).concat(": ").concat(body)
}

} // verus!
