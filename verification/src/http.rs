//! What the library decides about HTTP fetches: the default User-Agent, the
//! result of a fetch, and the errors of a failed one.
use vstd::prelude::*;
use crate::error::Error;

verus! {

/// The User-Agent of a desktop Chrome.
pub const USER_AGENT: &'static str = "Mozilla/5.0 (Windows NT 10.0; Win64; x64) AppleWebKit/537.36 (KHTML, like Gecko) Chrome/134.0.0.0 Safari/537.36";

/// A character that may stand in an HTTP header value: a tab, or any
/// character from the space on except DEL (`http`'s `is_valid` on each
/// UTF-8 byte; the bytes of a non-ASCII character are all 128 or more).
pub open spec fn header_char_ok(c: char) -> bool {
    c == '\t' || (c as u32 >= 32 && c as u32 != 127)
}

/// A text that `HeaderValue::from_str` accepts.
pub open spec fn header_value_ok(s: Seq<char>) -> bool {
    forall|i: int| 0 <= i < s.len() ==> header_char_ok(#[trigger] s[i])
}

/// Calls `reqwest::header::HeaderValue::from_str` (of the `http` crate),
/// which accepts a text exactly when every byte is a tab or lies from 32 up,
/// DEL excepted.
#[verifier::external_body]
fn is_header_value(s: &str) -> (r: bool)
    ensures
        r == header_value_ok(s@),
{
    reqwest::header::HeaderValue::from_str(s).is_ok()
}

/// The User-Agent header that a scraper sends: the one asked for when it is
/// a valid header value, else the default one.
pub fn user_agent_header(user_agent: &str) -> (r: &str)
    ensures
        r@ == if header_value_ok(user_agent@) {
            user_agent@
        } else {
            USER_AGENT@
        },
{
    if is_header_value(user_agent) {
        user_agent
    } else {
        USER_AGENT
    }
}

/// The result of a fetch.
#[derive(Debug)]
pub struct FetchResult {
    pub url: String,
    pub body: String,
    pub content_type: Option<String>,
    /// The HTTP status code.
    pub status: u16,
    pub elapsed: core::time::Duration,
}

/// A status in the 2xx range (`StatusCode::is_success`).
pub open spec fn is_success(status: u16) -> bool {
    200 <= status <= 299
}

/// The reason given, or `Unknown`.
pub open spec fn reason_or_unknown(reason: Option<String>) -> Seq<char> {
    match reason {
        Some(r) => r@,
        None => "Unknown"@,
    }
}

/// A response is accepted when its status is a success; otherwise the error
/// names the status, the final URL and the status's reason.
pub fn check_status(status: u16, reason: Option<String>, final_url: String) -> (r: Result<(), Error>)
    ensures
        r is Ok <==> is_success(status),
        !is_success(status) ==> (r matches Err(Error::HttpStatus { status: s, url, reason: why })
            && s == status && url@ == final_url@ && why@ == reason_or_unknown(reason)),
{
    if 200 <= status && status <= 299 {
        Ok(())
    } else {
        let why = match reason {
            Some(r) => r,
            None => "Unknown".to_string(),
        };
        Err(Error::HttpStatus { status, url: final_url, reason: why })
    }
}

/// What a failed request reports about itself.
pub struct RequestFailure {
    /// The URL of the request, when known.
    pub url: Option<String>,
    pub is_timeout: bool,
    pub is_redirect: bool,
    /// The status of the response, when there was one.
    pub status: Option<u16>,
    /// The canonical reason of that status, when it has one.
    pub reason: Option<String>,
    /// The failure's own message.
    pub message: String,
}

/// The URL of a failed request, or `unknown`.
pub open spec fn url_or_unknown(url: Option<String>) -> Seq<char> {
    match url {
        Some(u) => u@,
        None => "unknown"@,
    }
}

/// The error of a failed request: a timeout, then too many redirects, then a
/// refused status, else a plain fetch failure, each naming the URL.
pub open spec fn request_error(f: RequestFailure, e: Error) -> bool {
    let url = url_or_unknown(f.url);
    if f.is_timeout {
        e matches Error::TcpTimeout(secs, u) && secs == 10 && u@ == url
    } else if f.is_redirect {
        e matches Error::TooManyRedirects(u) && u@ == url
    } else if f.status is Some {
        e matches Error::HttpStatus { status, url: u, reason } && status == f.status->0 && u@
            == url && reason@ == reason_or_unknown(f.reason)
    } else {
        e matches Error::FetchFailure(u, m) && u@ == url && m@ == f.message@
    }
}

impl Error {
    /// `From<reqwest::Error>`, on what the failed request reports.
    pub fn from_request_failure(f: RequestFailure) -> (r: Error)
        ensures
            request_error(f, r),
    {
        let url = match f.url {
            Some(u) => u,
            None => "unknown".to_string(),
        };
        if f.is_timeout {
            return Error::TcpTimeout(10, url);
        }
        if f.is_redirect {
            return Error::TooManyRedirects(url);
        }
        match f.status {
            Some(status) => {
                let reason = match f.reason {
                    Some(r) => r,
                    None => "Unknown".to_string(),
                };
                Error::HttpStatus { status, url, reason }
            },
            None => Error::FetchFailure(url, f.message),
        }
    }
}

} // verus!
