//! The errors of the library.
use vstd::prelude::*;
use crate::urls::{UrlFailure, UrlParseError, variant_named};

verus! {

#[verifier::external_type_specification]
#[verifier::external_body]
pub struct ExIoError(std::io::Error);

/// Every way an operation of the library can fail.
#[derive(Debug)]
pub enum Error {
    DnsFailure(String),
    TcpTimeout(u64, String),
    HttpStatus { status: u16, url: String, reason: String },
    TooManyRedirects(String),
    RedirectLoop(String),
    InvalidRedirect { from: String, to: String },
    InvalidUrl(String, UrlParseError),
    FetchFailure(String, String),
    BrowserError(String),
    ChromeProcessError(std::io::Error),
    ChromeLaunchFailure(String),
    HtmlParseError(String),
    EmptyPageAfterJs,
    TlsError(String),
    Timeout(u64),
    IoError(std::io::Error),
    OutputError(String),
    Custom(String),
    ParseError(String),
}

pub type Result<T> = std::result::Result<T, Error>;

/// The error for a URL that `url` refused: the URL itself and the variant of
/// the refusal.
pub open spec fn is_invalid_url_error(e: Error, url: Seq<char>, variant: Seq<char>) -> bool {
    e matches Error::InvalidUrl(u, k) && u@ == url && k == variant_named(variant)
}

impl Error {
    /// The error for `url`, which `url` refused as `f` says: the URL that
    /// failed to parse, and the variant of the refusal.
    pub fn from_url_failure(url: &str, f: UrlFailure) -> (r: Error)
        ensures
            is_invalid_url_error(r, url@, f.variant@),
    {
        let kind = UrlParseError::from_variant_name(&f.variant);
        Error::InvalidUrl(url.to_string(), kind)
    }
}

} // verus!
