//! The command line's arguments and what the program reads from them.
use vstd::prelude::*;
use crate::http::USER_AGENT;

verus! {

#[verifier::external_type_specification]
#[verifier::external_body]
pub struct ExPathBuf(std::path::PathBuf);

/// The options of a conversion, as the command line gives them.
#[derive(Debug)]
pub struct Args {
    /// URL to convert to Markdown.
    pub url: String,
    /// Request timeout in seconds.
    pub timeout: u64,
    /// Use plain HTTP only, never the headless browser.
    pub no_js: bool,
    /// The User-Agent to send instead of the default one.
    pub user_agent: Option<String>,
    /// Where to write the Markdown; standard output when absent.
    pub output: Option<std::path::PathBuf>,
    /// Report requests and timing.
    pub verbose: bool,
    /// Minimum content length (in tokens) to trigger the browser fallback;
    /// a token is taken as 3.9 bytes of the page.
    pub min_content_tokens: usize,
    /// Extra wait for scripts to settle after a page loads, in milliseconds.
    pub js_wait_ms: u64,
}

/// Names `std::time::Duration::from_secs(secs)`.
pub uninterp spec fn duration_of_secs(secs: u64) -> core::time::Duration;

/// Calls `std::time::Duration::from_secs`; the result is named
/// `duration_of_secs`.
#[verifier::external_body]
pub(crate) fn duration_from_secs(secs: u64) -> (r: core::time::Duration)
    ensures
        r == duration_of_secs(secs),
{
    core::time::Duration::from_secs(secs)
}

impl Args {
    /// The User-Agent given, or the default one.
    pub fn user_agent(&self) -> (r: &str)
        ensures
            r@ == match self.user_agent {
                Some(ua) => ua@,
                None => USER_AGENT@,
            },
    {
        match &self.user_agent {
            Some(ua) => ua.as_str(),
            None => USER_AGENT,
        }
    }

    /// The timeout as a duration.
    pub fn timeout_duration(&self) -> (r: core::time::Duration)
        ensures
            r == duration_of_secs(self.timeout),
    {
        duration_from_secs(self.timeout)
    }
}

/// Chrome browser identification.
pub const CHROME_VERSION: &'static str = "Chrome/134.0.0.0";

/// Platform identifier.
pub const PLATFORM: &'static str = "\"Windows\"";

/// Mobile indicator.
pub const IS_MOBILE: &'static str = "?0";

} // verus!
