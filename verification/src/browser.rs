//! What the library decides about pages rendered by a headless browser.
use vstd::prelude::*;
use crate::text::{chars_of, contains, contains_str, trim, trim_chars, utf8_len, utf8_len_of};

verus! {

/// Result of browser rendering.
#[derive(Debug)]
pub struct RenderResult {
    pub url: String,
    pub html: String,
    pub elapsed: core::time::Duration,
}

/// A rendered page is thin when it is blank, shorter than 500 bytes, the
/// empty document, or holds no article, no paragraph and no tweet.
pub open spec fn is_thin_render(html: Seq<char>) -> bool {
    ||| trim(html).len() == 0
    ||| utf8_len(html) < 500
    ||| contains(html, "<html><head></head><body></body></html>"@)
    ||| !contains(html, "<article"@) && !contains(html, "<p"@) && !contains(html, "data-tweet-id"@)
}

/// Whether the rendered page is too thin to use.
pub fn render_is_thin(html: &str) -> (r: bool)
    ensures
        r == is_thin_render(html@),
{
    let h = chars_of(html);
    trim_chars(&h).len() == 0 || utf8_len_of(&h) < 500 || contains_str(
        &h,
        "<html><head></head><body></body></html>",
    ) || (!contains_str(&h, "<article") && !contains_str(&h, "<p") && !contains_str(
        &h,
        "data-tweet-id",
    ))
}

/// The wait for a page's title: one poll every second, at most one poll
/// for every two seconds of the timeout.
pub struct TitleWait {
    attempts: u64,
    max_attempts: u64,
}

/// What to do next while waiting for the title.
pub enum WaitStep {
    /// Ask the page for its title (and, if it is still empty, sleep a second).
    Poll,
    /// Stop waiting.
    Stop,
}

impl TitleWait {
    pub closed spec fn attempts(&self) -> nat {
        self.attempts as nat
    }

    pub closed spec fn max_attempts(&self) -> nat {
        self.max_attempts as nat
    }

    /// Never more polls than allowed.
    #[verifier::type_invariant]
    spec fn within_limit(&self) -> bool {
        self.attempts <= self.max_attempts
    }

    /// The wait for a page loaded with a timeout of `timeout_secs`.
    pub fn new(timeout_secs: u64) -> (r: TitleWait)
        ensures
            r.attempts() == 0,
            r.max_attempts() == timeout_secs / 2,
    {
        TitleWait { attempts: 0, max_attempts: timeout_secs / 2 }
    }

    /// The next step: a poll while polls remain, counted, else stop.
    pub fn step(&mut self) -> (r: WaitStep)
        ensures
            old(self).attempts() <= old(self).max_attempts(),
            final(self).max_attempts() == old(self).max_attempts(),
            final(self).attempts() <= final(self).max_attempts(),
            old(self).attempts() < old(self).max_attempts() ==> r is Poll && final(self).attempts()
                == old(self).attempts() + 1,
            old(self).attempts() == old(self).max_attempts() ==> r is Stop && final(self).attempts()
                == old(self).attempts(),
    {
        proof {
            use_type_invariant(&*self);
        }
        if self.attempts < self.max_attempts {
            self.attempts = self.attempts + 1;
            WaitStep::Poll
        } else {
            WaitStep::Stop
        }
    }

    /// How many polls have been made.
    pub fn polls(&self) -> (r: u64)
        ensures
            r == self.attempts(),
            r <= self.max_attempts(),
    {
        proof {
            use_type_invariant(self);
        }
        self.attempts
    }
}

} // verus!
