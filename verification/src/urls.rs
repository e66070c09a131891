//! URL parsing, joining and form encoding through the `url` crate.
use vstd::prelude::*;
use crate::text::eq_str;

verus! {

/// Why `url` refused a URL: the variants of `url::ParseError`.
#[derive(Clone, Copy, Debug, PartialEq, Eq, Structural)]
pub enum UrlParseError {
    EmptyHost,
    IdnaError,
    InvalidPort,
    InvalidIpv4Address,
    InvalidIpv6Address,
    InvalidDomainCharacter,
    RelativeUrlWithoutBase,
    RelativeUrlWithCannotBeABaseBase,
    SetHostOnCannotBeABaseUrl,
    Overflow,
    /// A variant that a later version of `url` may add.
    Other,
}

/// A refusal of `url`: the name of the variant (its `Debug` form).
pub struct UrlFailure {
    pub variant: Vec<char>,
}

/// Names what `url::Url::parse` gives for a text: on success whether the URL
/// has a host, on failure the name of the error's variant.
pub uninterp spec fn url_parse(s: Seq<char>) -> Result<bool, Seq<char>>;

/// Names what `url::Url::join` gives on the URL parsed from `base` for the
/// reference `href`: the joined URL as text, or `None` when either fails.
pub uninterp spec fn url_join(base: Seq<char>, href: Seq<char>) -> Option<Seq<char>>;

/// Names what `url::form_urlencoded::byte_serialize` makes of the UTF-8 bytes
/// of a text.
pub uninterp spec fn form_urlencoded(s: Seq<char>) -> Seq<char>;

/// Calls `url::Url::parse`; the outcome is named `url_parse`.
#[verifier::external_body]
pub(crate) fn parse_url(s: &str) -> (r: Result<bool, UrlFailure>)
    ensures
        url_parse(s@) == match r {
            Ok(has_host) => Ok(has_host),
            Err(e) => Err(e.variant@),
        },
{
    match ::url::Url::parse(s) {
        Ok(u) => Ok(u.host_str().is_some()),
        Err(e) => Err(UrlFailure { variant: format!("{:?}", e).chars().collect() }),
    }
}

/// Calls `url::Url::parse` on `base` and then `Url::join` with `href`; the
/// outcome is named `url_join`.
#[verifier::external_body]
pub(crate) fn join_url(base: &str, href: &Vec<char>) -> (r: Option<Vec<char>>)
    ensures
        match r {
            Some(u) => url_join(base@, href@) == Some(u@),
            None => url_join(base@, href@) is None,
        },
{
    let joined = ::url::Url::parse(base).ok()?.join(&href.iter().collect::<String>()).ok()?;
    Some(joined.to_string().chars().collect())
}

/// Calls `url::form_urlencoded::byte_serialize`; the result is named
/// `form_urlencoded`.
#[verifier::external_body]
pub(crate) fn form_urlencode(s: &Vec<char>) -> (r: Vec<char>)
    ensures
        r@ == form_urlencoded(s@),
{
    let text: String = s.iter().collect();
    ::url::form_urlencoded::byte_serialize(text.as_bytes()).collect::<String>().chars().collect()
}

/// The variant of `url::ParseError` whose `Debug` name is `name`.
pub open spec fn variant_named(name: Seq<char>) -> UrlParseError {
    if name == "EmptyHost"@ {
        UrlParseError::EmptyHost
    } else if name == "IdnaError"@ {
        UrlParseError::IdnaError
    } else if name == "InvalidPort"@ {
        UrlParseError::InvalidPort
    } else if name == "InvalidIpv4Address"@ {
        UrlParseError::InvalidIpv4Address
    } else if name == "InvalidIpv6Address"@ {
        UrlParseError::InvalidIpv6Address
    } else if name == "InvalidDomainCharacter"@ {
        UrlParseError::InvalidDomainCharacter
    } else if name == "RelativeUrlWithoutBase"@ {
        UrlParseError::RelativeUrlWithoutBase
    } else if name == "RelativeUrlWithCannotBeABaseBase"@ {
        UrlParseError::RelativeUrlWithCannotBeABaseBase
    } else if name == "SetHostOnCannotBeABaseUrl"@ {
        UrlParseError::SetHostOnCannotBeABaseUrl
    } else if name == "Overflow"@ {
        UrlParseError::Overflow
    } else {
        UrlParseError::Other
    }
}

impl UrlParseError {
    /// The variant whose `Debug` name is `name`.
    pub fn from_variant_name(name: &Vec<char>) -> (r: UrlParseError)
        ensures
            r == variant_named(name@),
    {
        if eq_str(name, "EmptyHost") {
            UrlParseError::EmptyHost
        } else if eq_str(name, "IdnaError") {
            UrlParseError::IdnaError
        } else if eq_str(name, "InvalidPort") {
            UrlParseError::InvalidPort
        } else if eq_str(name, "InvalidIpv4Address") {
            UrlParseError::InvalidIpv4Address
        } else if eq_str(name, "InvalidIpv6Address") {
            UrlParseError::InvalidIpv6Address
        } else if eq_str(name, "InvalidDomainCharacter") {
            UrlParseError::InvalidDomainCharacter
        } else if eq_str(name, "RelativeUrlWithoutBase") {
            UrlParseError::RelativeUrlWithoutBase
        } else if eq_str(name, "RelativeUrlWithCannotBeABaseBase") {
            UrlParseError::RelativeUrlWithCannotBeABaseBase
        } else if eq_str(name, "SetHostOnCannotBeABaseUrl") {
            UrlParseError::SetHostOnCannotBeABaseUrl
        } else if eq_str(name, "Overflow") {
            UrlParseError::Overflow
        } else {
            UrlParseError::Other
        }
    }
}

} // verus!
