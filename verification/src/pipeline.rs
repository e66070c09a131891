//! The decisions of the conversion program: which URL to fetch, whether a
//! page needs a browser, and how a tweet's oEmbed reply becomes Markdown.
use vstd::prelude::*;
use crate::dom::{compile_selector, fragment_selected_text, select_text_in_fragment, selector_parses};
use crate::browser::RenderResult;
use crate::error::{is_invalid_url_error, Error};
use crate::http::FetchResult;
use crate::text::{
    chars_of, contains, contains_str, is_whitespace, is_ws, lit, lowercase, push_chars, push_str,
    starts_with, starts_with_str, string_of, to_lowercase, trim, trim_chars, utf8_len,
    utf8_len_of,
};
use crate::urls::{form_urlencode, form_urlencoded, parse_url, url_parse, UrlParseError};

verus! {

// ---------------------------------------------------------------------------
// The URL (`validate_url`)
// ---------------------------------------------------------------------------

/// The URL with `https://` in front when it starts with neither `http://` nor
/// `https://`.
pub open spec fn with_scheme(url: Seq<char>) -> Seq<char> {
    if !starts_with(url, "http://"@) && !starts_with(url, "https://"@) {
        "https://"@ + url
    } else {
        url
    }
}

/// `validate_url`: the URL with a scheme, when `url` accepts it and finds a
/// host in it; otherwise an invalid-URL error that names the URL with its
/// scheme and the variant of the refusal (an empty host when no host was
/// found).
pub open spec fn validated(url: Seq<char>, r: Result<String, Error>) -> bool {
    let u = with_scheme(url);
    match url_parse(u) {
        Ok(true) => r matches Ok(s) && s@ == u,
        Ok(false) => r matches Err(Error::InvalidUrl(s, k)) && s@ == u && k
            == UrlParseError::EmptyHost,
        Err(variant) => r matches Err(e) && is_invalid_url_error(e, u, variant),
    }
}

/// Validates and normalizes the URL.
pub fn validate_url(url: &str) -> (r: Result<String, Error>)
    ensures
        validated(url@, r),
{
    let u = chars_of(url);
    let full = if !starts_with_str(&u, "http://") && !starts_with_str(&u, "https://") {
        let mut f = lit("https://");
        push_chars(&mut f, &u);
        f
    } else {
        u
    };
    let text = string_of(&full);
    match parse_url(text.as_str()) {
        Err(failure) => Err(Error::from_url_failure(text.as_str(), failure)),
        Ok(false) => Err(Error::InvalidUrl(text, UrlParseError::EmptyHost)),
        Ok(true) => Ok(text),
    }
}

/// A URL that already has a scheme keeps it.
pub proof fn lemma_with_scheme_idempotent(url: Seq<char>)
    ensures
        with_scheme(with_scheme(url)) == with_scheme(url),
{
    reveal_strlit("https://");
    reveal_strlit("http://");
    let u = with_scheme(url);
    if !starts_with(url, "http://"@) && !starts_with(url, "https://"@) {
        assert(u.take(8) =~= "https://"@);
    }
}

/// Validation is idempotent: a URL that validation accepts is accepted
/// again, unchanged.
pub proof fn law_validate_url_idempotent(url: Seq<char>, r: Result<String, Error>, s: String)
    requires
        validated(url, r),
        r == Ok::<String, Error>(s),
    ensures
        forall|r2: Result<String, Error>| validated(s@, r2) ==> (r2 matches Ok(s2) && s2@ == s@),
{
    lemma_with_scheme_idempotent(url);
}

/// A URL that validation accepts starts with `http://` or `https://`.
pub proof fn law_validated_url_has_scheme(url: Seq<char>, r: Result<String, Error>, s: String)
    requires
        validated(url, r),
        r == Ok::<String, Error>(s),
    ensures
        starts_with(s@, "http://"@) || starts_with(s@, "https://"@),
{
    reveal_strlit("https://");
    let u = with_scheme(url);
    if !starts_with(url, "http://"@) && !starts_with(url, "https://"@) {
        assert(u.take(8) =~= "https://"@);
    }
}

// ---------------------------------------------------------------------------
// Sites with their own handling
// ---------------------------------------------------------------------------

/// A Reddit URL.
pub open spec fn is_reddit(url: Seq<char>) -> bool {
    contains(url, "://reddit.com/"@) || contains(url, "://www.reddit.com/"@)
}

/// The hosts of X.com and Twitter, with their `www.` and `mobile.` forms,
/// between the scheme's `://` and the path's `/`.
pub open spec fn twitter_hosts() -> Seq<Seq<char>> {
    seq![
        "://x.com/"@,
        "://www.x.com/"@,
        "://mobile.x.com/"@,
        "://twitter.com/"@,
        "://www.twitter.com/"@,
        "://mobile.twitter.com/"@,
    ]
}

/// An X.com or Twitter URL.
pub open spec fn is_twitter(url: Seq<char>) -> bool {
    exists|i: int| 0 <= i < twitter_hosts().len() && contains(url, #[trigger] twitter_hosts()[i])
}

pub fn is_reddit_url(url: &str) -> (r: bool)
    ensures
        r == is_reddit(url@),
{
    let u = chars_of(url);
    contains_str(&u, "://reddit.com/") || contains_str(&u, "://www.reddit.com/")
}

/// Checks if a URL is an X.com or Twitter URL.
pub fn is_twitter_url(url: &str) -> (r: bool)
    ensures
        r == is_twitter(url@),
{
    let u = chars_of(url);
    let hits = [
        contains_str(&u, "://x.com/"),
        contains_str(&u, "://www.x.com/"),
        contains_str(&u, "://mobile.x.com/"),
        contains_str(&u, "://twitter.com/"),
        contains_str(&u, "://www.twitter.com/"),
        contains_str(&u, "://mobile.twitter.com/"),
    ];
    let ghost hosts = twitter_hosts();
    assert(forall|i: int| 0 <= i < 6 ==> hits@[i] == contains(u@, #[trigger] hosts[i]));
    let r = hits[0] || hits[1] || hits[2] || hits[3] || hits[4] || hits[5];
    proof {
        if r {
            let k: int = if hits@[0] { 0 } else if hits@[1] { 1 } else if hits@[2] { 2 } else if hits@[3] {
                3
            } else if hits@[4] { 4 } else { 5 };
            assert(contains(u@, hosts[k]));
        } else {
            assert forall|i: int| 0 <= i < hosts.len() implies !contains(u@, #[trigger] hosts[i]) by {
                assert(hits@[i] == contains(u@, hosts[i]));
            }
        }
    }
    r
}

/// How the program handles a URL.
pub enum Route {
    /// Refused: Reddit blocks automated access.
    Reddit,
    /// Fetched through Twitter's oEmbed API.
    Twitter,
    /// Fetched over HTTP, and rendered in a browser if need be.
    Web,
}

/// The route of a URL: Reddit before Twitter before the rest.
pub fn route_for(url: &str) -> (r: Route)
    ensures
        is_reddit(url@) ==> r is Reddit,
        !is_reddit(url@) && is_twitter(url@) ==> r is Twitter,
        !is_reddit(url@) && !is_twitter(url@) ==> r is Web,
{
    if is_reddit_url(url) {
        Route::Reddit
    } else if is_twitter_url(url) {
        Route::Twitter
    } else {
        Route::Web
    }
}

// ---------------------------------------------------------------------------
// Whether a page needs a browser (`should_use_js`)
// ---------------------------------------------------------------------------

/// The number of non-whitespace characters outside tags, and whether the
/// text ends inside a tag.
pub open spec fn visible_scan(s: Seq<char>) -> (nat, bool)
    decreases s.len(),
{
    if s.len() == 0 {
        (0, false)
    } else {
        let (count, in_tag) = visible_scan(s.drop_last());
        let c = s.last();
        if c == '<' {
            (count, true)
        } else if c == '>' {
            (count, false)
        } else if !in_tag && !is_ws(c) {
            (count + 1, in_tag)
        } else {
            (count, in_tag)
        }
    }
}

/// Markers of single-page applications, in the lowercased page.
pub open spec fn has_spa_marker(lower: Seq<char>) -> bool {
    ||| contains(lower, "data-reactroot"@)
    ||| contains(lower, "ng-app="@)
    ||| contains(lower, "ember-cli-"@)
    ||| contains(lower, "id=\"root\""@) && contains(lower, "<script"@)
    ||| contains(lower, "id=\"app\""@) && contains(lower, "<script"@)
}

/// A page needs a browser when less than 8% of its bytes are visible text
/// characters, when it holds fewer tokens than wanted, or when it carries a
/// marker of a single-page application. A token is taken as 3.9 bytes, so a
/// page is thin when `10 * bytes < 39 * min_tokens`: the largest factor under
/// four by which 390 bytes of plain prose still make 100 tokens.
pub open spec fn needs_js(html: Seq<char>, min_tokens: nat) -> bool {
    let visible = visible_scan(html).0;
    let len = if utf8_len(html) > 1 {
        utf8_len(html)
    } else {
        1
    };
    if 25 * visible < 2 * len {
        true
    } else if 10 * utf8_len(html) < 39 * min_tokens {
        true
    } else {
        has_spa_marker(lowercase(html))
    }
}

/// A character with an ASCII lowercase letter replaced by its capital.
pub open spec fn ascii_upper_char(c: char) -> char {
    if 97 <= (c as u32) <= 122 {
        ((c as u32) - 32) as char
    } else {
        c
    }
}

/// A text with its ASCII lowercase letters replaced by capitals.
pub open spec fn ascii_upper(s: Seq<char>) -> Seq<char> {
    s.map_values(|c: char| ascii_upper_char(c))
}

/// Upper-casing the ASCII letters of a page changes neither its count of
/// visible characters nor its length in bytes, so the density test and the
/// length test of the browser decision answer alike for both.
pub proof fn law_density_and_length_ignore_case(html: Seq<char>)
    ensures
        visible_scan(ascii_upper(html)) == visible_scan(html),
        utf8_len(ascii_upper(html)) == utf8_len(html),
    decreases html.len(),
{
    if html.len() > 0 {
        law_density_and_length_ignore_case(html.drop_last());
        assert(ascii_upper(html).drop_last() =~= ascii_upper(html.drop_last()));
        let c = html.last();
        assert(ascii_upper(html).last() == ascii_upper_char(c));
        if 97 <= (c as u32) <= 122 {
            assert((ascii_upper_char(c) as u32) == (c as u32) - 32);
        }
    }
}

fn visible_chars(h: &Vec<char>) -> (r: u128)
    ensures
        r == visible_scan(h@).0,
        r <= h@.len(),
{
    let n = h.len();
    let mut in_tag = false;
    let mut count: u128 = 0;
    let mut i: usize = 0;
    while i < n
        invariant
            n == h.len(),
            i <= n,
            (count as nat, in_tag) == visible_scan(h@.take(i as int)),
            count <= i,
        decreases n - i,
    {
        assert(h@.take(i + 1).drop_last() =~= h@.take(i as int));
        assert(h@.take(i + 1).last() == h@[i as int]);
        let c = h[i];
        if c == '<' {
            in_tag = true;
        } else if c == '>' {
            in_tag = false;
        } else if !in_tag && !is_whitespace(c) {
            count = count + 1;
        }
        i = i + 1;
    }
    assert(h@.take(n as int) =~= h@);
    count
}

/// Determines whether the page should be rendered in a browser. The share of
/// visible characters is compared exactly, as `25 * visible < 2 * length`.
pub fn should_use_js(html: &str, min_tokens: usize) -> (r: bool)
    ensures
        r == needs_js(html@, min_tokens as nat),
{
    let h = chars_of(html);
    let visible = visible_chars(&h);
    let bytes = utf8_len_of(&h);
    let hl = h.len();
    proof {
        crate::text::lemma_utf8_len_bounds(h@);
    }
    let len: u128 = if bytes > 1 {
        bytes
    } else {
        1
    };
    if 25 * visible < 2 * len {
        return true;
    }
    if 10 * bytes < 39 * (min_tokens as u128) {
        return true;
    }
    let lower = to_lowercase(&h);
    contains_str(&lower, "data-reactroot") || contains_str(&lower, "ng-app=") || contains_str(
        &lower,
        "ember-cli-",
    ) || (contains_str(&lower, "id=\"root\"") && contains_str(&lower, "<script")) || (
    contains_str(&lower, "id=\"app\"") && contains_str(&lower, "<script"))
}

/// Whether the browser should be tried: JavaScript is allowed and the page
/// needs it.
pub fn wants_browser(no_js: bool, body: &str, min_tokens: usize) -> (r: bool)
    ensures
        r == (!no_js && needs_js(body@, min_tokens as nat)),
{
    !no_js && should_use_js(body, min_tokens)
}

/// The page to convert, as its URL and its HTML: the rendered page when the
/// browser produced one, else the page fetched over HTTP.
pub fn page_to_convert(rendered: Option<RenderResult>, fetched: FetchResult) -> (r: (String, String))
    ensures
        match rendered {
            Some(p) => r.0@ == p.url@ && r.1@ == p.html@,
            None => r.0@ == fetched.url@ && r.1@ == fetched.body@,
        },
{
    match rendered {
        Some(p) => (p.url, p.html),
        None => (fetched.url, fetched.body),
    }
}

/// Output shorter than 100 bytes deserves a warning.
pub fn is_thin_output(markdown: &str) -> (r: bool)
    ensures
        r == (utf8_len(markdown@) < 100),
{
    utf8_len_of(&chars_of(markdown)) < 100
}

// ---------------------------------------------------------------------------
// Tweets through oEmbed
// ---------------------------------------------------------------------------

/// `extract_tweet_text`: the trimmed text of the first paragraph of a
/// blockquote in the fragment, or the fragment itself when there is no such
/// paragraph or its text is blank.
pub open spec fn tweet_text(html: Seq<char>) -> Seq<char> {
    if selector_parses("blockquote p"@) {
        let texts = fragment_selected_text(html, "blockquote p"@);
        if texts.len() > 0 && trim(texts[0]).len() > 0 {
            trim(texts[0])
        } else {
            html
        }
    } else {
        html
    }
}

/// Extracts clean tweet text from oEmbed blockquote HTML.
pub fn extract_tweet_text(html: &str) -> (r: String)
    ensures
        r@ == tweet_text(html@),
{
    let h = chars_of(html);
    match compile_selector("blockquote p") {
        Some(sel) => {
            let texts = select_text_in_fragment(&h, &sel);
            if texts.len() > 0 {
                let t = trim_chars(&texts[0]);
                assert(crate::text::views(&texts)[0] == texts@[0]@);
                if t.len() > 0 {
                    return string_of(&t);
                }
            }
            html.to_string()
        },
        None => html.to_string(),
    }
}

/// The oEmbed request for a tweet's URL.
pub open spec fn oembed_request(url: Seq<char>) -> Seq<char> {
    "https://publish.twitter.com/oembed?url="@ + form_urlencoded(url) + "&omit_script=true"@
}

/// The URL of Twitter's oEmbed API for a tweet.
pub fn oembed_url(url: &str) -> (r: String)
    ensures
        r@ == oembed_request(url@),
{
    let mut s = lit("https://publish.twitter.com/oembed?url=");
    let encoded = form_urlencode(&chars_of(url));
    push_chars(&mut s, &encoded);
    push_str(&mut s, "&omit_script=true");
    string_of(&s)
}

/// Names what `serde_json::from_str::<serde_json::Value>` and then indexing by
/// `key` and `as_str` give for a text: the string at that key of the top
/// object, if any, or the message of the parse error.
pub uninterp spec fn json_string_field(body: Seq<char>, key: Seq<char>) -> Result<Option<Seq<char>>, Seq<char>>;

/// Calls `serde_json::from_str` and reads the string at `key`; the outcome is
/// named `json_string_field`.
#[verifier::external_body]
pub(crate) fn read_json_string(body: &str, key: &str) -> (r: Result<Option<String>, String>)
    ensures
        json_string_field(body@, key@) == match r {
            Ok(Some(s)) => Ok(Some(s@)),
            Ok(None) => Ok(None),
            Err(m) => Err(m@),
        },
{
    match serde_json::from_str::<serde_json::Value>(body) {
        Ok(v) => Ok(v[key].as_str().map(|s| s.to_string())),
        Err(e) => Err(e.to_string()),
    }
}

/// A field of the reply, or `default` when it is absent.
pub open spec fn field_or(f: Option<Seq<char>>, default: Seq<char>) -> Seq<char> {
    match f {
        Some(s) => s,
        None => default,
    }
}

/// The Markdown of a tweet from the oEmbed reply `body` for the tweet at
/// `url`, or the parse error's message.
pub open spec fn tweet_markdown(body: Seq<char>, url: Seq<char>) -> Result<Seq<char>, Seq<char>> {
    match (
        json_string_field(body, "author_name"@),
        json_string_field(body, "author_url"@),
        json_string_field(body, "html"@),
    ) {
        (Ok(author), Ok(author_url), Ok(html)) => Ok(
            "**["@ + field_or(author, "Unknown"@) + "]("@ + field_or(author_url, seq![])
                + ")** on X.com\n\n"@ + trim(tweet_text(field_or(html, seq![])))
                + "\n\n> Source: "@ + url,
        ),
        (Err(m), _, _) => Err(m),
        (_, Err(m), _) => Err(m),
        (_, _, Err(m)) => Err(m),
    }
}

fn field_or_exec(f: Result<Option<String>, String>, default: &str) -> (r: Result<Vec<char>, String>)
    ensures
        match f {
            Ok(o) => r matches Ok(v) && v@ == field_or(
                match o {
                    Some(s) => Some(s@),
                    None => None,
                },
                default@,
            ),
            Err(m) => r matches Err(m2) && m2@ == m@,
        },
{
    match f {
        Ok(Some(s)) => Ok(chars_of(s.as_str())),
        Ok(None) => Ok(lit(default)),
        Err(m) => Err(m),
    }
}

fn oembed_parse_error(m: &String) -> (r: Error)
    ensures
        r matches Error::ParseError(msg) && msg@ == "oEmbed JSON parse error: "@ + m@,
{
    let mut msg = lit("oEmbed JSON parse error: ");
    push_chars(&mut msg, &chars_of(m.as_str()));
    Error::ParseError(string_of(&msg))
}

/// The Markdown of a tweet from its oEmbed reply; a reply that is not JSON
/// gives a parse error.
pub fn tweet_from_oembed(body: &str, url: &str) -> (r: Result<String, Error>)
    ensures
        match tweet_markdown(body@, url@) {
            Ok(md) => r matches Ok(s) && s@ == md,
            Err(m) => r matches Err(Error::ParseError(msg)) && msg@ == "oEmbed JSON parse error: "@
                + m,
        },
{
    proof {
        reveal_strlit("");
    }
    assert(""@ =~= Seq::<char>::empty());
    let author = field_or_exec(read_json_string(body, "author_name"), "Unknown");
    let author_url = field_or_exec(read_json_string(body, "author_url"), "");
    let html = field_or_exec(read_json_string(body, "html"), "");
    match (author, author_url, html) {
        (Ok(author), Ok(author_url), Ok(html)) => {
            let tweet = extract_tweet_text(string_of(&html).as_str());
            let tweet = trim_chars(&chars_of(tweet.as_str()));
            let mut md = lit("**[");
            push_chars(&mut md, &author);
            push_str(&mut md, "](");
            push_chars(&mut md, &author_url);
            push_str(&mut md, ")** on X.com\n\n");
            push_chars(&mut md, &tweet);
            push_str(&mut md, "\n\n> Source: ");
            push_chars(&mut md, &chars_of(url));
            Ok(string_of(&md))
        },
        (Err(m), _, _) => Err(oembed_parse_error(&m)),
        (_, Err(m), _) => Err(oembed_parse_error(&m)),
        (_, _, Err(m)) => Err(oembed_parse_error(&m)),
    }
}

} // verus!
