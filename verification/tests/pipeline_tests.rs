use html2md::error::Error;
use html2md::pipeline::{
    extract_tweet_text, is_reddit_url, is_thin_output, is_twitter_url, oembed_url, route_for,
    should_use_js, tweet_from_oembed, validate_url, wants_browser, Route,
};
use html2md::urls::UrlParseError;

#[test]
fn test_validate_url_with_https() {
    let result = validate_url("https://example.com");
    assert!(result.is_ok());
    assert_eq!(result.ok().unwrap(), "https://example.com");
}

#[test]
fn test_validate_url_without_scheme() {
    let result = validate_url("example.com");
    assert!(result.is_ok());
    assert_eq!(result.ok().unwrap(), "https://example.com");
}

#[test]
fn test_validate_url_with_path() {
    let result = validate_url("example.com/path/to/page");
    assert!(result.is_ok());
    assert_eq!(result.ok().unwrap(), "https://example.com/path/to/page");
}

#[test]
fn test_validate_url_invalid() {
    let result = validate_url("not a url");
    assert!(result.is_err());
}

#[test]
fn validate_url_reports_the_refusal() {
    match validate_url("not a url") {
        Err(Error::InvalidUrl(url, kind)) => {
            assert_eq!(kind, UrlParseError::IdnaError);
            assert_eq!(url, "https://not a url");
        }
        _ => panic!("expected an invalid URL"),
    }
    match validate_url("https://") {
        Err(Error::InvalidUrl(url, kind)) => {
            assert_eq!(kind, UrlParseError::EmptyHost);
            assert_eq!(url, "https://");
        }
        _ => panic!("expected an empty host"),
    }
}

#[test]
fn validate_url_keeps_http() {
    assert_eq!(validate_url("http://example.com/a").ok().unwrap(), "http://example.com/a");
}

#[test]
fn validate_url_is_idempotent() {
    let once = validate_url("example.com/x?y=1").ok().unwrap();
    let twice = validate_url(&once).ok().unwrap();
    assert_eq!(once, twice);
}

#[test]
fn test_should_use_js_thin_content() {
    let thin_html = "<html><head></head><body><div id=\"app\"></div></body></html>";
    assert!(should_use_js(thin_html, 500));
}

#[test]
fn test_should_use_js_react_app() {
    let react_html = "<html><body><div id=\"root\" data-reactroot></div><script src=\"react.js\"></script></body></html>";
    assert!(should_use_js(react_html, 100));
}

#[test]
fn test_should_not_use_js_normal_content() {
    let normal_html = r#"
            <html>
            <body>
                <h1>Welcome to my page</h1>
                <p>This is a lot of content that would indicate this is a regular HTML page without JavaScript rendering requirements.</p>
                <p>More content here with plenty of text to make it appear as if this page has substantial content.</p>
            </body>
            </html>
        "#;
    assert!(!should_use_js(normal_html, 100));
}

#[test]
fn should_use_js_for_short_pages() {
    let page = "<p>".to_string() + &"word ".repeat(40) + "</p>";
    assert!(!should_use_js(&page, 10));
    assert!(should_use_js(&page, 1000));
}

#[test]
fn should_use_js_on_spa_markers_in_any_case() {
    let page = "<p>".to_string() + &"text ".repeat(100) + "</p><div NG-APP=\"x\"></div>";
    assert!(should_use_js(&page, 10));
}

#[test]
fn wants_browser_respects_no_js() {
    let thin = "<html></html>";
    assert!(wants_browser(false, thin, 500));
    assert!(!wants_browser(true, thin, 500));
}

#[test]
fn routes() {
    assert!(is_reddit_url("https://www.reddit.com/r/rust/"));
    assert!(is_reddit_url("https://reddit.com/r/rust/"));
    assert!(!is_reddit_url("https://example.com/reddit.com/"));
    assert!(is_twitter_url("https://x.com/someone/status/1"));
    assert!(is_twitter_url("https://twitter.com/someone"));
    assert!(!is_twitter_url("https://example.com/x.com"));
    assert!(matches!(route_for("https://www.reddit.com/r/rust/"), Route::Reddit));
    assert!(matches!(route_for("https://x.com/a/status/1"), Route::Twitter));
    assert!(matches!(route_for("https://example.com/"), Route::Web));
}

#[test]
fn thin_output_below_one_hundred_bytes() {
    assert!(is_thin_output("short"));
    assert!(!is_thin_output(&"x".repeat(100)));
}

#[test]
fn tweet_text_takes_the_first_paragraph() {
    let html = "<blockquote class=\"twitter-tweet\"><p lang=\"en\">Hello <a href=\"#\">world</a></p>&mdash; Someone (@someone) <a href=\"#\">May 1, 2024</a></blockquote>";
    assert_eq!(extract_tweet_text(html), "Hello world");
}

#[test]
fn tweet_text_falls_back_to_the_html() {
    assert_eq!(extract_tweet_text("<div>no quote</div>"), "<div>no quote</div>");
    assert_eq!(extract_tweet_text("<blockquote><p>  </p></blockquote>"), "<blockquote><p>  </p></blockquote>");
}

#[test]
fn oembed_url_encodes_the_tweet_url() {
    assert_eq!(
        oembed_url("https://x.com/a/status/1"),
        "https://publish.twitter.com/oembed?url=https%3A%2F%2Fx.com%2Fa%2Fstatus%2F1&omit_script=true"
    );
}

#[test]
fn tweet_markdown_from_oembed_reply() {
    let body = r#"{"author_name":"Someone","author_url":"https://twitter.com/someone","html":"<blockquote><p>Big news</p>&mdash; Someone</blockquote>"}"#;
    let md = tweet_from_oembed(body, "https://x.com/someone/status/1").ok().unwrap();
    assert_eq!(
        md,
        "**[Someone](https://twitter.com/someone)** on X.com\n\nBig news\n\n> Source: https://x.com/someone/status/1"
    );
}

#[test]
fn tweet_markdown_defaults() {
    let md = tweet_from_oembed("{}", "https://x.com/a").ok().unwrap();
    assert_eq!(md, "**[Unknown]()** on X.com\n\n\n\n> Source: https://x.com/a");
}

#[test]
fn tweet_markdown_reports_bad_json() {
    match tweet_from_oembed("not json", "https://x.com/a") {
        Err(Error::ParseError(message)) => {
            assert!(message.starts_with("oEmbed JSON parse error: "));
            assert!(message.len() > "oEmbed JSON parse error: ".len());
        }
        _ => panic!("expected a parse error"),
    }
}

#[test]
fn accepted_urls_carry_a_scheme() {
    for input in ["example.com", "http://example.com/a", "https://example.com/b"] {
        let url = validate_url(input).ok().unwrap();
        assert!(url.starts_with("http://") || url.starts_with("https://"));
        assert_eq!(validate_url(&url).ok().unwrap(), url);
    }
}

#[test]
fn twitter_hosts_in_all_forms() {
    assert!(is_twitter_url("https://x.com/jack/status/20"));
    assert!(is_twitter_url("https://twitter.com/jack"));
    assert!(is_twitter_url("https://www.twitter.com/jack"));
    assert!(is_twitter_url("https://mobile.twitter.com/jack"));
    assert!(is_twitter_url("https://www.x.com/jack"));
    assert!(is_twitter_url("https://mobile.x.com/jack"));
    assert!(!is_twitter_url("https://example.com/page"));
    assert!(!is_twitter_url("https://notx.com/page"));
}

#[test]
fn browser_decision_ignores_ascii_case() {
    let page = "<p>".to_string() + &"some words here ".repeat(20) + "</p>";
    let upper = page.to_ascii_uppercase();
    for min in [10, 100, 1000] {
        assert_eq!(should_use_js(&page, min), should_use_js(&upper, min));
    }
    let spa = "<div id=\"root\"></div><script>x</script>".to_string() + &"text ".repeat(100);
    assert_eq!(should_use_js(&spa, 10), should_use_js(&spa.to_ascii_uppercase(), 10));
}

#[test]
fn thin_page_threshold_counts_tokens() {
    assert!(should_use_js("<p>hello worlds!</p>", 6));
    assert!(!should_use_js("<p>hello worlds!</p>", 5));
}
