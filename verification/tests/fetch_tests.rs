use html2md::browser::{render_is_thin, TitleWait, WaitStep};
use html2md::error::Error;
use html2md::http::{check_status, user_agent_header, RequestFailure, USER_AGENT};

fn failure(url: Option<&str>, timeout: bool, redirect: bool, status: Option<u16>) -> RequestFailure {
    RequestFailure {
        url: url.map(|s| s.to_string()),
        is_timeout: timeout,
        is_redirect: redirect,
        status,
        reason: status.map(|_| "Not Found".to_string()),
        message: "connection refused".to_string(),
    }
}

#[test]
fn success_statuses_pass() {
    assert!(check_status(200, Some("OK".to_string()), "https://a.com".to_string()).is_ok());
    assert!(check_status(299, None, "https://a.com".to_string()).is_ok());
}

#[test]
fn failed_status_names_url_and_reason() {
    match check_status(404, Some("Not Found".to_string()), "https://a.com/x".to_string()) {
        Err(Error::HttpStatus { status, url, reason }) => {
            assert_eq!(status, 404);
            assert_eq!(url, "https://a.com/x");
            assert_eq!(reason, "Not Found");
        }
        _ => panic!("expected a status error"),
    }
}

#[test]
fn failed_status_without_reason_is_unknown() {
    match check_status(599, None, "https://a.com".to_string()) {
        Err(Error::HttpStatus { reason, .. }) => assert_eq!(reason, "Unknown"),
        _ => panic!("expected a status error"),
    }
    assert!(check_status(199, None, "https://a.com".to_string()).is_err());
    assert!(check_status(300, None, "https://a.com".to_string()).is_err());
}

#[test]
fn timeout_failure() {
    match Error::from_request_failure(failure(Some("https://a.com"), true, true, Some(404))) {
        Error::TcpTimeout(secs, url) => {
            assert_eq!(secs, 10);
            assert_eq!(url, "https://a.com");
        }
        _ => panic!("expected a timeout"),
    }
}

#[test]
fn redirect_failure() {
    match Error::from_request_failure(failure(None, false, true, Some(404))) {
        Error::TooManyRedirects(url) => assert_eq!(url, "unknown"),
        _ => panic!("expected too many redirects"),
    }
}

#[test]
fn status_failure() {
    match Error::from_request_failure(failure(Some("https://a.com"), false, false, Some(404))) {
        Error::HttpStatus { status, url, reason } => {
            assert_eq!(status, 404);
            assert_eq!(url, "https://a.com");
            assert_eq!(reason, "Not Found");
        }
        _ => panic!("expected a status error"),
    }
}

#[test]
fn plain_fetch_failure() {
    match Error::from_request_failure(failure(Some("https://a.com"), false, false, None)) {
        Error::FetchFailure(url, message) => {
            assert_eq!(url, "https://a.com");
            assert_eq!(message, "connection refused");
        }
        _ => panic!("expected a fetch failure"),
    }
}

#[test]
fn thin_renders() {
    assert!(render_is_thin(""));
    assert!(render_is_thin("   "));
    assert!(render_is_thin("<p>short</p>"));
    let empty_doc = format!("<html><head></head><body></body></html>{}", " ".repeat(600));
    assert!(render_is_thin(&empty_doc));
    let no_content = format!("<div>{}</div>", "x".repeat(600));
    assert!(render_is_thin(&no_content));
}

#[test]
fn full_render_is_not_thin() {
    let page = format!("<html><body><article>{}</article></body></html>", "word ".repeat(120));
    assert!(!render_is_thin(&page));
    let tweet = format!("<div data-tweet-id=\"1\">{}</div>", "y".repeat(600));
    assert!(!render_is_thin(&tweet));
}

#[test]
fn title_wait_polls_half_the_timeout() {
    let mut wait = TitleWait::new(7);
    let mut polls = 0;
    loop {
        match wait.step() {
            WaitStep::Poll => polls += 1,
            WaitStep::Stop => break,
        }
    }
    assert_eq!(polls, 3);
    assert_eq!(wait.polls(), 3);
}

#[test]
fn title_wait_with_short_timeout_never_polls() {
    let mut wait = TitleWait::new(1);
    assert!(matches!(wait.step(), WaitStep::Stop));
    assert_eq!(wait.polls(), 0);
}

#[test]
fn user_agent_header_keeps_valid_agents() {
    assert_eq!(user_agent_header("CustomAgent/1.0"), "CustomAgent/1.0");
    assert_eq!(user_agent_header("Agent\twith tab"), "Agent\twith tab");
    assert_eq!(user_agent_header("Agent é"), "Agent é");
    assert_eq!(user_agent_header("bad\nagent"), USER_AGENT);
    assert_eq!(user_agent_header("del\u{7f}"), USER_AGENT);
}

#[test]
fn rendered_page_wins_over_fetched_page() {
    use_page_choice();
}

fn fetched() -> html2md::http::FetchResult {
    html2md::http::FetchResult {
        url: "https://a.com/final".to_string(),
        body: "<p>http</p>".to_string(),
        content_type: None,
        status: 200,
        elapsed: std::time::Duration::from_millis(5),
    }
}

fn use_page_choice() {
    let rendered = html2md::browser::RenderResult {
        url: "https://a.com/rendered".to_string(),
        html: "<p>browser</p>".to_string(),
        elapsed: std::time::Duration::from_millis(9),
    };
    let (u, h) = html2md::pipeline::page_to_convert(Some(rendered), fetched());
    assert_eq!(u, "https://a.com/rendered");
    assert_eq!(h, "<p>browser</p>");
    let (u, h) = html2md::pipeline::page_to_convert(None, fetched());
    assert_eq!(u, "https://a.com/final");
    assert_eq!(h, "<p>http</p>");
}
