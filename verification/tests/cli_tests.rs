use html2md::cli::Args;
use html2md::http::USER_AGENT;

fn args_for(url: &str, user_agent: Option<&str>) -> Args {
    Args {
        url: url.to_string(),
        timeout: 60,
        no_js: false,
        user_agent: user_agent.map(|s| s.to_string()),
        output: None,
        verbose: false,
        min_content_tokens: 500,
        js_wait_ms: 3000,
    }
}

#[test]
fn test_default_user_agent() {
    let args = args_for("https://example.com", None);
    assert_eq!(args.user_agent(), USER_AGENT);
}

#[test]
fn test_custom_user_agent() {
    let args = args_for("https://example.com", Some("CustomAgent/1.0"));
    assert_eq!(args.user_agent(), "CustomAgent/1.0");
}

#[test]
fn timeout_duration_is_whole_seconds() {
    let args = args_for("https://example.com", None);
    assert_eq!(args.timeout_duration(), std::time::Duration::from_secs(60));
}

#[test]
fn default_user_agent_is_desktop_chrome() {
    assert!(USER_AGENT.contains("Chrome/134.0.0.0"));
    assert_eq!(html2md::cli::CHROME_VERSION, "Chrome/134.0.0.0");
    assert_eq!(html2md::cli::PLATFORM, "\"Windows\"");
    assert_eq!(html2md::cli::IS_MOBILE, "?0");
}
