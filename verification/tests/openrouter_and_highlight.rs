use te::highlight::is_supported_extension;
use te::openrouter::{commit_prompt, http_error, reply_message, request_headers, OpenRouterConfig};

#[test]
fn configuration_needs_a_key() {
    let err = OpenRouterConfig::from_values(None, None, None, None).unwrap_err();
    assert_eq!(err, "Missing OPENROUTER_API_KEY");
    let cfg = OpenRouterConfig::from_values(Some("k".to_string()), None, None, None).unwrap();
    assert_eq!(cfg.model, "openai/gpt-5.2");
    let cfg = OpenRouterConfig::from_values(
        Some("k".to_string()),
        Some("m".to_string()),
        Some("r".to_string()),
        None,
    )
    .unwrap();
    assert_eq!(cfg.model, "m");
    assert_eq!(cfg.referer.as_deref(), Some("r"));
}

#[test]
fn request_headers_follow_the_configuration() {
    let cfg = OpenRouterConfig {
        api_key: "sk".to_string(),
        model: "m".to_string(),
        referer: None,
        title: Some("te".to_string()),
    };
    let h = request_headers(&cfg);
    assert_eq!(
        h,
        vec![
            ("Authorization".to_string(), "Bearer sk".to_string()),
            ("Content-Type".to_string(), "application/json".to_string()),
            ("X-Title".to_string(), "te".to_string()),
        ]
    );
}

#[test]
fn prompt_holds_the_diff() {
    let (system, user) = commit_prompt("+x");
    assert!(system.starts_with("You write git commit messages. "));
    assert!(system.ends_with("Use imperative mood."));
    assert_eq!(user, "Write a commit message for this staged diff:\n\n+x");
}

#[test]
fn replies_are_cleaned() {
    assert_eq!(
        reply_message(Some("```text\nFix parser   \n\nExplain it\n```\n".to_string())),
        "Fix parser\n\nExplain it"
    );
    assert_eq!(reply_message(None), "");
    assert_eq!(http_error(429, "slow down"), "OpenRouter HTTP 429: slow down");
}

#[test]
fn supported_extensions() {
    assert!(is_supported_extension("rs"));
    assert!(is_supported_extension("py"));
    assert!(!is_supported_extension("RS"));
    assert!(!is_supported_extension("xyz"));
}
