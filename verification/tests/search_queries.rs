use te::search::{git_decoration_tokens, parse_log_filter_query, split_query_tokens, token_score};
use te::version::is_newer_version;

#[test]
fn query_splits_at_white_space_outside_quotes() {
    assert_eq!(split_query_tokens("a \"b c\" d"), vec!["a", "\"b c\"", "d"]);
    assert_eq!(split_query_tokens("  x\t y  "), vec!["x", "y"]);
    assert_eq!(split_query_tokens("it's here'"), vec!["it's here'"]);
    assert!(split_query_tokens("   ").is_empty());
}

#[test]
fn filter_reads_authors_refs_and_tokens() {
    let q = parse_log_filter_query("@bob author:\"Ann Lee\" ref:main tag:v1 fix a:");
    assert_eq!(q.author, vec!["bob", "Ann Lee"]);
    assert_eq!(q.refs, vec!["main", "v1"]);
    assert_eq!(q.tokens, vec!["fix"]);
}

#[test]
fn filter_unquotes_single_quotes_and_skips_empty_filters() {
    let q = parse_log_filter_query("a:'x y' @ ref:\"\" plain");
    assert_eq!(q.author, vec!["x y"]);
    assert!(q.refs.is_empty());
    assert_eq!(q.tokens, vec!["plain"]);
}

#[test]
fn token_found_whole_scores_by_length() {
    assert_eq!(token_score("hello world", "wor"), Some(215));
    assert_eq!(token_score("abc", "  "), Some(0));
}

#[test]
fn fuzzy_token_scores_and_gaps() {
    assert_eq!(token_score("abcdef", "ace"), Some(58));
    assert_eq!(token_score("abcdefgh", "aceg"), Some(67));
    assert_eq!(token_score("abc", "xyz"), None);
}

#[test]
fn long_token_with_large_gaps_does_not_match() {
    let gap = "x".repeat(40);
    let hay = format!("a{g}b{g}c{g}d", g = gap);
    assert_eq!(token_score(&hay, "abcd"), None);
}

#[test]
fn decoration_lists_refs() {
    assert_eq!(
        git_decoration_tokens("(HEAD -> main, origin/main, tag: v1.0)"),
        vec!["HEAD", "main", "origin/main", "tag:v1.0"]
    );
    assert_eq!(git_decoration_tokens(" HEAD -> , x "), vec!["HEAD ->", "x"]);
    assert!(git_decoration_tokens("   ").is_empty());
    assert_eq!(git_decoration_tokens("()"), Vec::<String>::new());
}

#[test]
fn newer_versions_compare_by_number() {
    assert!(is_newer_version("0.4.1", "0.3.7"));
    assert!(!is_newer_version("0.3.7", "0.4.1"));
    assert!(!is_newer_version("1.0", "1.0.0"));
    assert!(is_newer_version("1.0.1", "1.0"));
    assert!(is_newer_version("1.10.0", "1.9.9"));
    assert!(!is_newer_version("v2", "1"));
    assert!(!is_newer_version("2.0.0", "2.0.0"));
}
