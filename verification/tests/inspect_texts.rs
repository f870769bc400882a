use te::git_ops::{CommitEntry, ReflogEntry, StashEntry};
use te::inspect::{command_inspect, commit_inspect, reflog_inspect, stash_inspect};
use te::log_view::LogUi;

fn commit(decoration: &str) -> CommitEntry {
    CommitEntry {
        hash: "abcdef".to_string(),
        short: "abc".to_string(),
        date: "2024-05-01".to_string(),
        author: "Ann".to_string(),
        subject: "Fix it".to_string(),
        decoration: decoration.to_string(),
    }
}

#[test]
fn commit_text_from_git_or_summary() {
    let (title, body) = commit_inspect(&commit(""), Some(Ok("header".to_string())));
    assert_eq!(title, "Inspect abc");
    assert_eq!(body, "header");
    let (_, body) = commit_inspect(&commit("(HEAD -> main, tag: v1)"), None);
    assert_eq!(
        body,
        "SHA: abcdef\nRefs: [HEAD] [main] [tag:v1]\nDate: 2024-05-01\nAuthor: Ann\n\nSubject:\nFix it\n"
    );
    let (_, body) = commit_inspect(&commit(""), Some(Err("bad".to_string())));
    assert_eq!(
        body,
        "git show failed: bad\n\nSHA: abcdef\nDate: 2024-05-01\nAuthor: Ann\n\nSubject:\nFix it\n"
    );
}

#[test]
fn at_most_eight_badges() {
    let deco = "(a, b, c, d, e, f, g, h, i, j)";
    let (_, body) = commit_inspect(&commit(deco), None);
    assert!(body.contains("Refs: [a] [b] [c] [d] [e] [f] [g] [h]\n"));
    assert!(!body.contains("[i]"));
}

#[test]
fn reflog_stash_and_command_texts() {
    let r = ReflogEntry {
        hash: "h".to_string(),
        selector: "HEAD@{1}".to_string(),
        subject: "checkout".to_string(),
        decoration: "(main)".to_string(),
    };
    let (title, body) = reflog_inspect(&r, None);
    assert_eq!(title, "Inspect HEAD@{1}");
    assert_eq!(body, "SHA: h\nSelector: HEAD@{1}\nRefs: [main]\n\nSubject:\ncheckout\n");
    let (_, body) = reflog_inspect(&r, Some(Err("x".to_string())));
    assert_eq!(body, "git show failed: x\n\nSHA: h\nSelector: HEAD@{1}\n\nSubject:\ncheckout\n");
    let s = StashEntry { selector: "stash@{0}".to_string(), subject: "WIP".to_string() };
    let (title, body) = stash_inspect(&s);
    assert_eq!(title, "Inspect stash@{0}");
    assert_eq!(body, "Selector: stash@{0}\n\nMessage:\nWIP\n\nKeys: a/apply  p/pop  d/drop\n");
    let (title, body) = command_inspect("git push", Some("done"));
    assert_eq!(title, "Inspect Command");
    assert_eq!(body, "Command:\ngit push\n\nOutput:\ndone\n");
    assert_eq!(command_inspect("x", None).1, "Command:\nx\n\nOutput:\n(no output)\n");
    assert_eq!(command_inspect("x", Some("ok\n")).1, "Command:\nx\n\nOutput:\nok\n");
}

#[test]
fn inspect_opens_at_the_top() {
    let mut ui = LogUi::new();
    ui.inspect.scroll_y = 9;
    ui.open_inspect("T".to_string(), "B".to_string());
    assert!(ui.inspect.open);
    assert_eq!(ui.inspect.scroll_y, 0);
    assert_eq!(ui.inspect.title, "T");
    ui.inspect.close();
    assert!(!ui.inspect.open);
    assert_eq!(ui.inspect.body, "");
}
