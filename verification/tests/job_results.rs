use te::commit::CommitState;
use te::git_ops::{CommitEntry, CommitFileChange, StashEntry};
use te::jobs::{operation_status, wants_popup};
use te::log_view::{
    command_detail_lines, commit_diff_lines, file_to_show, stash_detail_lines, LogDetailMode,
    LogDiffOutput, LogUi,
};

fn file(path: &str) -> CommitFileChange {
    CommitFileChange {
        status: "M".to_string(),
        path: path.to_string(),
        old_path: None,
        additions: None,
        deletions: None,
    }
}

fn commit(short: &str) -> CommitEntry {
    CommitEntry {
        hash: short.to_string(),
        short: short.to_string(),
        date: "d".to_string(),
        author: "a".to_string(),
        subject: "s".to_string(),
        decoration: String::new(),
    }
}

#[test]
fn status_after_background_commands() {
    assert_eq!(operation_status("git add -- a"), "Staged");
    assert_eq!(operation_status("git restore --staged -- a"), "Unstaged");
    assert_eq!(operation_status("git restore --staged --worktree -- a"), "Discarded");
    assert_eq!(operation_status("git restore -- a"), "Discarded");
    assert_eq!(operation_status("git clean -f -- a"), "Deleted");
    assert_eq!(operation_status("git stash pop"), "Done");
    assert!(wants_popup("git push", false));
    assert!(!wants_popup("git push", true));
    assert!(!wants_popup("git add -- a", false));
}

#[test]
fn commit_editor_after_jobs() {
    let mut c = CommitState::new();
    c.open = true;
    c.message = "msg".to_string();
    c.cursor = 3;
    c.finish_commit();
    assert!(!c.open);
    assert_eq!(c.message, "");
    assert_eq!(c.status.as_deref(), Some("Committed"));
    c.busy = true;
    c.apply_generated(Ok("Fix ü".to_string()));
    assert!(!c.busy);
    assert_eq!(c.message, "Fix ü");
    assert_eq!(c.cursor, 5);
    c.apply_generated(Err("no key".to_string()));
    assert_eq!(c.message, "Fix ü");
    assert_eq!(c.status.as_deref(), Some("no key"));
}

#[test]
fn detail_lines() {
    assert_eq!(commit_diff_lines("  \n"), vec!["(no diff)"]);
    assert_eq!(commit_diff_lines("a\nb"), vec!["a", "b"]);
    let files = vec![file("x"), file("y")];
    assert_eq!(file_to_show(&files, Some("y")), 1);
    assert_eq!(file_to_show(&files, Some("z")), 0);
    assert_eq!(file_to_show(&files, None), 0);
    let s = StashEntry { selector: "stash@{0}".to_string(), subject: "WIP".to_string() };
    assert_eq!(
        stash_detail_lines(&s),
        vec!["stash@{0}", "", "WIP", "", "Keys: a/apply  p/pop  d/drop  Enter=apply"]
    );
    assert_eq!(
        command_detail_lines("git push", false, Some("rejected\nhint")),
        vec!["Command: git push", "Result: Error", "", "rejected", "hint"]
    );
    assert_eq!(
        command_detail_lines("git fetch", true, Some("  ")),
        vec!["Command: git fetch", "Result: OK", "", "(no output)"]
    );
}

#[test]
fn detail_results_follow_the_latest_request() {
    let mut ui = LogUi::new();
    let first = ui.begin_detail();
    assert_eq!(ui.diff_lines, vec!["Loading diff…"]);
    let second = ui.begin_detail();
    assert_eq!(second, first + 1);
    let stale = LogDiffOutput {
        diff_lines: vec!["old".to_string()],
        files_hash: None,
        files: None,
        files_selected: None,
    };
    assert!(!ui.apply_detail(first, Ok(stale)));
    assert_eq!(ui.diff_lines, vec!["Loading diff…"]);
    let fresh = LogDiffOutput {
        diff_lines: vec!["new".to_string()],
        files_hash: Some("abc".to_string()),
        files: Some(vec![file("x"), file("y")]),
        files_selected: None,
    };
    assert!(ui.apply_detail(second, Ok(fresh)));
    assert_eq!(ui.diff_lines, vec!["new"]);
    assert_eq!(ui.files_selected, Some(0));
    ui.set_detail_mode(LogDetailMode::Files);
    ui.files_selected = Some(1);
    assert_eq!(ui.wanted_file("abc").as_deref(), Some("y"));
    assert_eq!(ui.wanted_file("other"), None);
    assert!(ui.apply_detail(second, Err("git show failed: x".to_string())));
    assert_eq!(ui.diff_lines, vec!["git show failed: x"]);
}

#[test]
fn reloads_keep_the_first_failure() {
    let mut ui = LogUi::new();
    ui.apply_reload(
        10,
        20,
        30,
        Ok(vec![commit("a"), commit("b")]),
        Err("reflog failed".to_string()),
        Err("stash failed".to_string()),
    );
    assert_eq!(ui.history_limit, 10);
    assert_eq!(ui.stash_limit, 30);
    assert_eq!(ui.history.len(), 2);
    assert_eq!(ui.history_filtered, vec![0, 1]);
    assert!(ui.reflog.is_empty());
    assert_eq!(ui.status.as_deref(), Some("reflog failed"));
    ui.apply_history(5, Err("bad".to_string()));
    assert_eq!(ui.history.len(), 2);
    assert_eq!(ui.status.as_deref(), Some("bad"));
    ui.apply_history(5, Ok(vec![commit("c")]));
    assert_eq!(ui.status, None);
    assert_eq!(ui.history_filtered, vec![0]);
}
