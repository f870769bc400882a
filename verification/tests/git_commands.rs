use te::branch::BranchEntry;
use te::git_ops::{
    add_to_gitignore, checkout_command, commit_message_text, commit_parents, git_args,
    has_staged_changes, is_dirty, list_branches, list_commit_files, list_history, list_reflog,
    list_stashes, merge_head_exists, rebase_dir, rebase_in_progress, skips_run, stage_paths,
    GitCommand, GitOutput,
};

fn ok(stdout: &str) -> GitOutput {
    GitOutput { code: Some(0), stdout: stdout.to_string(), stderr: String::new() }
}

fn failed(code: i32, stderr: &str) -> GitOutput {
    GitOutput { code: Some(code), stdout: String::new(), stderr: stderr.to_string() }
}

#[test]
fn history_lines_are_read_by_tabs() {
    let out = ok("abc123\tabc\t2024-01-02\tAnn\tFix it\t (HEAD -> main)\n\t\t\t\t\t\nxyz\tx\td\tBob\tSubject\twith\ttabs\n");
    let v = list_history(&out).unwrap();
    assert_eq!(v.len(), 2);
    assert_eq!(v[0].hash, "abc123");
    assert_eq!(v[0].short, "abc");
    assert_eq!(v[0].author, "Ann");
    assert_eq!(v[0].decoration, "(HEAD -> main)");
    assert_eq!(v[1].subject, "Subject");
    assert_eq!(v[1].decoration, "with\ttabs");
}

#[test]
fn listing_failure_gives_stderr() {
    assert_eq!(list_history(&failed(128, " fatal: bad \n")).unwrap_err(), "fatal: bad");
    assert_eq!(list_reflog(&failed(1, "no")).unwrap_err(), "no");
}

#[test]
fn reflog_and_stash_entries() {
    let r = list_reflog(&ok("h1\tHEAD@{0}\tcommit: x\t\n")).unwrap();
    assert_eq!(r[0].selector, "HEAD@{0}");
    assert_eq!(r[0].subject, "commit: x");
    assert_eq!(r[0].decoration, "");
    let s = list_stashes(&ok("stash@{0}\tWIP on main\n\tno selector\n")).unwrap();
    assert_eq!(s.len(), 1);
    assert_eq!(s[0].subject, "WIP on main");
}

#[test]
fn staged_changes_by_exit_code() {
    assert_eq!(has_staged_changes(&failed(0, "")), Ok(false));
    assert_eq!(has_staged_changes(&failed(1, "")), Ok(true));
    assert_eq!(has_staged_changes(&failed(2, " oops ")), Err("oops".to_string()));
}

#[test]
fn simple_status_results() {
    assert_eq!(stage_paths(&ok("")), Ok(()));
    assert_eq!(stage_paths(&failed(1, "denied\n")), Err("denied".to_string()));
    assert_eq!(is_dirty(&ok(" M a\n")), Ok(true));
    assert_eq!(is_dirty(&ok("")), Ok(false));
    assert_eq!(merge_head_exists(&failed(1, "")), Ok(false));
    assert_eq!(merge_head_exists(&ok("abc")), Ok(true));
}

#[test]
fn rebase_state() {
    assert_eq!(rebase_dir(&ok(" .git/rebase-merge \n")).as_deref(), Some(".git/rebase-merge"));
    assert_eq!(rebase_dir(&ok("  ")), None);
    assert_eq!(rebase_in_progress(&ok(".git/rebase-merge"), true, &ok(""), false), Ok(true));
    assert_eq!(rebase_in_progress(&ok(".git/rebase-merge"), false, &ok(".git/rebase-apply"), true), Ok(true));
    assert_eq!(rebase_in_progress(&ok(".git/rebase-merge"), false, &failed(1, ""), true), Ok(false));
}

#[test]
fn commit_message_is_trimmed_and_not_blank() {
    assert_eq!(commit_message_text("  hello \n"), Ok("hello".to_string()));
    assert_eq!(commit_message_text(" \n "), Err("Empty commit message".to_string()));
}

#[test]
fn parents_follow_the_commit() {
    assert_eq!(commit_parents(&ok("c p1 p2\nextra\n")).unwrap(), vec!["p1", "p2"]);
    assert!(commit_parents(&ok("c\n")).unwrap().is_empty());
}

#[test]
fn changed_files_with_counts() {
    let ns = ok("M\tsrc/a.rs\nR100\told.rs\tnew.rs\nA\t\n\nD\tgone.rs\n");
    let stat = ok("3\t1\tsrc/a.rs\n-\t-\tbin.dat\n5\t0\tnew.rs\n");
    let files = list_commit_files(&ns, Some(&stat)).unwrap();
    assert_eq!(files.len(), 3);
    assert_eq!(files[0].path, "src/a.rs");
    assert_eq!(files[0].additions, Some(3));
    assert_eq!(files[0].deletions, Some(1));
    assert_eq!(files[1].status, "R100");
    assert_eq!(files[1].old_path.as_deref(), Some("old.rs"));
    assert_eq!(files[1].additions, Some(5));
    assert_eq!(files[2].path, "gone.rs");
    assert_eq!(files[2].additions, None);
    let no_stats = list_commit_files(&ns, Some(&failed(1, ""))).unwrap();
    assert_eq!(no_stats[0].additions, None);
    assert_eq!(list_commit_files(&failed(2, "bad"), None).unwrap_err(), "bad");
}

#[test]
fn branches_local_then_remote() {
    let local = ok("*\tmain\torigin/main\t[ahead 1]\n \tdev\t\t\n");
    let remote = ok(" \torigin/HEAD\t\t\n \torigin/main\t\t\n");
    let v = list_branches(&local, &remote).unwrap();
    assert_eq!(v.len(), 3);
    assert!(v[0].is_current);
    assert_eq!(v[0].upstream.as_deref(), Some("origin/main"));
    assert_eq!(v[0].track.as_deref(), Some("[ahead 1]"));
    assert!(!v[1].is_current);
    assert_eq!(v[1].upstream, None);
    assert!(v[2].is_remote);
    assert_eq!(v[2].name, "origin/main");
    assert_eq!(list_branches(&ok(""), &failed(1, "no remote")).unwrap_err(), "no remote");
}

#[test]
fn checkout_of_a_remote_branch_tracks_it() {
    let remote = BranchEntry {
        name: "origin/feature/x".to_string(),
        is_current: false,
        is_remote: true,
        upstream: None,
        track: None,
    };
    let args = git_args(&checkout_command(&remote));
    assert_eq!(args, vec!["checkout", "--track", "-b", "feature/x", "origin/feature/x"]);
    let local = BranchEntry { is_remote: false, name: "dev".to_string(), ..remote };
    assert_eq!(git_args(&checkout_command(&local)), vec!["checkout", "dev"]);
}

#[test]
fn command_arguments() {
    assert_eq!(
        git_args(&GitCommand::DiffPath { path: "a b".to_string(), staged: true }),
        vec!["diff", "--cached", "--", "a b"]
    );
    assert_eq!(
        git_args(&GitCommand::ListHistory { max: 200, history_ref: Some("  ".to_string()) }),
        vec![
            "log",
            "--no-color",
            "--decorate=short",
            "--date=short",
            "--max-count",
            "200",
            "--pretty=format:%H\t%h\t%ad\t%an\t%s\t%d"
        ]
    );
    assert_eq!(
        git_args(&GitCommand::StagePaths { paths: vec!["x".to_string(), "y".to_string()] }),
        vec!["add", "--", "x", "y"]
    );
    assert!(skips_run(&GitCommand::StagePaths { paths: vec![] }));
    assert!(!skips_run(&GitCommand::Push));
}

#[test]
fn gitignore_gets_new_patterns_once() {
    let (text, n) = add_to_gitignore(
        "target\nnode_modules  ",
        &vec![
            " build ".to_string(),
            "target".to_string(),
            "node_modules".to_string(),
            ".gitignore".to_string(),
            "build".to_string(),
            "".to_string(),
            "*.log".to_string(),
        ],
    );
    assert_eq!(n, 2);
    assert_eq!(text.unwrap(), "target\nnode_modules  \nbuild\n*.log\n");
    let (none, zero) = add_to_gitignore("a\n", &vec!["a".to_string()]);
    assert_eq!(zero, 0);
    assert!(none.is_none());
    let (fresh, one) = add_to_gitignore("", &vec!["x".to_string()]);
    assert_eq!(one, 1);
    assert_eq!(fresh.unwrap(), "x\n");
}
