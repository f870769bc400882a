//! What the interface says when a background git command finishes.
use vstd::prelude::*;
use crate::text::has_prefix;

verus! {

/// The status shown after a background git command succeeded, by what the
/// command was.
pub open spec fn done_message(cmd: Seq<char>) -> Seq<char> {
    if has_prefix(cmd, "git add"@) {
        "Staged"@
    } else if has_prefix(cmd, "git restore --staged -- "@) {
        "Unstaged"@
    } else if has_prefix(cmd, "git restore --staged --worktree"@) {
        "Discarded"@
    } else if has_prefix(cmd, "git restore -- "@) {
        "Discarded"@
    } else if has_prefix(cmd, "git clean"@) {
        "Deleted"@
    } else {
        "Done"@
    }
}

/// The status after the background git command `cmd` succeeded (see
/// `done_message`).
pub fn operation_status(cmd: &str) -> (r: String)
    ensures
        r@ == done_message(cmd@),
{
    if crate::text::str_starts_with(cmd, "git add") {
        "Staged".to_owned()
    } else if crate::text::str_starts_with(cmd, "git restore --staged -- ") {
        "Unstaged".to_owned()
    } else if crate::text::str_starts_with(cmd, "git restore --staged --worktree") {
        "Discarded".to_owned()
    } else if crate::text::str_starts_with(cmd, "git restore -- ") {
        "Discarded".to_owned()
    } else if crate::text::str_starts_with(cmd, "git clean") {
        "Deleted".to_owned()
    } else {
        "Done".to_owned()
    }
}

/// Whether the outcome of `cmd` is shown in a pop-up: fetching, pulling
/// and pushing are, unless the command was a commit's.
pub fn wants_popup(cmd: &str, close_commit: bool) -> (r: bool)
    ensures
        r == (!close_commit && (cmd@ == "git fetch --prune"@ || cmd@ == "git pull --rebase"@
            || cmd@ == "git push"@)),
{
    !close_commit && (crate::text::str_eq(cmd, "git fetch --prune") || crate::text::str_eq(
        cmd,
        "git pull --rebase",
    ) || crate::text::str_eq(cmd, "git push"))
}

/// The pop-up that shows how a fetch, pull or push ended.
pub struct OperationPopup {
    pub title: String,
    pub body: String,
    pub ok: bool,
    pub scroll_y: u16,
}

impl OperationPopup {
    /// A pop-up at its top.
    pub fn new(title: String, body: String, ok: bool) -> (r: OperationPopup)
        ensures
            r.title@ == title@,
            r.body@ == body@,
            r.ok == ok,
            r.scroll_y == 0,
    {
        OperationPopup { title, body, ok, scroll_y: 0 }
    }
}

/// What the interface does when a background git command `cmd` ends.
pub struct GitJobOutcome {
    /// The status line.
    pub status: String,
    /// For a commit's command: the commit editor's status.
    pub commit_status: Option<String>,
    /// Whether the commit went through (the editor closes and empties).
    pub committed: bool,
    /// The pop-up to show, if any.
    pub popup: Option<OperationPopup>,
    /// Whether the command was a self-update (the update is over).
    pub update_finished: bool,
}

/// The status line once `cmd` ended with `result`: a commit's success or
/// failure; else what the command did, or its error.
pub open spec fn job_status(cmd: Seq<char>, result: Result<(), String>, close_commit: bool) -> Seq<char> {
    match result {
        Ok(_) => if close_commit {
            "Commit succeeded"@
        } else {
            done_message(cmd)
        },
        Err(e) => if close_commit {
            "Commit failed"@
        } else {
            e@
        },
    }
}

/// What the interface does when the background git command `cmd` ends
/// with `result`: the status line (`job_status`); for a commit, the
/// editor's status ("Committed" or the error) and whether it closes;
/// for a fetch, pull or push (not a commit's), a pop-up titled by the
/// command with "Success" or the error; and whether it was a self-update.
pub fn git_job_outcome(cmd: &str, result: &Result<(), String>, close_commit: bool) -> (r: GitJobOutcome)
    ensures
        r.status@ == job_status(cmd@, *result, close_commit),
        r.committed == (close_commit && result.is_ok()),
        match r.commit_status {
            Some(s) => close_commit && s@ == match result {
                Ok(_) => "Committed"@,
                Err(e) => e@,
            },
            None => !close_commit,
        },
        match r.popup {
            Some(p) => {
                &&& !close_commit
                &&& (cmd@ == "git fetch --prune"@ || cmd@ == "git pull --rebase"@ || cmd@ == "git push"@)
                &&& p.title@ == cmd@
                &&& p.ok == result.is_ok()
                &&& p.body@ == match result {
                    Ok(_) => "Success"@,
                    Err(e) => e@,
                }
                &&& p.scroll_y == 0
            },
            None => close_commit || !(cmd@ == "git fetch --prune"@ || cmd@ == "git pull --rebase"@
                || cmd@ == "git push"@),
        },
        r.update_finished == has_prefix(cmd@, "update lzgit "@),
{
    let update_finished = crate::text::str_starts_with(cmd, "update lzgit ");
    let popup = if wants_popup(cmd, close_commit) {
        let (ok, body) = match result {
            Ok(_) => (true, "Success".to_owned()),
            Err(e) => (false, e.clone()),
        };
        let mut title = String::new();
        crate::text::push_str(&mut title, cmd);
        Some(OperationPopup::new(title, body, ok))
    } else {
        None
    };
    let (status, commit_status) = match result {
        Ok(_) => {
            if close_commit {
                ("Commit succeeded".to_owned(), Some("Committed".to_owned()))
            } else {
                (operation_status(cmd), None)
            }
        },
        Err(e) => {
            if close_commit {
                ("Commit failed".to_owned(), Some(e.clone()))
            } else {
                (e.clone(), None)
            }
        },
    };
    GitJobOutcome {
        status,
        commit_status,
        committed: close_commit && result.is_ok(),
        popup,
        update_finished,
    }
}

} // verus!
