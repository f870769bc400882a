//! Git commands: the arguments each operation hands to `git`, and what the
//! operation makes of the finished process (its exit code and output).
//!
//! Running the process is left to the caller; every function here is a
//! function of plain values.
use vstd::prelude::*;
use crate::branch::{opt_text, BranchEntry, BranchV};
use crate::text::{
    chars_of, decimal, decimal_string, ends_with, has_prefix, has_suffix, keep_some,
    lemma_keep_some_step, lines_of, lines_vec, piece, split_char, split_chars, splitn_char, string_of,
    strs, trim, trim_chars, trim_string, words, words_of,
};

verus! {

broadcast use vstd::string::group_string_axioms;

// ---------------------------------------------------------------------------
// Processes
// ---------------------------------------------------------------------------

/// What a finished `git` process reported: its exit code (none when it was
/// ended by a signal) and its standard output and error, decoded as text.
pub struct GitOutput {
    pub code: Option<i32>,
    pub stdout: String,
    pub stderr: String,
}

impl GitOutput {
    pub open spec fn succeeded(&self) -> bool {
        self.code == Some(0i32)
    }

    pub fn success(&self) -> (r: bool)
        ensures
            r == self.succeeded(),
    {
        match self.code {
            Some(c) => c == 0,
            None => false,
        }
    }
}

/// The message a failed command reports: its error output, trimmed.
pub open spec fn failure_text(out: GitOutput) -> Seq<char> {
    trim(out.stderr@)
}

/// `Ok(())` exactly when the command succeeded, else its failure text.
pub open spec fn status_result(out: GitOutput, r: Result<(), String>) -> bool {
    match r {
        Ok(_) => out.succeeded(),
        Err(e) => !out.succeeded() && e@ == failure_text(out),
    }
}

/// The command's output when it succeeded, else its failure text.
pub open spec fn text_result(out: GitOutput, r: Result<String, String>) -> bool {
    match r {
        Ok(t) => out.succeeded() && t@ == out.stdout@,
        Err(e) => !out.succeeded() && e@ == failure_text(out),
    }
}

fn failure(out: &GitOutput) -> (r: String)
    ensures
        r@ == failure_text(*out),
{
    trim_string(out.stderr.as_str())
}

fn finish(out: &GitOutput) -> (r: Result<(), String>)
    ensures
        status_result(*out, r),
{
    if out.success() {
        Ok(())
    } else {
        Err(failure(out))
    }
}

fn output_text(out: &GitOutput) -> (r: Result<String, String>)
    ensures
        text_result(*out, r),
{
    if out.success() {
        Ok(out.stdout.clone())
    } else {
        Err(failure(out))
    }
}

// ---------------------------------------------------------------------------
// Commands
// ---------------------------------------------------------------------------

/// The git invocations the application makes.
pub enum GitCommand {
    HasStagedChanges,
    StagedDiff,
    DiffPath { path: String, staged: bool },
    ListHistory { max: usize, history_ref: Option<String> },
    ListReflog { max: usize },
    ListStashes { max: usize },
    StashApply { selector: String },
    StashPop { selector: String },
    StashDrop { selector: String },
    ShowCommit { hash: String },
    ShowCommitHeader { hash: String },
    CommitParents { hash: String },
    CommitNameStatus { hash: String, parent: Option<String> },
    CommitNumstat { hash: String, parent: Option<String> },
    CommitFileDiff { hash: String, path: String, parent: Option<String> },
    StagePaths { paths: Vec<String> },
    UnstagePaths { paths: Vec<String> },
    DiscardWorktree { path: String },
    DiscardUntracked { path: String },
    DiscardAll { path: String },
    MergeHead,
    RebaseMergeDir,
    RebaseApplyDir,
    MergeContinue,
    MergeAbort,
    RebaseContinue,
    RebaseAbort,
    RebaseSkip,
    LocalBranches,
    RemoteBranches,
    Status,
    Checkout { branch: String },
    CheckoutTrack { local_name: String, remote: String },
    FetchPrune,
    PullRebase,
    Push,
    Commit { message_file: String },
}

/// The reference argument of a history listing: the trimmed reference, when
/// one is given and it is not blank.
pub open spec fn history_ref_arg(r: Option<String>) -> Seq<Seq<char>> {
    match r {
        Some(s) => if trim(s@).len() > 0 {
            seq![trim(s@)]
        } else {
            Seq::empty()
        },
        None => Seq::empty(),
    }
}

/// Arguments that compare a commit with its first parent, or show it alone
/// when it has none.
pub open spec fn commit_files_args(hash: String, parent: Option<String>, mode: Seq<char>) -> Seq<
    Seq<char>,
> {
    match parent {
        Some(p) => seq!["diff"@, "--no-color"@, mode, p@, hash@],
        None => seq!["show"@, "--no-color"@, "--format="@, mode, "--no-patch"@, hash@],
    }
}

pub open spec fn branch_format() -> Seq<char> {
    "%(HEAD)\t%(refname:short)\t%(upstream:short)\t%(upstream:track)"@
}

/// The arguments given to `git` for each command.
pub open spec fn command_args(cmd: GitCommand) -> Seq<Seq<char>> {
    match cmd {
        GitCommand::HasStagedChanges => seq!["diff"@, "--cached"@, "--quiet"@],
        GitCommand::StagedDiff => seq!["diff"@, "--cached"@],
        GitCommand::DiffPath { path, staged } => seq!["diff"@] + (if staged {
            seq!["--cached"@]
        } else {
            Seq::empty()
        }) + seq!["--"@, path@],
        GitCommand::ListHistory { max, history_ref } => seq![
            "log"@,
            "--no-color"@,
            "--decorate=short"@,
            "--date=short"@,
            "--max-count"@,
            decimal(max as nat),
            "--pretty=format:%H\t%h\t%ad\t%an\t%s\t%d"@,
        ] + history_ref_arg(history_ref),
        GitCommand::ListReflog { max } => seq![
            "log"@,
            "-g"@,
            "--no-color"@,
            "--decorate=short"@,
            "--date=relative"@,
            "--max-count"@,
            decimal(max as nat),
            "--pretty=format:%H\t%gD\t%gs\t%d"@,
        ],
        GitCommand::ListStashes { max } => seq![
            "stash"@,
            "list"@,
            "--no-color"@,
            "--max-count"@,
            decimal(max as nat),
            "--pretty=format:%gd\t%gs"@,
        ],
        GitCommand::StashApply { selector } => seq!["stash"@, "apply"@, selector@],
        GitCommand::StashPop { selector } => seq!["stash"@, "pop"@, selector@],
        GitCommand::StashDrop { selector } => seq!["stash"@, "drop"@, selector@],
        GitCommand::ShowCommit { hash } => seq![
            "show"@,
            "--no-color"@,
            "--decorate=short"@,
            "--format=format:%s%n%n%b%n───────────────────────────────────────%n%h  %an  %ad%d"@,
            "--date=short"@,
            "--stat"@,
            "--patch"@,
            hash@,
        ],
        GitCommand::ShowCommitHeader { hash } => seq![
            "show"@,
            "--no-color"@,
            "--decorate=short"@,
            "--format=fuller"@,
            "--no-patch"@,
            hash@,
        ],
        GitCommand::CommitParents { hash } => seq!["rev-list"@, "--parents"@, "-n"@, "1"@, hash@],
        GitCommand::CommitNameStatus { hash, parent } => commit_files_args(
            hash,
            parent,
            "--name-status"@,
        ),
        GitCommand::CommitNumstat { hash, parent } => commit_files_args(
            hash,
            parent,
            "--numstat"@,
        ),
        GitCommand::CommitFileDiff { hash, path, parent } => match parent {
            Some(p) => seq!["diff"@, "--no-color"@, p@, hash@, "--"@, path@],
            None => seq!["show"@, "--no-color"@, "--format="@, "--patch"@, hash@, "--"@, path@],
        },
        GitCommand::StagePaths { paths } => seq!["add"@, "--"@] + strs(paths@),
        GitCommand::UnstagePaths { paths } => seq!["restore"@, "--staged"@, "--"@] + strs(paths@),
        GitCommand::DiscardWorktree { path } => seq!["restore"@, "--"@, path@],
        GitCommand::DiscardUntracked { path } => seq!["clean"@, "-f"@, "--"@, path@],
        GitCommand::DiscardAll { path } => seq![
            "restore"@,
            "--staged"@,
            "--worktree"@,
            "--"@,
            path@,
        ],
        GitCommand::MergeHead => seq!["rev-parse"@, "-q"@, "--verify"@, "MERGE_HEAD"@],
        GitCommand::RebaseMergeDir => seq!["rev-parse"@, "--git-path"@, "rebase-merge"@],
        GitCommand::RebaseApplyDir => seq!["rev-parse"@, "--git-path"@, "rebase-apply"@],
        GitCommand::MergeContinue => seq!["merge"@, "--continue"@],
        GitCommand::MergeAbort => seq!["merge"@, "--abort"@],
        GitCommand::RebaseContinue => seq!["rebase"@, "--continue"@],
        GitCommand::RebaseAbort => seq!["rebase"@, "--abort"@],
        GitCommand::RebaseSkip => seq!["rebase"@, "--skip"@],
        GitCommand::LocalBranches => seq![
            "for-each-ref"@,
            "--sort=-committerdate"@,
            "refs/heads"@,
            "--format"@,
            branch_format(),
        ],
        GitCommand::RemoteBranches => seq![
            "for-each-ref"@,
            "--sort=-committerdate"@,
            "refs/remotes"@,
            "--format"@,
            branch_format(),
        ],
        GitCommand::Status => seq!["status"@, "--porcelain"@],
        GitCommand::Checkout { branch } => seq!["checkout"@, branch@],
        GitCommand::CheckoutTrack { local_name, remote } => seq![
            "checkout"@,
            "--track"@,
            "-b"@,
            local_name@,
            remote@,
        ],
        GitCommand::FetchPrune => seq!["fetch"@, "--prune"@],
        GitCommand::PullRebase => seq!["pull"@, "--rebase"@],
        GitCommand::Push => seq!["push"@],
        GitCommand::Commit { message_file } => seq!["commit"@, "-F"@, message_file@],
    }
}

/// Whether the command has nothing to do and is not run at all: staging or
/// unstaging an empty list of paths.
pub open spec fn is_no_op(cmd: GitCommand) -> bool {
    match cmd {
        GitCommand::StagePaths { paths } => paths.len() == 0,
        GitCommand::UnstagePaths { paths } => paths.len() == 0,
        _ => false,
    }
}

fn lit(v: &mut Vec<String>, s: &str)
    ensures
        strs(final(v)@) == strs(old(v)@).push(s@),
{
    let ghost before = v@;
    v.push(s.to_owned());
    assert(strs(v@) == strs(before).push(s@));
}

fn arg(v: &mut Vec<String>, s: &String)
    ensures
        strs(final(v)@) == strs(old(v)@).push(s@),
{
    let ghost before = v@;
    v.push(s.clone());
    assert(strs(v@) == strs(before).push(s@));
}

fn args_of(parts: &Vec<String>, v: &mut Vec<String>)
    ensures
        strs(final(v)@) == strs(old(v)@) + strs(parts@),
{
    let mut i: usize = 0;
    while i < parts.len()
        invariant
            i <= parts.len(),
            strs(v@) == strs(old(v)@) + strs(parts@).take(i as int),
        decreases parts.len() - i,
    {
        arg(v, &parts[i]);
        assert(strs(parts@).take(i + 1) == strs(parts@).take(i as int).push(parts@[i as int]@));
        i = i + 1;
    }
    assert(strs(parts@).take(parts@.len() as int) == strs(parts@));
}

fn listing_args(cmd: &GitCommand) -> (r: Vec<String>)
    requires
        cmd is ListHistory || cmd is ListReflog || cmd is ListStashes,
    ensures
        strs(r@) == command_args(*cmd),
{
    let mut v: Vec<String> = Vec::new();
    match cmd {
        GitCommand::ListHistory { max, history_ref } => {
            lit(&mut v, "log");
            lit(&mut v, "--no-color");
            lit(&mut v, "--decorate=short");
            lit(&mut v, "--date=short");
            lit(&mut v, "--max-count");
            let m = decimal_string(*max as u64);
            arg(&mut v, &m);
            lit(&mut v, "--pretty=format:%H\t%h\t%ad\t%an\t%s\t%d");
            match history_ref {
                Some(r) => {
                    let t = trim_string(r.as_str());
                    if !t.as_str().is_empty() {
                        arg(&mut v, &t);
                    }
                },
                None => {},
            }
        },
        GitCommand::ListReflog { max } => {
            lit(&mut v, "log");
            lit(&mut v, "-g");
            lit(&mut v, "--no-color");
            lit(&mut v, "--decorate=short");
            lit(&mut v, "--date=relative");
            lit(&mut v, "--max-count");
            let m = decimal_string(*max as u64);
            arg(&mut v, &m);
            lit(&mut v, "--pretty=format:%H\t%gD\t%gs\t%d");
        },
        GitCommand::ListStashes { max } => {
            lit(&mut v, "stash");
            lit(&mut v, "list");
            lit(&mut v, "--no-color");
            lit(&mut v, "--max-count");
            let m = decimal_string(*max as u64);
            arg(&mut v, &m);
            lit(&mut v, "--pretty=format:%gd\t%gs");
        },
        _ => {},
    }
    v
}

fn commit_args(cmd: &GitCommand) -> (r: Vec<String>)
    requires
        cmd is ShowCommit || cmd is ShowCommitHeader || cmd is CommitParents
            || cmd is CommitNameStatus || cmd is CommitNumstat || cmd is CommitFileDiff,
    ensures
        strs(r@) == command_args(*cmd),
{
    let mut v: Vec<String> = Vec::new();
    match cmd {
        GitCommand::ShowCommit { hash } => {
            lit(&mut v, "show");
            lit(&mut v, "--no-color");
            lit(&mut v, "--decorate=short");
            lit(
                &mut v,
                "--format=format:%s%n%n%b%n───────────────────────────────────────%n%h  %an  %ad%d",
            );
            lit(&mut v, "--date=short");
            lit(&mut v, "--stat");
            lit(&mut v, "--patch");
            arg(&mut v, hash);
        },
        GitCommand::ShowCommitHeader { hash } => {
            lit(&mut v, "show");
            lit(&mut v, "--no-color");
            lit(&mut v, "--decorate=short");
            lit(&mut v, "--format=fuller");
            lit(&mut v, "--no-patch");
            arg(&mut v, hash);
        },
        GitCommand::CommitParents { hash } => {
            lit(&mut v, "rev-list");
            lit(&mut v, "--parents");
            lit(&mut v, "-n");
            lit(&mut v, "1");
            arg(&mut v, hash);
        },
        GitCommand::CommitNameStatus { hash, parent } => {
            v = files_args(hash, parent, "--name-status");
        },
        GitCommand::CommitNumstat { hash, parent } => {
            v = files_args(hash, parent, "--numstat");
        },
        GitCommand::CommitFileDiff { hash, path, parent } => match parent {
            Some(p) => {
                lit(&mut v, "diff");
                lit(&mut v, "--no-color");
                arg(&mut v, p);
                arg(&mut v, hash);
                lit(&mut v, "--");
                arg(&mut v, path);
            },
            None => {
                lit(&mut v, "show");
                lit(&mut v, "--no-color");
                lit(&mut v, "--format=");
                lit(&mut v, "--patch");
                arg(&mut v, hash);
                lit(&mut v, "--");
                arg(&mut v, path);
            },
        },
        _ => {},
    }
    v
}

fn files_args(hash: &String, parent: &Option<String>, mode: &str) -> (r: Vec<String>)
    ensures
        strs(r@) == commit_files_args(*hash, *parent, mode@),
{
    let mut v: Vec<String> = Vec::new();
    match parent {
        Some(p) => {
            lit(&mut v, "diff");
            lit(&mut v, "--no-color");
            lit(&mut v, mode);
            arg(&mut v, p);
            arg(&mut v, hash);
        },
        None => {
            lit(&mut v, "show");
            lit(&mut v, "--no-color");
            lit(&mut v, "--format=");
            lit(&mut v, mode);
            lit(&mut v, "--no-patch");
            arg(&mut v, hash);
        },
    }
    v
}

fn path_args(cmd: &GitCommand) -> (r: Vec<String>)
    requires
        cmd is DiffPath || cmd is StagePaths || cmd is UnstagePaths || cmd is DiscardWorktree
            || cmd is DiscardUntracked || cmd is DiscardAll || cmd is StashApply || cmd is StashPop
            || cmd is StashDrop || cmd is Checkout || cmd is CheckoutTrack || cmd is Commit,
    ensures
        strs(r@) == command_args(*cmd),
{
    let mut v: Vec<String> = Vec::new();
    match cmd {
        GitCommand::DiffPath { path, staged } => {
            lit(&mut v, "diff");
            if *staged {
                lit(&mut v, "--cached");
            }
            lit(&mut v, "--");
            arg(&mut v, path);
        },
        GitCommand::StagePaths { paths } => {
            lit(&mut v, "add");
            lit(&mut v, "--");
            args_of(paths, &mut v);
        },
        GitCommand::UnstagePaths { paths } => {
            lit(&mut v, "restore");
            lit(&mut v, "--staged");
            lit(&mut v, "--");
            args_of(paths, &mut v);
        },
        GitCommand::DiscardWorktree { path } => {
            lit(&mut v, "restore");
            lit(&mut v, "--");
            arg(&mut v, path);
        },
        GitCommand::DiscardUntracked { path } => {
            lit(&mut v, "clean");
            lit(&mut v, "-f");
            lit(&mut v, "--");
            arg(&mut v, path);
        },
        GitCommand::DiscardAll { path } => {
            lit(&mut v, "restore");
            lit(&mut v, "--staged");
            lit(&mut v, "--worktree");
            lit(&mut v, "--");
            arg(&mut v, path);
        },
        GitCommand::StashApply { selector } => {
            lit(&mut v, "stash");
            lit(&mut v, "apply");
            arg(&mut v, selector);
        },
        GitCommand::StashPop { selector } => {
            lit(&mut v, "stash");
            lit(&mut v, "pop");
            arg(&mut v, selector);
        },
        GitCommand::StashDrop { selector } => {
            lit(&mut v, "stash");
            lit(&mut v, "drop");
            arg(&mut v, selector);
        },
        GitCommand::Checkout { branch } => {
            lit(&mut v, "checkout");
            arg(&mut v, branch);
        },
        GitCommand::CheckoutTrack { local_name, remote } => {
            lit(&mut v, "checkout");
            lit(&mut v, "--track");
            lit(&mut v, "-b");
            arg(&mut v, local_name);
            arg(&mut v, remote);
        },
        GitCommand::Commit { message_file } => {
            lit(&mut v, "commit");
            lit(&mut v, "-F");
            arg(&mut v, message_file);
        },
        _ => {},
    }
    v
}

fn fixed_args(cmd: &GitCommand) -> (r: Vec<String>)
    requires
        !(cmd is ListHistory || cmd is ListReflog || cmd is ListStashes || cmd is ShowCommit
            || cmd is ShowCommitHeader || cmd is CommitParents || cmd is CommitNameStatus
            || cmd is CommitNumstat || cmd is CommitFileDiff || cmd is DiffPath || cmd is StagePaths
            || cmd is UnstagePaths || cmd is DiscardWorktree || cmd is DiscardUntracked
            || cmd is DiscardAll || cmd is StashApply || cmd is StashPop || cmd is StashDrop
            || cmd is Checkout || cmd is CheckoutTrack || cmd is Commit),
    ensures
        strs(r@) == command_args(*cmd),
{
    let mut v: Vec<String> = Vec::new();
    match cmd {
        GitCommand::HasStagedChanges => {
            lit(&mut v, "diff");
            lit(&mut v, "--cached");
            lit(&mut v, "--quiet");
        },
        GitCommand::StagedDiff => {
            lit(&mut v, "diff");
            lit(&mut v, "--cached");
        },
        GitCommand::MergeHead => {
            lit(&mut v, "rev-parse");
            lit(&mut v, "-q");
            lit(&mut v, "--verify");
            lit(&mut v, "MERGE_HEAD");
        },
        GitCommand::RebaseMergeDir => {
            lit(&mut v, "rev-parse");
            lit(&mut v, "--git-path");
            lit(&mut v, "rebase-merge");
        },
        GitCommand::RebaseApplyDir => {
            lit(&mut v, "rev-parse");
            lit(&mut v, "--git-path");
            lit(&mut v, "rebase-apply");
        },
        GitCommand::MergeContinue => {
            lit(&mut v, "merge");
            lit(&mut v, "--continue");
        },
        GitCommand::MergeAbort => {
            lit(&mut v, "merge");
            lit(&mut v, "--abort");
        },
        GitCommand::RebaseContinue => {
            lit(&mut v, "rebase");
            lit(&mut v, "--continue");
        },
        GitCommand::RebaseAbort => {
            lit(&mut v, "rebase");
            lit(&mut v, "--abort");
        },
        GitCommand::RebaseSkip => {
            lit(&mut v, "rebase");
            lit(&mut v, "--skip");
        },
        GitCommand::LocalBranches => {
            lit(&mut v, "for-each-ref");
            lit(&mut v, "--sort=-committerdate");
            lit(&mut v, "refs/heads");
            lit(&mut v, "--format");
            lit(&mut v, "%(HEAD)\t%(refname:short)\t%(upstream:short)\t%(upstream:track)");
        },
        GitCommand::RemoteBranches => {
            lit(&mut v, "for-each-ref");
            lit(&mut v, "--sort=-committerdate");
            lit(&mut v, "refs/remotes");
            lit(&mut v, "--format");
            lit(&mut v, "%(HEAD)\t%(refname:short)\t%(upstream:short)\t%(upstream:track)");
        },
        GitCommand::Status => {
            lit(&mut v, "status");
            lit(&mut v, "--porcelain");
        },
        GitCommand::FetchPrune => {
            lit(&mut v, "fetch");
            lit(&mut v, "--prune");
        },
        GitCommand::PullRebase => {
            lit(&mut v, "pull");
            lit(&mut v, "--rebase");
        },
        GitCommand::Push => {
            lit(&mut v, "push");
        },
        _ => {},
    }
    v
}

/// The arguments to hand to `git` (after `-C <repository>`) for `cmd`.
pub fn git_args(cmd: &GitCommand) -> (r: Vec<String>)
    ensures
        strs(r@) == command_args(*cmd),
{
    match cmd {
        GitCommand::ListHistory { .. } | GitCommand::ListReflog { .. } | GitCommand::ListStashes {
            ..
        } => listing_args(cmd),
        GitCommand::ShowCommit { .. } | GitCommand::ShowCommitHeader { .. }
        | GitCommand::CommitParents { .. } | GitCommand::CommitNameStatus { .. }
        | GitCommand::CommitNumstat { .. } | GitCommand::CommitFileDiff { .. } => commit_args(cmd),
        GitCommand::DiffPath { .. } | GitCommand::StagePaths { .. } | GitCommand::UnstagePaths {
            ..
        } | GitCommand::DiscardWorktree { .. } | GitCommand::DiscardUntracked { .. }
        | GitCommand::DiscardAll { .. } | GitCommand::StashApply { .. } | GitCommand::StashPop {
            ..
        } | GitCommand::StashDrop { .. } | GitCommand::Checkout { .. }
        | GitCommand::CheckoutTrack { .. } | GitCommand::Commit { .. } => path_args(cmd),
        _ => fixed_args(cmd),
    }
}

/// Whether `cmd` is skipped: staging or unstaging no paths succeeds at once.
pub fn skips_run(cmd: &GitCommand) -> (r: bool)
    ensures
        r == is_no_op(*cmd),
{
    match cmd {
        GitCommand::StagePaths { paths } => paths.len() == 0,
        GitCommand::UnstagePaths { paths } => paths.len() == 0,
        _ => false,
    }
}

// ---------------------------------------------------------------------------
// Tab-separated records
// ---------------------------------------------------------------------------

/// Field `k` of a split line, trimmed; a missing field is empty.
pub open spec fn tab_field(parts: Seq<Seq<char>>, k: int) -> Seq<char> {
    trim(piece(parts, k))
}

/// The `n` fields of `line` split at its first `n - 1` tabs, or `None` when
/// the first field is blank.
pub open spec fn record_of(line: Seq<char>, n: nat) -> Option<Seq<Seq<char>>> {
    let parts = splitn_char(line, '\t', n);
    let f = Seq::new(n, |k: int| tab_field(parts, k));
    if f[0].len() == 0 {
        None
    } else {
        Some(f)
    }
}

/// The records of the lines of `text`, each of `n` fields, lines with a blank
/// first field left out.
pub open spec fn records(text: Seq<char>, n: nat) -> Seq<Seq<Seq<char>>> {
    keep_some(lines_of(text), |l: Seq<char>| record_of(l, n))
}

pub open spec fn str_rows(v: Seq<Vec<String>>) -> Seq<Seq<Seq<char>>> {
    v.map_values(|x: Vec<String>| strs(x@))
}

pub open spec fn char_rows(v: Seq<Vec<char>>) -> Seq<Seq<char>> {
    v.map_values(|x: Vec<char>| x@)
}

fn line_fields(line: &Vec<char>, n: usize) -> (r: Vec<String>)
    requires
        n >= 1,
    ensures
        strs(r@) == Seq::new(n as nat, |k: int| tab_field(splitn_char(line@, '\t', n as nat), k)),
{
    let parts = split_chars(line, '\t', n);
    let ghost ps = splitn_char(line@, '\t', n as nat);
    assert(char_rows(parts@) == ps);
    let mut r: Vec<String> = Vec::new();
    let mut k: usize = 0;
    while k < n
        invariant
            k <= n,
            char_rows(parts@) == ps,
            strs(r@) == Seq::new(k as nat, |j: int| tab_field(ps, j)),
        decreases n - k,
    {
        let f = if k < parts.len() {
            trim_chars(&parts[k])
        } else {
            Vec::new()
        };
        assert(f@ == tab_field(ps, k as int));
        let fs = string_of(&f);
        let ghost before = r@;
        r.push(fs);
        assert(strs(r@) == strs(before).push(fs@));
        k = k + 1;
        assert(strs(r@) == Seq::new(k as nat, |j: int| tab_field(ps, j)));
    }
    r
}

fn parse_records(text: &str, n: usize) -> (r: Vec<Vec<String>>)
    requires
        n >= 1,
    ensures
        str_rows(r@) == records(text@, n as nat),
{
    let lines = lines_vec(text);
    let ghost ls = lines_of(text@);
    let ghost f = |l: Seq<char>| record_of(l, n as nat);
    assert(char_rows(lines@) == ls);
    let mut r: Vec<Vec<String>> = Vec::new();
    let mut i: usize = 0;
    while i < lines.len()
        invariant
            i <= lines.len(),
            char_rows(lines@) == ls,
            f == (|l: Seq<char>| record_of(l, n as nat)),
            n >= 1,
            str_rows(r@) == keep_some(ls.take(i as int), f),
        decreases lines.len() - i,
    {
        proof {
            lemma_keep_some_step(ls, f, i as int);
        }
        let fields = line_fields(&lines[i], n);
        assert(strs(fields@).len() == fields@.len());
        assert(strs(fields@).len() == n);
        let first_empty = fields[0].as_str().is_empty();
        assert(strs(fields@)[0] == fields@[0]@);
        if !first_empty {
            let ghost before = r@;
            r.push(fields);
            assert(str_rows(r@) == str_rows(before).push(strs(fields@)));
        }
        i = i + 1;
    }
    assert(ls.take(ls.len() as int) == ls);
    r
}

// ---------------------------------------------------------------------------
// Listings
// ---------------------------------------------------------------------------

#[derive(Clone, Debug)]
pub struct CommitEntry {
    pub hash: String,
    pub short: String,
    pub date: String,
    pub author: String,
    pub subject: String,
    pub decoration: String,
}

#[derive(Clone, Debug)]
pub struct ReflogEntry {
    pub hash: String,
    pub selector: String,
    pub subject: String,
    pub decoration: String,
}

#[derive(Clone, Debug)]
pub struct StashEntry {
    pub selector: String,
    pub subject: String,
}

pub open spec fn commit_fields(e: CommitEntry) -> Seq<Seq<char>> {
    seq![e.hash@, e.short@, e.date@, e.author@, e.subject@, e.decoration@]
}

pub open spec fn reflog_fields(e: ReflogEntry) -> Seq<Seq<char>> {
    seq![e.hash@, e.selector@, e.subject@, e.decoration@]
}

pub open spec fn stash_fields(e: StashEntry) -> Seq<Seq<char>> {
    seq![e.selector@, e.subject@]
}

/// The parsed listing when the command succeeded, else its failure text.
pub open spec fn listing_result<T>(
    out: GitOutput,
    r: Result<Vec<T>, String>,
    fields: spec_fn(T) -> Seq<Seq<char>>,
    n: nat,
) -> bool {
    match r {
        Ok(v) => out.succeeded() && v@.map_values(fields) == records(out.stdout@, n),
        Err(e) => !out.succeeded() && e@ == failure_text(out),
    }
}

/// Commits from `git log` run with the arguments of `ListHistory`: hash,
/// short hash, date, author, subject and decoration of each line.
pub fn list_history(out: &GitOutput) -> (r: Result<Vec<CommitEntry>, String>)
    ensures
        listing_result(*out, r, |e: CommitEntry| commit_fields(e), 6),
{
    if !out.success() {
        return Err(failure(out));
    }
    let recs = parse_records(out.stdout.as_str(), 6);
    let ghost want = records(out.stdout@, 6);
    let mut entries: Vec<CommitEntry> = Vec::new();
    let mut k: usize = 0;
    while k < recs.len()
        invariant
            k <= recs.len(),
            str_rows(recs@) == want,
            want == records(out.stdout@, 6),
            entries@.map_values(|e: CommitEntry| commit_fields(e)) == want.take(k as int),
        decreases recs.len() - k,
    {
        let f = &recs[k];
        proof {
            lemma_records_width(out.stdout@, 6, k as int);
            assert(strs(f@) == want[k as int]);
        }
        let e = CommitEntry {
            hash: f[0].clone(),
            short: f[1].clone(),
            date: f[2].clone(),
            author: f[3].clone(),
            subject: f[4].clone(),
            decoration: f[5].clone(),
        };
        let ghost before = entries@;
        entries.push(e);
        proof {
            assert(commit_fields(e) =~= strs(f@));
            assert(entries@.map_values(|e: CommitEntry| commit_fields(e)) == before.map_values(
                |e: CommitEntry| commit_fields(e),
            ).push(commit_fields(e)));
            assert(want.take(k + 1) == want.take(k as int).push(want[k as int]));
        }
        k = k + 1;
    }
    assert(want.take(want.len() as int) == want);
    Ok(entries)
}

/// Reflog entries from `git log -g` run with the arguments of `ListReflog`:
/// hash, selector, subject and decoration of each line.
pub fn list_reflog(out: &GitOutput) -> (r: Result<Vec<ReflogEntry>, String>)
    ensures
        listing_result(*out, r, |e: ReflogEntry| reflog_fields(e), 4),
{
    if !out.success() {
        return Err(failure(out));
    }
    let recs = parse_records(out.stdout.as_str(), 4);
    let ghost want = records(out.stdout@, 4);
    let mut entries: Vec<ReflogEntry> = Vec::new();
    let mut k: usize = 0;
    while k < recs.len()
        invariant
            k <= recs.len(),
            str_rows(recs@) == want,
            want == records(out.stdout@, 4),
            entries@.map_values(|e: ReflogEntry| reflog_fields(e)) == want.take(k as int),
        decreases recs.len() - k,
    {
        let f = &recs[k];
        proof {
            lemma_records_width(out.stdout@, 4, k as int);
            assert(strs(f@) == want[k as int]);
        }
        let e = ReflogEntry {
            hash: f[0].clone(),
            selector: f[1].clone(),
            subject: f[2].clone(),
            decoration: f[3].clone(),
        };
        let ghost before = entries@;
        entries.push(e);
        proof {
            assert(reflog_fields(e) =~= strs(f@));
            assert(entries@.map_values(|e: ReflogEntry| reflog_fields(e)) == before.map_values(
                |e: ReflogEntry| reflog_fields(e),
            ).push(reflog_fields(e)));
            assert(want.take(k + 1) == want.take(k as int).push(want[k as int]));
        }
        k = k + 1;
    }
    assert(want.take(want.len() as int) == want);
    Ok(entries)
}

/// Stashes from `git stash list` run with the arguments of `ListStashes`:
/// selector and subject of each line.
pub fn list_stashes(out: &GitOutput) -> (r: Result<Vec<StashEntry>, String>)
    ensures
        listing_result(*out, r, |e: StashEntry| stash_fields(e), 2),
{
    if !out.success() {
        return Err(failure(out));
    }
    let recs = parse_records(out.stdout.as_str(), 2);
    let ghost want = records(out.stdout@, 2);
    let mut entries: Vec<StashEntry> = Vec::new();
    let mut k: usize = 0;
    while k < recs.len()
        invariant
            k <= recs.len(),
            str_rows(recs@) == want,
            want == records(out.stdout@, 2),
            entries@.map_values(|e: StashEntry| stash_fields(e)) == want.take(k as int),
        decreases recs.len() - k,
    {
        let f = &recs[k];
        proof {
            lemma_records_width(out.stdout@, 2, k as int);
            assert(strs(f@) == want[k as int]);
        }
        let e = StashEntry { selector: f[0].clone(), subject: f[1].clone() };
        let ghost before = entries@;
        entries.push(e);
        proof {
            assert(stash_fields(e) =~= strs(f@));
            assert(entries@.map_values(|e: StashEntry| stash_fields(e)) == before.map_values(
                |e: StashEntry| stash_fields(e),
            ).push(stash_fields(e)));
            assert(want.take(k + 1) == want.take(k as int).push(want[k as int]));
        }
        k = k + 1;
    }
    assert(want.take(want.len() as int) == want);
    Ok(entries)
}

proof fn lemma_keep_records_width(ls: Seq<Seq<char>>, n: nat, k: int)
    requires
        0 <= k < keep_some(ls, |l: Seq<char>| record_of(l, n)).len(),
    ensures
        keep_some(ls, |l: Seq<char>| record_of(l, n))[k].len() == n,
    decreases ls.len(),
{
    let f = |l: Seq<char>| record_of(l, n);
    if ls.len() > 0 {
        let rest = keep_some(ls.drop_last(), f);
        if k < rest.len() {
            lemma_keep_records_width(ls.drop_last(), n, k);
        }
    }
}

proof fn lemma_records_width(text: Seq<char>, n: nat, k: int)
    requires
        0 <= k < records(text, n).len(),
    ensures
        records(text, n)[k].len() == n,
{
    lemma_keep_records_width(lines_of(text), n, k);
}

// ---------------------------------------------------------------------------
// Simple outcomes
// ---------------------------------------------------------------------------

/// Whether anything is staged, from `git diff --cached --quiet`: exit code 0
/// means nothing, 1 means something; anything else is an error.
pub fn has_staged_changes(out: &GitOutput) -> (r: Result<bool, String>)
    ensures
        match r {
            Ok(b) => (out.code == Some(0i32) && !b) || (out.code == Some(1i32) && b),
            Err(e) => out.code != Some(0i32) && out.code != Some(1i32) && e@ == failure_text(*out),
        },
{
    match out.code {
        Some(0) => Ok(false),
        Some(1) => Ok(true),
        _ => Err(failure(out)),
    }
}

/// The staged diff.
pub fn staged_diff(out: &GitOutput) -> (r: Result<String, String>)
    ensures
        text_result(*out, r),
{
    output_text(out)
}

/// The diff of one path.
pub fn diff_path(out: &GitOutput) -> (r: Result<String, String>)
    ensures
        text_result(*out, r),
{
    output_text(out)
}

/// A commit shown with its message, statistics and patch.
pub fn show_commit(out: &GitOutput) -> (r: Result<String, String>)
    ensures
        text_result(*out, r),
{
    output_text(out)
}

/// A commit's header in the `fuller` format.
pub fn show_commit_header(out: &GitOutput) -> (r: Result<String, String>)
    ensures
        text_result(*out, r),
{
    output_text(out)
}

/// The diff of one path of a commit.
pub fn show_commit_file_diff(out: &GitOutput) -> (r: Result<String, String>)
    ensures
        text_result(*out, r),
{
    output_text(out)
}

pub fn stash_apply(out: &GitOutput) -> (r: Result<(), String>)
    ensures
        status_result(*out, r),
{
    finish(out)
}

pub fn stash_pop(out: &GitOutput) -> (r: Result<(), String>)
    ensures
        status_result(*out, r),
{
    finish(out)
}

pub fn stash_drop(out: &GitOutput) -> (r: Result<(), String>)
    ensures
        status_result(*out, r),
{
    finish(out)
}

pub fn stage_path(out: &GitOutput) -> (r: Result<(), String>)
    ensures
        status_result(*out, r),
{
    finish(out)
}

pub fn stage_paths(out: &GitOutput) -> (r: Result<(), String>)
    ensures
        status_result(*out, r),
{
    finish(out)
}

pub fn unstage_paths(out: &GitOutput) -> (r: Result<(), String>)
    ensures
        status_result(*out, r),
{
    finish(out)
}

pub fn discard_worktree_path(out: &GitOutput) -> (r: Result<(), String>)
    ensures
        status_result(*out, r),
{
    finish(out)
}

pub fn discard_untracked_path(out: &GitOutput) -> (r: Result<(), String>)
    ensures
        status_result(*out, r),
{
    finish(out)
}

pub fn discard_all_changes_path(out: &GitOutput) -> (r: Result<(), String>)
    ensures
        status_result(*out, r),
{
    finish(out)
}

pub fn merge_continue(out: &GitOutput) -> (r: Result<(), String>)
    ensures
        status_result(*out, r),
{
    finish(out)
}

pub fn merge_abort(out: &GitOutput) -> (r: Result<(), String>)
    ensures
        status_result(*out, r),
{
    finish(out)
}

pub fn rebase_continue(out: &GitOutput) -> (r: Result<(), String>)
    ensures
        status_result(*out, r),
{
    finish(out)
}

pub fn rebase_abort(out: &GitOutput) -> (r: Result<(), String>)
    ensures
        status_result(*out, r),
{
    finish(out)
}

pub fn rebase_skip(out: &GitOutput) -> (r: Result<(), String>)
    ensures
        status_result(*out, r),
{
    finish(out)
}

pub fn checkout_branch(out: &GitOutput) -> (r: Result<(), String>)
    ensures
        status_result(*out, r),
{
    finish(out)
}

pub fn checkout_branch_entry(out: &GitOutput) -> (r: Result<(), String>)
    ensures
        status_result(*out, r),
{
    finish(out)
}

pub fn fetch_prune(out: &GitOutput) -> (r: Result<(), String>)
    ensures
        status_result(*out, r),
{
    finish(out)
}

pub fn pull_rebase(out: &GitOutput) -> (r: Result<(), String>)
    ensures
        status_result(*out, r),
{
    finish(out)
}

pub fn push(out: &GitOutput) -> (r: Result<(), String>)
    ensures
        status_result(*out, r),
{
    finish(out)
}

pub fn commit_message(out: &GitOutput) -> (r: Result<(), String>)
    ensures
        status_result(*out, r),
{
    finish(out)
}

/// Whether `MERGE_HEAD` exists: whether `git rev-parse --verify` succeeded.
pub fn merge_head_exists(out: &GitOutput) -> (r: Result<bool, String>)
    ensures
        r == Ok::<bool, String>(out.succeeded()),
{
    Ok(out.success())
}

/// Whether the work tree has changes: whether `git status --porcelain`
/// printed anything.
pub fn is_dirty(out: &GitOutput) -> (r: Result<bool, String>)
    ensures
        match r {
            Ok(b) => out.succeeded() && b == (out.stdout@.len() > 0),
            Err(e) => !out.succeeded() && e@ == failure_text(*out),
        },
{
    if !out.success() {
        return Err(failure(out));
    }
    Ok(!out.stdout.as_str().is_empty())
}

/// The directory that `git rev-parse --git-path` names, when it succeeded and
/// printed a non-blank path; a rebase is in progress when it exists.
pub fn rebase_dir(out: &GitOutput) -> (r: Option<String>)
    ensures
        match r {
            Some(p) => out.succeeded() && trim(out.stdout@).len() > 0 && p@ == trim(out.stdout@),
            None => !out.succeeded() || trim(out.stdout@).len() == 0,
        },
{
    if !out.success() {
        return None;
    }
    let p = trim_string(out.stdout.as_str());
    if p.as_str().is_empty() {
        None
    } else {
        Some(p)
    }
}

/// Whether a rebase is in progress, from `git rev-parse --git-path
/// rebase-merge` and `... rebase-apply`: either names a directory that exists
/// (`merge_exists` and `apply_exists` say whether the directory that
/// `rebase_dir` gives for each output exists under the work tree).
pub fn rebase_in_progress(merge: &GitOutput, merge_exists: bool, apply: &GitOutput, apply_exists: bool) -> (r:
    Result<bool, String>)
    ensures
        r == Ok::<bool, String>(
            (merge.succeeded() && trim(merge.stdout@).len() > 0 && merge_exists) || (
            apply.succeeded() && trim(apply.stdout@).len() > 0 && apply_exists),
        ),
{
    if rebase_dir(merge).is_some() && merge_exists {
        return Ok(true);
    }
    if rebase_dir(apply).is_some() && apply_exists {
        return Ok(true);
    }
    Ok(false)
}

/// The message to commit: `message` trimmed, or an error when it is blank.
pub fn commit_message_text(message: &str) -> (r: Result<String, String>)
    ensures
        match r {
            Ok(m) => trim(message@).len() > 0 && m@ == trim(message@),
            Err(e) => trim(message@).len() == 0 && e@ == "Empty commit message"@,
        },
{
    let m = trim_string(message);
    if m.as_str().is_empty() {
        Err("Empty commit message".to_owned())
    } else {
        Ok(m)
    }
}

// ---------------------------------------------------------------------------
// Commit files
// ---------------------------------------------------------------------------

/// The first line of `text`, or the empty text.
pub open spec fn first_line(text: Seq<char>) -> Seq<char> {
    piece(lines_of(text), 0)
}

/// `s` without its first item (empty stays empty).
pub open spec fn after_first<A>(s: Seq<A>) -> Seq<A> {
    if s.len() == 0 {
        s
    } else {
        s.drop_first()
    }
}

/// The parents of a commit, from `git rev-list --parents -n 1 <hash>`: the
/// words of the first line after the commit's own hash.
pub fn commit_parents(out: &GitOutput) -> (r: Result<Vec<String>, String>)
    ensures
        match r {
            Ok(v) => out.succeeded() && strs(v@) == after_first(words(first_line(out.stdout@))),
            Err(e) => !out.succeeded() && e@ == failure_text(*out),
        },
{
    if !out.success() {
        return Err(failure(out));
    }
    let lines = lines_vec(out.stdout.as_str());
    assert(char_rows(lines@) == lines_of(out.stdout@));
    let line: Vec<char> = if lines.len() > 0 {
        let first = &lines[0];
        crate::text::sub_chars(first, 0, first.len())
    } else {
        Vec::new()
    };
    assert(line@.subrange(0, line@.len() as int) == line@);
    assert(line@ == first_line(out.stdout@));
    let ws = words_of(&line, 0, line.len());
    let mut parents: Vec<String> = Vec::new();
    let mut i: usize = 1;
    while i < ws.len()
        invariant
            1 <= i <= ws.len() || ws.len() == 0,
            ws.len() > 0 ==> strs(parents@) == strs(ws@).subrange(1, i as int),
            ws.len() == 0 ==> parents@.len() == 0,
        decreases ws.len() - i,
    {
        let w = ws[i].clone();
        let ghost before = parents@;
        parents.push(w);
        assert(strs(parents@) == strs(before).push(w@));
        assert(strs(ws@).subrange(1, i + 1) == strs(ws@).subrange(1, i as int).push(ws@[i as int]@));
        i = i + 1;
    }
    proof {
        if ws.len() > 0 {
            assert(strs(ws@).subrange(1, ws@.len() as int) == strs(ws@).drop_first());
        }
    }
    Ok(parents)
}

#[derive(Clone, Debug)]
pub struct CommitFileChange {
    pub status: String,
    pub path: String,
    pub old_path: Option<String>,
    pub additions: Option<u32>,
    pub deletions: Option<u32>,
}

/// What a changed-file entry holds, as plain values.
pub struct ChangeV {
    pub status: Seq<char>,
    pub path: Seq<char>,
    pub old_path: Option<Seq<char>>,
    pub additions: Option<u32>,
    pub deletions: Option<u32>,
}

pub open spec fn change_v(c: CommitFileChange) -> ChangeV {
    ChangeV {
        status: c.status@,
        path: c.path@,
        old_path: opt_text(c.old_path),
        additions: c.additions,
        deletions: c.deletions,
    }
}

/// One line of `--name-status` output: the trimmed status, then the path; a
/// rename or copy (status starting with `R` or `C`) gives the old path and
/// then the new one. Blank lines and lines without a path give nothing.
pub open spec fn name_status_entry(line: Seq<char>) -> Option<ChangeV> {
    let t = trim(line);
    let parts = split_char(t, '\t');
    let status = trim(piece(parts, 0));
    if t.len() == 0 {
        None
    } else if has_prefix(status, seq!['R']) || has_prefix(status, seq!['C']) {
        if piece(parts, 2).len() == 0 {
            None
        } else {
            Some(
                ChangeV {
                    status,
                    path: piece(parts, 2),
                    old_path: if parts.len() > 1 {
                        Some(parts[1])
                    } else {
                        None
                    },
                    additions: None,
                    deletions: None,
                },
            )
        }
    } else if piece(parts, 1).len() == 0 {
        None
    } else {
        Some(
            ChangeV {
                status,
                path: piece(parts, 1),
                old_path: None,
                additions: None,
                deletions: None,
            },
        )
    }
}

pub open spec fn name_status_entries(text: Seq<char>) -> Seq<ChangeV> {
    keep_some(lines_of(text), |l: Seq<char>| name_status_entry(l))
}

/// One line of `--numstat` output: added and deleted line counts and the
/// path, when both counts are numbers.
pub open spec fn numstat_entry(line: Seq<char>) -> Option<(Seq<char>, u32, u32)> {
    let parts = split_char(line, '\t');
    if parts.len() >= 3 {
        match (crate::text::parse_u32(parts[0]), crate::text::parse_u32(parts[1])) {
            (Some(a), Some(d)) => Some((parts[2], a, d)),
            _ => None,
        }
    } else {
        None
    }
}

pub open spec fn numstat_entries(text: Seq<char>) -> Seq<(Seq<char>, u32, u32)> {
    keep_some(lines_of(text), |l: Seq<char>| numstat_entry(l))
}

/// The counts recorded last for `path` (a later line for the same path
/// replaces an earlier one).
pub open spec fn last_stat(stats: Seq<(Seq<char>, u32, u32)>, path: Seq<char>) -> Option<
    (u32, u32),
>
    decreases stats.len(),
{
    if stats.len() == 0 {
        None
    } else if stats.last().0 == path {
        Some((stats.last().1, stats.last().2))
    } else {
        last_stat(stats.drop_last(), path)
    }
}

/// `c` with the line counts recorded for its path, if any.
pub open spec fn with_stat(c: ChangeV, stats: Seq<(Seq<char>, u32, u32)>) -> ChangeV {
    match last_stat(stats, c.path) {
        Some((a, d)) => ChangeV { additions: Some(a), deletions: Some(d), ..c },
        None => c,
    }
}

struct FileStat {
    path: String,
    additions: u32,
    deletions: u32,
}

spec fn stat_v(s: FileStat) -> (Seq<char>, u32, u32) {
    (s.path@, s.additions, s.deletions)
}

fn is_rename_or_copy(status: &Vec<char>) -> (r: bool)
    ensures
        r == (has_prefix(status@, seq!['R']) || has_prefix(status@, seq!['C'])),
{
    if status.len() == 0 {
        return false;
    }
    let c = status[0];
    proof {
        assert(status@.take(1) =~= seq![c]);
        if c != 'R' {
            assert(seq![c][0] != seq!['R'][0]);
        }
        if c != 'C' {
            assert(seq![c][0] != seq!['C'][0]);
        }
    }
    c == 'R' || c == 'C'
}

fn name_status_line(line: &Vec<char>) -> (r: Option<CommitFileChange>)
    ensures
        match r {
            Some(c) => name_status_entry(line@) == Some(change_v(c)),
            None => name_status_entry(line@) is None,
        },
{
    let t = trim_chars(line);
    if t.len() == 0 {
        return None;
    }
    let parts = split_chars(&t, '\t', 0);
    let ghost ps = split_char(t@, '\t');
    assert(char_rows(parts@) == ps);
    assert(ps.len() >= 1);
    let status_chars = trim_chars(&parts[0]);
    let status = string_of(&status_chars);
    if is_rename_or_copy(&status_chars) {
        if parts.len() < 3 || parts[2].len() == 0 {
            return None;
        }
        let old_path = Some(string_of(&parts[1]));
        let path = string_of(&parts[2]);
        Some(CommitFileChange { status, path, old_path, additions: None, deletions: None })
    } else {
        if parts.len() < 2 || parts[1].len() == 0 {
            return None;
        }
        let path = string_of(&parts[1]);
        Some(CommitFileChange { status, path, old_path: None, additions: None, deletions: None })
    }
}

/// The changed files listed by `--name-status` output.
fn parse_name_status(text: &str) -> (r: Vec<CommitFileChange>)
    ensures
        r@.map_values(|c: CommitFileChange| change_v(c)) == name_status_entries(text@),
{
    let lines = lines_vec(text);
    let ghost ls = lines_of(text@);
    let ghost f = |l: Seq<char>| name_status_entry(l);
    assert(char_rows(lines@) == ls);
    let mut files: Vec<CommitFileChange> = Vec::new();
    let mut i: usize = 0;
    while i < lines.len()
        invariant
            i <= lines.len(),
            char_rows(lines@) == ls,
            f == (|l: Seq<char>| name_status_entry(l)),
            files@.map_values(|c: CommitFileChange| change_v(c)) == keep_some(ls.take(i as int), f),
        decreases lines.len() - i,
    {
        proof {
            lemma_keep_some_step(ls, f, i as int);
        }
        let entry = name_status_line(&lines[i]);
        match entry {
            Some(c) => {
                let ghost before = files@;
                files.push(c);
                assert(files@.map_values(|c: CommitFileChange| change_v(c)) == before.map_values(
                    |c: CommitFileChange| change_v(c),
                ).push(change_v(c)));
            },
            None => {},
        }
        i = i + 1;
    }
    assert(ls.take(ls.len() as int) == ls);
    files
}

/// The line counts listed by `--numstat` output, in order.
fn parse_numstat(text: &str) -> (r: Vec<FileStat>)
    ensures
        r@.map_values(|s: FileStat| stat_v(s)) == numstat_entries(text@),
{
    let lines = lines_vec(text);
    let ghost ls = lines_of(text@);
    let ghost f = |l: Seq<char>| numstat_entry(l);
    assert(char_rows(lines@) == ls);
    let mut stats: Vec<FileStat> = Vec::new();
    let mut i: usize = 0;
    while i < lines.len()
        invariant
            i <= lines.len(),
            char_rows(lines@) == ls,
            f == (|l: Seq<char>| numstat_entry(l)),
            stats@.map_values(|s: FileStat| stat_v(s)) == keep_some(ls.take(i as int), f),
        decreases lines.len() - i,
    {
        proof {
            lemma_keep_some_step(ls, f, i as int);
        }
        let parts = split_chars(&lines[i], '\t', 0);
        assert(char_rows(parts@) == split_char(ls[i as int], '\t'));
        if parts.len() >= 3 {
            let adds = crate::text::parse_u32_chars(&parts[0], 0, parts[0].len());
            let dels = crate::text::parse_u32_chars(&parts[1], 0, parts[1].len());
            assert(parts@[0]@.subrange(0, parts@[0]@.len() as int) == parts@[0]@);
            assert(parts@[1]@.subrange(0, parts@[1]@.len() as int) == parts@[1]@);
            match (adds, dels) {
                (Some(a), Some(d)) => {
                    let st = FileStat { path: string_of(&parts[2]), additions: a, deletions: d };
                    let ghost before = stats@;
                    stats.push(st);
                    assert(stats@.map_values(|s: FileStat| stat_v(s)) == before.map_values(
                        |s: FileStat| stat_v(s),
                    ).push(stat_v(st)));
                },
                _ => {},
            }
        }
        i = i + 1;
    }
    assert(ls.take(ls.len() as int) == ls);
    stats
}

fn find_stat(stats: &Vec<FileStat>, path: &String) -> (r: Option<(u32, u32)>)
    ensures
        r == last_stat(stats@.map_values(|s: FileStat| stat_v(s)), path@),
{
    let ghost sv = stats@.map_values(|s: FileStat| stat_v(s));
    let mut i: usize = stats.len();
    assert(sv.take(i as int) == sv);
    while i > 0
        invariant
            i <= stats.len(),
            sv == stats@.map_values(|s: FileStat| stat_v(s)),
            last_stat(sv, path@) == last_stat(sv.take(i as int), path@),
        decreases i,
    {
        let st = &stats[i - 1];
        assert(sv.take(i as int).last() == stat_v(*st));
        assert(sv.take(i as int).drop_last() == sv.take(i - 1));
        if st.path == *path {
            return Some((st.additions, st.deletions));
        }
        i = i - 1;
    }
    None
}

/// The files a commit changed: the `--name-status` listing (its failure is
/// an error) with the line counts of the `--numstat` listing added, when that
/// listing is given and succeeded.
pub fn list_commit_files(name_status: &GitOutput, numstat: Option<&GitOutput>) -> (r: Result<
    Vec<CommitFileChange>,
    String,
>)
    ensures
        match r {
            Ok(v) => name_status.succeeded() && v@.map_values(|c: CommitFileChange| change_v(c))
                == ({
                let files = name_status_entries(name_status.stdout@);
                let stats = match numstat {
                    Some(o) => if o.succeeded() {
                        numstat_entries(o.stdout@)
                    } else {
                        Seq::empty()
                    },
                    None => Seq::empty(),
                };
                Seq::new(files.len(), |k: int| with_stat(files[k], stats))
            }),
            Err(e) => !name_status.succeeded() && e@ == failure_text(*name_status),
        },
{
    if !name_status.success() {
        return Err(failure(name_status));
    }
    let files = parse_name_status(name_status.stdout.as_str());
    let stats: Vec<FileStat> = match numstat {
        Some(o) => if o.success() {
            parse_numstat(o.stdout.as_str())
        } else {
            Vec::new()
        },
        None => Vec::new(),
    };
    let ghost fv = files@.map_values(|c: CommitFileChange| change_v(c));
    let ghost sv = stats@.map_values(|s: FileStat| stat_v(s));
    let mut out: Vec<CommitFileChange> = Vec::new();
    let mut k: usize = 0;
    while k < files.len()
        invariant
            k <= files.len(),
            fv == files@.map_values(|c: CommitFileChange| change_v(c)),
            sv == stats@.map_values(|s: FileStat| stat_v(s)),
            out@.map_values(|c: CommitFileChange| change_v(c)) == Seq::new(
                k as nat,
                |j: int| with_stat(fv[j], sv),
            ),
        decreases files.len() - k,
    {
        let f = &files[k];
        let found = find_stat(&stats, &f.path);
        let (additions, deletions) = match found {
            Some((a, d)) => (Some(a), Some(d)),
            None => (f.additions, f.deletions),
        };
        let old_path = match &f.old_path {
            Some(p) => Some(p.clone()),
            None => None,
        };
        let c = CommitFileChange {
            status: f.status.clone(),
            path: f.path.clone(),
            old_path,
            additions,
            deletions,
        };
        let ghost before = out@;
        out.push(c);
        proof {
            assert(change_v(c) == with_stat(fv[k as int], sv));
            assert(out@.map_values(|c: CommitFileChange| change_v(c)) == before.map_values(
                |c: CommitFileChange| change_v(c),
            ).push(change_v(c)));
        }
        k = k + 1;
    }
    proof {
        let stats_spec = match numstat {
            Some(o) => if o.succeeded() {
                numstat_entries(o.stdout@)
            } else {
                Seq::empty()
            },
            None => Seq::empty(),
        };
        assert(sv == stats_spec);
    }
    Ok(out)
}

// ---------------------------------------------------------------------------
// Branches
// ---------------------------------------------------------------------------

/// Field `k` of a split line, trimmed, when it is there and not blank.
pub open spec fn opt_field(parts: Seq<Seq<char>>, k: int) -> Option<Seq<char>> {
    if 0 <= k < parts.len() && trim(parts[k]).len() > 0 {
        Some(trim(parts[k]))
    } else {
        None
    }
}

/// One line of `git for-each-ref` output in the branch format: head marker,
/// name, upstream and tracking state. Lines without a name are left out, and
/// so is a remote's `HEAD`; only a local branch can be the current one.
pub open spec fn branch_entry(line: Seq<char>, remote: bool) -> Option<BranchV> {
    let parts = split_char(line, '\t');
    let head = tab_field(parts, 0);
    let name = tab_field(parts, 1);
    if name.len() == 0 || (remote && has_suffix(name, "/HEAD"@)) {
        None
    } else {
        Some(
            BranchV {
                name,
                is_current: !remote && head == "*"@,
                is_remote: remote,
                upstream: opt_field(parts, 2),
                track: opt_field(parts, 3),
            },
        )
    }
}

pub open spec fn branch_entries(text: Seq<char>, remote: bool) -> Seq<BranchV> {
    keep_some(lines_of(text), |l: Seq<char>| branch_entry(l, remote))
}

fn opt_field_of(parts: &Vec<Vec<char>>, k: usize) -> (r: Option<String>)
    ensures
        opt_text(r) == opt_field(char_rows(parts@), k as int),
{
    if k < parts.len() {
        let t = trim_chars(&parts[k]);
        if t.len() > 0 {
            return Some(string_of(&t));
        }
    }
    None
}

fn branch_line(line: &Vec<char>, remote: bool) -> (r: Option<BranchEntry>)
    ensures
        match r {
            Some(b) => branch_entry(line@, remote) == Some(b.view_v()),
            None => branch_entry(line@, remote) is None,
        },
{
    let parts = split_chars(line, '\t', 0);
    let ghost ps = split_char(line@, '\t');
    assert(char_rows(parts@) == ps);
    let head = if parts.len() > 0 {
        trim_chars(&parts[0])
    } else {
        Vec::new()
    };
    let name = if parts.len() > 1 {
        trim_chars(&parts[1])
    } else {
        Vec::new()
    };
    assert(head@ == tab_field(ps, 0));
    assert(name@ == tab_field(ps, 1));
    if name.len() == 0 {
        return None;
    }
    if remote && ends_with(&name, "/HEAD") {
        return None;
    }
    let star = chars_of("*");
    let is_current = !remote && crate::text::chars_eq(&head, &star);
    let upstream = opt_field_of(&parts, 2);
    let track = opt_field_of(&parts, 3);
    Some(BranchEntry { name: string_of(&name), is_current, is_remote: remote, upstream, track })
}

fn push_branches(text: &str, remote: bool, branches: &mut Vec<BranchEntry>)
    ensures
        final(branches)@.map_values(|b: BranchEntry| b.view_v()) == old(branches)@.map_values(
            |b: BranchEntry| b.view_v(),
        ) + branch_entries(text@, remote),
{
    let lines = lines_vec(text);
    let ghost ls = lines_of(text@);
    let ghost f = |l: Seq<char>| branch_entry(l, remote);
    let ghost start = old(branches)@.map_values(|b: BranchEntry| b.view_v());
    assert(char_rows(lines@) == ls);
    let mut i: usize = 0;
    assert(start + keep_some(ls.take(0), f) == start);
    while i < lines.len()
        invariant
            i <= lines.len(),
            char_rows(lines@) == ls,
            f == (|l: Seq<char>| branch_entry(l, remote)),
            start == old(branches)@.map_values(|b: BranchEntry| b.view_v()),
            branches@.map_values(|b: BranchEntry| b.view_v()) == start + keep_some(
                ls.take(i as int),
                f,
            ),
        decreases lines.len() - i,
    {
        proof {
            lemma_keep_some_step(ls, f, i as int);
        }
        match branch_line(&lines[i], remote) {
            Some(b) => {
                let ghost before = branches@;
                branches.push(b);
                assert(branches@.map_values(|b: BranchEntry| b.view_v()) == before.map_values(
                    |b: BranchEntry| b.view_v(),
                ).push(b.view_v()));
                assert(start + keep_some(ls.take(i as int), f).push(b.view_v()) == (start
                    + keep_some(ls.take(i as int), f)).push(b.view_v()));
            },
            None => {},
        }
        i = i + 1;
    }
    assert(ls.take(ls.len() as int) == ls);
}

/// The branches listed by `git for-each-ref` over local branches and then
/// over remote ones; the first failure is the error.
pub fn list_branches(local: &GitOutput, remote: &GitOutput) -> (r: Result<Vec<BranchEntry>, String>)
    ensures
        match r {
            Ok(v) => local.succeeded() && remote.succeeded() && v@.map_values(
                |b: BranchEntry| b.view_v(),
            ) == branch_entries(local.stdout@, false) + branch_entries(remote.stdout@, true),
            Err(e) => if !local.succeeded() {
                e@ == failure_text(*local)
            } else {
                !remote.succeeded() && e@ == failure_text(*remote)
            },
        },
{
    if !local.success() {
        return Err(failure(local));
    }
    if !remote.success() {
        return Err(failure(remote));
    }
    let mut branches: Vec<BranchEntry> = Vec::new();
    assert(branches@.map_values(|b: BranchEntry| b.view_v()) == Seq::<BranchV>::empty());
    push_branches(local.stdout.as_str(), false, &mut branches);
    push_branches(remote.stdout.as_str(), true, &mut branches);
    Ok(branches)
}

/// The part of a remote branch's name after the remote (after the first
/// `/`), or the whole name.
pub open spec fn local_name_of(name: Seq<char>) -> Seq<char> {
    let i = crate::text::index_of(name, '/');
    if i < 0 {
        name
    } else {
        name.skip(i + 1)
    }
}

/// The command that checks a branch out: a local branch by name, a remote
/// one as a new tracking branch named after it without the remote.
pub fn checkout_command(branch: &BranchEntry) -> (r: GitCommand)
    ensures
        !branch.is_remote ==> (r matches GitCommand::Checkout { branch: b } && b@ == branch.name@),
        branch.is_remote ==> (r matches GitCommand::CheckoutTrack { local_name, remote } && local_name@
            == local_name_of(branch.name@) && remote@ == branch.name@),
{
    if !branch.is_remote {
        return GitCommand::Checkout { branch: branch.name.clone() };
    }
    let v = chars_of(branch.name.as_str());
    let i = crate::text::find_char_from(&v, 0, '/');
    assert(v@.skip(0) == v@);
    let local = if i < v.len() {
        crate::text::string_from(&v, i + 1, v.len())
    } else {
        string_of(&v)
    };
    proof {
        if i < v.len() {
            assert(v@.subrange(i + 1, v@.len() as int) == v@.skip(i + 1));
        }
    }
    GitCommand::CheckoutTrack { local_name: local, remote: branch.name.clone() }
}


// ---------------------------------------------------------------------------
// .gitignore
// ---------------------------------------------------------------------------

/// Whether `.gitignore`'s text `existing` already lists `t`: some line of it,
/// without trailing white space, is `t`.
pub open spec fn ignore_lists(existing: Seq<char>, t: Seq<char>) -> bool {
    exists|i: int| 0 <= i < lines_of(existing).len() && crate::text::trim_end(#[trigger] lines_of(existing)[i]) == t
}

/// The patterns of `ps` to add to `.gitignore`, in order: each trimmed;
/// blank ones, `.gitignore` itself, those already listed and repeats are
/// left out.
pub open spec fn ignore_additions(existing: Seq<char>, ps: Seq<Seq<char>>) -> Seq<Seq<char>>
    decreases ps.len(),
{
    if ps.len() == 0 {
        Seq::empty()
    } else {
        let prev = ignore_additions(existing, ps.drop_last());
        let t = trim(ps.last());
        if t.len() == 0 || t == ".gitignore"@ || ignore_lists(existing, t) || prev.contains(t) {
            prev
        } else {
            prev.push(t)
        }
    }
}

/// The lines `ts`, each ended by a newline.
pub open spec fn with_newlines(ts: Seq<Seq<char>>) -> Seq<char>
    decreases ts.len(),
{
    if ts.len() == 0 {
        Seq::empty()
    } else {
        with_newlines(ts.drop_last()) + ts.last() + seq!['\n']
    }
}

/// `.gitignore`'s new text: the old text, ended by a newline when it is not
/// empty, then each added pattern on a line of its own.
pub open spec fn ignore_text(existing: Seq<char>, added: Seq<Seq<char>>) -> Seq<char> {
    (if existing.len() > 0 && existing.last() != '\n' {
        existing + seq!['\n']
    } else {
        existing
    }) + with_newlines(added)
}

/// Whether `t` is among `v`.
fn contains_text(v: &Vec<String>, t: &Vec<char>) -> (r: bool)
    ensures
        r == strs(v@).contains(t@),
{
    let mut i: usize = 0;
    while i < v.len()
        invariant
            i <= v.len(),
            forall|j: int| 0 <= j < i ==> strs(v@)[j] != t@,
        decreases v.len() - i,
    {
        let c = chars_of(v[i].as_str());
        if crate::text::chars_eq(&c, t) {
            assert(strs(v@)[i as int] == t@);
            return true;
        }
        i = i + 1;
    }
    false
}

/// Adds patterns to `.gitignore`, whose text is `existing`: the new text to
/// write, when any pattern is added (see `ignore_additions` and
/// `ignore_text`), and how many were added.
pub fn add_to_gitignore(existing: &str, patterns: &Vec<String>) -> (r: (Option<String>, usize))
    ensures
        ({
            let added = ignore_additions(existing@, strs(patterns@));
            &&& r.1 == added.len()
            &&& added.len() == 0 ==> r.0 is None
            &&& added.len() > 0 ==> (r.0 matches Some(t) && t@ == ignore_text(existing@, added))
        }),
{
    let ghost ps = strs(patterns@);
    let ls = lines_vec(existing);
    let ghost lv = ls@.map_values(|x: Vec<char>| x@);
    let mut listed: Vec<String> = Vec::new();
    let mut j: usize = 0;
    while j < ls.len()
        invariant
            j <= ls.len(),
            lv == ls@.map_values(|x: Vec<char>| x@),
            lv == lines_of(existing@),
            strs(listed@) == lv.take(j as int).map_values(|l: Seq<char>| crate::text::trim_end(l)),
        decreases ls.len() - j,
    {
        let t = crate::text::trim_end_chars(&ls[j]);
        let ghost before = strs(listed@);
        listed.push(string_of(&t));
        assert(strs(listed@) == before.push(t@));
        assert(lv.take(j + 1).map_values(|l: Seq<char>| crate::text::trim_end(l)) == lv.take(
            j as int,
        ).map_values(|l: Seq<char>| crate::text::trim_end(l)).push(crate::text::trim_end(lv[j as int])));
        j = j + 1;
    }
    assert(lv.take(lv.len() as int) == lv);
    let mut added: Vec<String> = Vec::new();
    let mut k: usize = 0;
    let gi = chars_of(".gitignore");
    assert(ps.take(0) == Seq::<Seq<char>>::empty());
    assert(strs(added@) == Seq::<Seq<char>>::empty());
    while k < patterns.len()
        invariant
            k <= patterns.len(),
            ps == strs(patterns@),
            gi@ == ".gitignore"@,
            lv == lines_of(existing@),
            strs(listed@) == lv.map_values(|l: Seq<char>| crate::text::trim_end(l)),
            strs(added@) == ignore_additions(existing@, ps.take(k as int)),
        decreases patterns.len() - k,
    {
        assert(ps.take(k + 1).drop_last() == ps.take(k as int));
        assert(ps.take(k + 1).last() == patterns@[k as int]@);
        let t = trim_chars(&chars_of(patterns[k].as_str()));
        let is_listed = contains_text(&listed, &t);
        proof {
            if is_listed {
                let w = choose|w: int| 0 <= w < strs(listed@).len() && strs(listed@)[w] == t@;
                assert(crate::text::trim_end(lines_of(existing@)[w]) == t@);
            } else {
                assert forall|i: int| 0 <= i < lines_of(existing@).len() implies crate::text::trim_end(
                    #[trigger] lines_of(existing@)[i],
                ) != t@ by {
                    assert(strs(listed@)[i] == crate::text::trim_end(lv[i]));
                }
            }
        }
        if t.len() > 0 && !crate::text::chars_eq(&t, &gi) && !is_listed && !contains_text(&added, &t) {
            let ghost before = strs(added@);
            added.push(string_of(&t));
            assert(strs(added@) == before.push(t@));
        }
        k = k + 1;
    }
    assert(ps.take(ps.len() as int) == ps);
    if added.len() == 0 {
        return (None, 0);
    }
    let mut out = String::new();
    crate::text::push_str(&mut out, existing);
    let ev = chars_of(existing);
    if ev.len() > 0 && ev[ev.len() - 1] != '\n' {
        out.push('\n');
    }
    let ghost head = out@;
    let ghost av = strs(added@);
    let mut i: usize = 0;
    assert(av.take(0) == Seq::<Seq<char>>::empty());
    while i < added.len()
        invariant
            i <= added.len(),
            av == strs(added@),
            out@ == head + with_newlines(av.take(i as int)),
        decreases added.len() - i,
    {
        assert(av.take(i + 1).drop_last() == av.take(i as int));
        assert(av.take(i + 1).last() == added@[i as int]@);
        crate::text::push_str(&mut out, added[i].as_str());
        out.push('\n');
        i = i + 1;
    }
    assert(av.take(av.len() as int) == av);
    (Some(out), added.len())
}

} // verus!
