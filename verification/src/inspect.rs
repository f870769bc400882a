//! The texts of the log view's inspect pop-up: what it shows of a commit,
//! a reflog entry, a stash or a command that was run.
use vstd::prelude::*;
use crate::git_ops::{CommitEntry, ReflogEntry, StashEntry};
use crate::search::{decoration_refs, git_decoration_tokens};
use crate::text::{push_str, strs};

verus! {

broadcast use vstd::string::group_string_axioms;

/// The refs shown as badges: the first eight of `ts`, each in brackets,
/// separated by spaces.
pub open spec fn badges_of(ts: Seq<Seq<char>>) -> Seq<char>
    decreases ts.len(),
{
    if ts.len() == 0 {
        Seq::empty()
    } else {
        let head = badges_of(ts.drop_last());
        head + (if ts.len() > 1 {
            seq![' ']
        } else {
            Seq::empty()
        }) + seq!['['] + ts.last() + seq![']']
    }
}

/// The badges of a decoration (see `badges_of`).
pub open spec fn badges(decoration: Seq<char>) -> Seq<char> {
    let refs = decoration_refs(decoration);
    badges_of(if refs.len() > 8 {
        refs.take(8)
    } else {
        refs
    })
}

/// `Refs: <badges>` on a line, when there are any.
pub open spec fn refs_line(decoration: Seq<char>) -> Seq<char> {
    if badges(decoration).len() > 0 {
        "Refs: "@ + badges(decoration) + seq!['\n']
    } else {
        Seq::empty()
    }
}

/// What is shown of a commit when git cannot show it: its hash, refs,
/// date, author and subject.
pub open spec fn commit_summary(e: CommitEntry) -> Seq<char> {
    "SHA: "@ + e.hash@ + seq!['\n'] + refs_line(e.decoration@) + "Date: "@ + e.date@ + seq!['\n']
        + "Author: "@ + e.author@ + seq!['\n', '\n'] + "Subject:\n"@ + e.subject@ + seq!['\n']
}

/// The first line of a body shown when `git show` failed, and a blank line.
pub open spec fn failure_head(err: Seq<char>) -> Seq<char> {
    "git show failed: "@ + err + seq!['\n', '\n']
}

/// The inspect text of a commit: git's header of the commit when it could
/// be shown (`header`), else the summary, after the failure when git
/// failed; `None` when there is no repository.
pub open spec fn commit_body(e: CommitEntry, header: Option<Result<Seq<char>, Seq<char>>>) -> Seq<char> {
    match header {
        Some(Ok(text)) => text,
        Some(Err(err)) => failure_head(err) + commit_summary(e),
        None => commit_summary(e),
    }
}

/// The inspect text of a reflog entry: git's header when it could be
/// shown; after a failure its hash, selector and subject; without a
/// repository also its refs.
pub open spec fn reflog_body(e: ReflogEntry, header: Option<Result<Seq<char>, Seq<char>>>) -> Seq<char> {
    match header {
        Some(Ok(text)) => text,
        Some(Err(err)) => failure_head(err) + "SHA: "@ + e.hash@ + seq!['\n'] + "Selector: "@
            + e.selector@ + seq!['\n', '\n'] + "Subject:\n"@ + e.subject@ + seq!['\n'],
        None => "SHA: "@ + e.hash@ + seq!['\n'] + "Selector: "@ + e.selector@ + seq!['\n']
            + refs_line(e.decoration@) + seq!['\n'] + "Subject:\n"@ + e.subject@ + seq!['\n'],
    }
}

/// The inspect text of a stash: its selector and message, and the keys
/// that act on it.
pub open spec fn stash_body(e: StashEntry) -> Seq<char> {
    "Selector: "@ + e.selector@ + seq!['\n', '\n'] + "Message:\n"@ + e.subject@ + seq!['\n', '\n']
        + "Keys: a/apply  p/pop  d/drop"@ + seq!['\n']
}

/// The inspect text of a command that was run: the command and its output
/// (ended by a newline), or that it printed nothing.
pub open spec fn command_body(cmd: Seq<char>, detail: Option<Seq<char>>) -> Seq<char> {
    "Command:\n"@ + cmd + seq!['\n', '\n'] + "Output:\n"@ + match detail {
        Some(d) => if d.len() > 0 && d.last() == '\n' {
            d
        } else {
            d + seq!['\n']
        },
        None => "(no output)\n"@,
    }
}

/// A header result as texts.
pub open spec fn header_v(h: Option<Result<String, String>>) -> Option<Result<Seq<char>, Seq<char>>> {
    match h {
        Some(Ok(t)) => Some(Ok(t@)),
        Some(Err(e)) => Some(Err(e@)),
        None => None,
    }
}

/// Appends the `Refs:` line of `decoration` (see `refs_line`).
fn push_refs_line(out: &mut String, decoration: &str)
    ensures
        final(out)@ == old(out)@ + refs_line(decoration@),
{
    let refs = git_decoration_tokens(decoration);
    let ghost rs = strs(refs@);
    let n = if refs.len() > 8 {
        8
    } else {
        refs.len()
    };
    let mut b = String::new();
    let mut i: usize = 0;
    assert(rs.take(0) == Seq::<Seq<char>>::empty());
    while i < n
        invariant
            i <= n <= refs.len(),
            rs == strs(refs@),
            b@ == badges_of(rs.take(i as int)),
        decreases n - i,
    {
        assert(rs.take(i + 1).drop_last() == rs.take(i as int));
        assert(rs.take(i + 1).last() == refs@[i as int]@);
        if i > 0 {
            b.push(' ');
        }
        b.push('[');
        push_str(&mut b, refs[i].as_str());
        b.push(']');
        i = i + 1;
    }
    proof {
        if rs.len() <= 8 {
            assert(rs.take(rs.len() as int) == rs);
        }
    }
    if b.as_str().is_empty() {
        return;
    }
    push_str(out, "Refs: ");
    push_str(out, b.as_str());
    out.push('\n');
}

fn push_commit_summary(out: &mut String, e: &CommitEntry)
    ensures
        final(out)@ == old(out)@ + commit_summary(*e),
{
    push_str(out, "SHA: ");
    push_str(out, e.hash.as_str());
    out.push('\n');
    push_refs_line(out, e.decoration.as_str());
    push_str(out, "Date: ");
    push_str(out, e.date.as_str());
    out.push('\n');
    push_str(out, "Author: ");
    push_str(out, e.author.as_str());
    out.push('\n');
    out.push('\n');
    push_str(out, "Subject:\n");
    push_str(out, e.subject.as_str());
    out.push('\n');
}

fn push_failure_head(out: &mut String, err: &String)
    ensures
        final(out)@ == old(out)@ + failure_head(err@),
{
    push_str(out, "git show failed: ");
    push_str(out, err.as_str());
    out.push('\n');
    out.push('\n');
}

/// The title and text of the inspect pop-up for a commit (see
/// `commit_body`); `header` is what `git show` gave for it, `None` when
/// there is no repository.
pub fn commit_inspect(e: &CommitEntry, header: Option<Result<String, String>>) -> (r: (String, String))
    ensures
        r.0@ == "Inspect "@ + e.short@,
        r.1@ == commit_body(*e, header_v(header)),
{
    let mut title = "Inspect ".to_owned();
    push_str(&mut title, e.short.as_str());
    let body = match header {
        Some(Ok(text)) => text,
        Some(Err(err)) => {
            let mut out = String::new();
            push_failure_head(&mut out, &err);
            push_commit_summary(&mut out, e);
            out
        },
        None => {
            let mut out = String::new();
            push_commit_summary(&mut out, e);
            out
        },
    };
    (title, body)
}

/// The title and text of the inspect pop-up for a reflog entry (see
/// `reflog_body`).
pub fn reflog_inspect(e: &ReflogEntry, header: Option<Result<String, String>>) -> (r: (String, String))
    ensures
        r.0@ == "Inspect "@ + e.selector@,
        r.1@ == reflog_body(*e, header_v(header)),
{
    let mut title = "Inspect ".to_owned();
    push_str(&mut title, e.selector.as_str());
    let body = match header {
        Some(Ok(text)) => text,
        Some(Err(err)) => {
            let mut out = String::new();
            push_failure_head(&mut out, &err);
            push_str(&mut out, "SHA: ");
            push_str(&mut out, e.hash.as_str());
            out.push('\n');
            push_str(&mut out, "Selector: ");
            push_str(&mut out, e.selector.as_str());
            out.push('\n');
            out.push('\n');
            push_str(&mut out, "Subject:\n");
            push_str(&mut out, e.subject.as_str());
            out.push('\n');
            out
        },
        None => {
            let mut out = String::new();
            push_str(&mut out, "SHA: ");
            push_str(&mut out, e.hash.as_str());
            out.push('\n');
            push_str(&mut out, "Selector: ");
            push_str(&mut out, e.selector.as_str());
            out.push('\n');
            push_refs_line(&mut out, e.decoration.as_str());
            out.push('\n');
            push_str(&mut out, "Subject:\n");
            push_str(&mut out, e.subject.as_str());
            out.push('\n');
            out
        },
    };
    (title, body)
}

/// The title and text of the inspect pop-up for a stash (see
/// `stash_body`).
pub fn stash_inspect(e: &StashEntry) -> (r: (String, String))
    ensures
        r.0@ == "Inspect "@ + e.selector@,
        r.1@ == stash_body(*e),
{
    let mut title = "Inspect ".to_owned();
    push_str(&mut title, e.selector.as_str());
    let mut body = String::new();
    push_str(&mut body, "Selector: ");
    push_str(&mut body, e.selector.as_str());
    body.push('\n');
    body.push('\n');
    push_str(&mut body, "Message:\n");
    push_str(&mut body, e.subject.as_str());
    body.push('\n');
    body.push('\n');
    push_str(&mut body, "Keys: a/apply  p/pop  d/drop");
    body.push('\n');
    (title, body)
}

/// The title and text of the inspect pop-up for a command that was run
/// (see `command_body`).
pub fn command_inspect(cmd: &str, detail: Option<&str>) -> (r: (String, String))
    ensures
        r.0@ == "Inspect Command"@,
        r.1@ == command_body(
            cmd@,
            match detail {
                Some(d) => Some(d@),
                None => None,
            },
        ),
{
    let mut body = String::new();
    push_str(&mut body, "Command:\n");
    push_str(&mut body, cmd);
    body.push('\n');
    body.push('\n');
    push_str(&mut body, "Output:\n");
    match detail {
        Some(d) => {
            push_str(&mut body, d);
            let v = crate::text::chars_of(d);
            if !(v.len() > 0 && v[v.len() - 1] == '\n') {
                body.push('\n');
            }
        },
        None => push_str(&mut body, "(no output)\n"),
    }
    ("Inspect Command".to_owned(), body)
}

} // verus!
