//! The diff shown for a file of the git panel: git's diff for a tracked file,
//! and a diff made up for an untracked file or directory.
use vstd::prelude::*;
use crate::text::{
    chars_of, decimal, lines_of, lines_vec, push_chars, push_decimal, push_str, strs, trim,
    trim_string,
};

verus! {

broadcast use vstd::string::group_string_axioms;

/// Result of a diff load.
#[derive(Debug)]
pub enum GitDiffResult {
    /// The diff's lines.
    Ready { request_id: u64, lines: Vec<String> },
    /// Loading failed.
    Error { request_id: u64, error: String },
    /// The load was cancelled.
    Cancelled,
}

/// The lines of a diff that adds the file `path` with lines `lines`.
pub open spec fn new_file_diff(path: Seq<char>, lines: Seq<Seq<char>>) -> Seq<Seq<char>> {
    seq![
        "diff --git a/"@ + path + " b/"@ + path,
        "new file mode 100644"@,
        "--- /dev/null"@,
        "+++ b/"@ + path,
        "@@ -0,0 +1,"@ + decimal(lines.len()) + " @@"@,
    ] + lines.map_values(|l: Seq<char>| seq!['+'] + l)
}

fn push_line(out: &mut Vec<String>, s: String)
    ensures
        strs(final(out)@) == strs(old(out)@).push(s@),
{
    let ghost v = s@;
    out.push(s);
    assert(strs(out@) == strs(old(out)@).push(v));
}

/// The diff shown for an untracked file: the file added whole, or the one
/// line `Cannot read file: <error>` when it could not be read.
pub fn untracked_file_diff(path: &str, content: Result<String, String>) -> (r: Vec<String>)
    ensures
        strs(r@) == (match content {
            Ok(c) => new_file_diff(path@, lines_of(c@)),
            Err(e) => seq!["Cannot read file: "@ + e@],
        }),
{
    let mut out: Vec<String> = Vec::new();
    match content {
        Err(e) => {
            let mut s = "Cannot read file: ".to_owned();
            push_str(&mut s, e.as_str());
            push_line(&mut out, s);
            assert(strs(out@) =~= seq!["Cannot read file: "@ + e@]);
            out
        },
        Ok(c) => {
            let lines = lines_vec(c.as_str());
            let ghost ls = lines_of(c@);
            assert(lines@.map_values(|x: Vec<char>| x@) == ls);
            let mut h1 = "diff --git a/".to_owned();
            push_str(&mut h1, path);
            push_str(&mut h1, " b/");
            push_str(&mut h1, path);
            push_line(&mut out, h1);
            push_line(&mut out, "new file mode 100644".to_owned());
            push_line(&mut out, "--- /dev/null".to_owned());
            let mut h4 = "+++ b/".to_owned();
            push_str(&mut h4, path);
            push_line(&mut out, h4);
            let mut h5 = "@@ -0,0 +1,".to_owned();
            push_decimal(&mut h5, lines.len() as u64);
            push_str(&mut h5, " @@");
            push_line(&mut out, h5);
            let ghost head = strs(out@);
            let mut i: usize = 0;
            while i < lines.len()
                invariant
                    i <= lines.len(),
                    lines@.map_values(|x: Vec<char>| x@) == ls,
                    strs(out@) == head + ls.take(i as int).map_values(
                        |l: Seq<char>| seq!['+'] + l,
                    ),
                decreases lines.len() - i,
            {
                let mut s = String::new();
                s.push('+');
                push_chars(&mut s, &lines[i]);
                assert(s@ == seq!['+'] + ls[i as int]);
                push_line(&mut out, s);
                assert(ls.take(i + 1).map_values(|l: Seq<char>| seq!['+'] + l) == ls.take(
                    i as int,
                ).map_values(|l: Seq<char>| seq!['+'] + l).push(seq!['+'] + ls[i as int]));
                i = i + 1;
            }
            assert(ls.take(ls.len() as int) == ls);
            out
        },
    }
}

/// A directory entry as listed: a subdirectory indented, a file marked `+`.
pub open spec fn listing_line(e: (String, bool)) -> Seq<char> {
    if e.1 {
        "  "@ + e.0@
    } else {
        "  + "@ + e.0@
    }
}

/// The listing shown for an untracked directory: a title, an empty line,
/// then each entry (a subdirectory indented, a file marked `+`); or the one
/// line `Cannot read directory: <error>`.
pub fn untracked_dir_listing(path: &str, entries: Result<Vec<(String, bool)>, String>) -> (r: Vec<
    String,
>)
    ensures
        strs(r@) == (match entries {
            Ok(es) => seq!["Untracked directory: "@ + path@ + "/"@, Seq::<char>::empty()]
                + es@.map_values(|e: (String, bool)| listing_line(e)),
            Err(e) => seq!["Cannot read directory: "@ + e@],
        }),
{
    let mut out: Vec<String> = Vec::new();
    match entries {
        Err(e) => {
            let mut s = "Cannot read directory: ".to_owned();
            push_str(&mut s, e.as_str());
            push_line(&mut out, s);
            assert(strs(out@) =~= seq!["Cannot read directory: "@ + e@]);
            out
        },
        Ok(es) => {
            let mut t = "Untracked directory: ".to_owned();
            push_str(&mut t, path);
            push_str(&mut t, "/");
            push_line(&mut out, t);
            push_line(&mut out, String::new());
            let ghost head = strs(out@);
            let ghost f = |e: (String, bool)| listing_line(e);
            let mut i: usize = 0;
            while i < es.len()
                invariant
                    i <= es.len(),
                    f == (|e: (String, bool)| listing_line(e)),
                    strs(out@) == head + es@.take(i as int).map_values(f),
                decreases es.len() - i,
            {
                let mut s = if es[i].1 {
                    "  ".to_owned()
                } else {
                    "  + ".to_owned()
                };
                push_str(&mut s, es[i].0.as_str());
                assert(s@ == listing_line(es@[i as int]));
                let ghost before = strs(out@);
                push_line(&mut out, s);
                assert(es@.take(i + 1).map_values(f) == es@.take(i as int).map_values(f).push(
                    f(es@[i as int]),
                ));
                assert(before.push(f(es@[i as int])) == head + es@.take(i + 1).map_values(f));
                i = i + 1;
            }
            assert(es@.take(es@.len() as int) == es@);
            out
        },
    }
}

/// The lines of git's diff of a tracked file: `No diff` when it is blank;
/// a failure of git becomes `git diff failed: <error>`.
pub fn tracked_diff_lines(diff: Result<String, String>) -> (r: Result<Vec<String>, String>)
    ensures
        match (diff, r) {
            (Ok(t), Ok(v)) => strs(v@) == (if trim(t@).len() == 0 {
                seq!["No diff"@]
            } else {
                lines_of(t@)
            }),
            (Err(e), Err(m)) => m@ == "git diff failed: "@ + e@,
            _ => false,
        },
{
    match diff {
        Err(e) => {
            let mut m = "git diff failed: ".to_owned();
            push_str(&mut m, e.as_str());
            Err(m)
        },
        Ok(t) => {
            let tt = trim_string(t.as_str());
            let mut out: Vec<String> = Vec::new();
            if tt.as_str().is_empty() {
                push_line(&mut out, "No diff".to_owned());
                assert(strs(out@) =~= seq!["No diff"@]);
                return Ok(out);
            }
            let lines = lines_vec(t.as_str());
            let ghost ls = lines_of(t@);
            assert(lines@.map_values(|x: Vec<char>| x@) == ls);
            let mut i: usize = 0;
            while i < lines.len()
                invariant
                    i <= lines.len(),
                    lines@.map_values(|x: Vec<char>| x@) == ls,
                    strs(out@) == ls.take(i as int),
                decreases lines.len() - i,
            {
                push_line(&mut out, crate::text::string_of(&lines[i]));
                assert(ls.take(i + 1) == ls.take(i as int).push(ls[i as int]));
                i = i + 1;
            }
            assert(ls.take(ls.len() as int) == ls);
            Ok(out)
        },
    }
}

} // verus!
