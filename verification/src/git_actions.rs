//! What the git panel's footer buttons and bulk actions do with the paths
//! selected: the paths a stage, unstage or discard gets and the command it
//! is logged as, or the status that says why nothing runs.
use vstd::prelude::*;
use crate::git::{GitFileEntry, GitState, is_change};
use crate::text::{decimal, push_decimal, push_str, str_eq, str_lt, strs, text_lt};

verus! {

broadcast use vstd::string::group_string_axioms;

/// The buttons under the file list.
#[derive(Clone, Copy, Debug, PartialEq, Eq, Structural)]
pub enum GitFooterAction {
    Stage,
    Unstage,
    Discard,
    Commit,
}

/// How a path's changes are thrown away.
#[derive(Clone, Copy, Debug, PartialEq, Eq, Structural)]
pub enum DiscardMode {
    /// Restore the working-tree file from the index.
    Worktree,
    /// Delete the untracked file.
    Untracked,
    /// Restore both index and working tree from `HEAD`.
    AllChanges,
}

/// A path to discard, and how.
pub struct DiscardItem {
    pub path: String,
    pub mode: DiscardMode,
}

/// What a footer button comes to.
pub enum FooterPlan {
    /// Nothing runs; the status line shows this.
    Status(String),
    /// Stage `paths`, logged as `cmd`.
    Stage { cmd: String, paths: Vec<String> },
    /// Unstage `paths`, logged as `cmd`.
    Unstage { cmd: String, paths: Vec<String> },
    /// Ask to confirm discarding these.
    ConfirmDiscard(Vec<DiscardItem>),
    /// Go on with the commit editor.
    Commit,
}

/// A footer plan, by its texts.
pub enum PlanV {
    Status(Seq<char>),
    Stage(Seq<char>, Seq<Seq<char>>),
    Unstage(Seq<char>, Seq<Seq<char>>),
    ConfirmDiscard(Seq<(Seq<char>, DiscardMode)>),
    Commit,
}

pub open spec fn items_v(items: Seq<DiscardItem>) -> Seq<(Seq<char>, DiscardMode)> {
    items.map_values(|d: DiscardItem| (d.path@, d.mode))
}

pub open spec fn plan_v(p: FooterPlan) -> PlanV {
    match p {
        FooterPlan::Status(s) => PlanV::Status(s@),
        FooterPlan::Stage { cmd, paths } => PlanV::Stage(cmd@, strs(paths@)),
        FooterPlan::Unstage { cmd, paths } => PlanV::Unstage(cmd@, strs(paths@)),
        FooterPlan::ConfirmDiscard(items) => PlanV::ConfirmDiscard(items_v(items@)),
        FooterPlan::Commit => PlanV::Commit,
    }
}

// ---------------------------------------------------------------------------
// Sorting paths
// ---------------------------------------------------------------------------

/// `s` (sorted) with `d` inserted after the texts that do not sort after it.
pub open spec fn insert_text(s: Seq<Seq<char>>, d: Seq<char>) -> Seq<Seq<char>>
    decreases s.len(),
{
    if s.len() == 0 {
        seq![d]
    } else if text_lt(d, s[0]) {
        seq![d] + s
    } else {
        seq![s[0]] + insert_text(s.drop_first(), d)
    }
}

/// The texts of `v` in sorted order, repeats kept.
pub open spec fn sorted_texts(v: Seq<Seq<char>>) -> Seq<Seq<char>>
    decreases v.len(),
{
    if v.len() == 0 {
        Seq::empty()
    } else {
        insert_text(sorted_texts(v.drop_last()), v.last())
    }
}

proof fn lemma_insert_text_at(s: Seq<Seq<char>>, d: Seq<char>, p: int)
    requires
        0 <= p <= s.len(),
        forall|j: int| 0 <= j < p ==> !text_lt(d, #[trigger] s[j]),
        p < s.len() ==> text_lt(d, s[p]),
    ensures
        insert_text(s, d) == s.take(p) + seq![d] + s.skip(p),
    decreases p,
{
    if p > 0 {
        lemma_insert_text_at(s.drop_first(), d, p - 1);
        assert(seq![s[0]] + (s.drop_first().take(p - 1) + seq![d] + s.drop_first().skip(p - 1))
            == s.take(p) + seq![d] + s.skip(p));
    } else {
        assert(s.take(0) + seq![d] + s.skip(0) == seq![d] + s);
    }
}

/// The paths in sorted order (as `slice::sort` orders strings).
pub fn sort_paths(v: Vec<String>) -> (r: Vec<String>)
    ensures
        strs(r@) == sorted_texts(strs(v@)),
{
    let mut out: Vec<String> = Vec::new();
    let mut i: usize = 0;
    assert(strs(v@).take(0) == Seq::<Seq<char>>::empty());
    while i < v.len()
        invariant
            i <= v.len(),
            strs(out@) == sorted_texts(strs(v@).take(i as int)),
        decreases v.len() - i,
    {
        let ghost s = strs(out@);
        let d = &v[i];
        let mut p: usize = 0;
        while p < out.len() && !str_lt(d.as_str(), out[p].as_str())
            invariant
                p <= out.len(),
                s == strs(out@),
                forall|j: int| 0 <= j < p ==> !text_lt(d@, #[trigger] s[j]),
            decreases out.len() - p,
        {
            p = p + 1;
        }
        proof {
            lemma_insert_text_at(s, d@, p as int);
            assert(strs(v@).take(i + 1).drop_last() == strs(v@).take(i as int));
        }
        out.insert(p, d.clone());
        assert(strs(out@) =~= s.take(p as int) + seq![d@] + s.skip(p as int));
        i = i + 1;
    }
    assert(strs(v@).take(v@.len() as int) == strs(v@));
    out
}

// ---------------------------------------------------------------------------
// Entries by path
// ---------------------------------------------------------------------------

/// The index of the first entry with path `p`, or -1.
pub open spec fn entry_index(es: Seq<GitFileEntry>, p: Seq<char>) -> int
    decreases es.len(),
{
    if es.len() == 0 {
        -1
    } else if es[0].path@ == p {
        0
    } else {
        let k = entry_index(es.drop_first(), p);
        if k < 0 {
            -1
        } else {
            k + 1
        }
    }
}

proof fn lemma_entry_index(es: Seq<GitFileEntry>, p: Seq<char>, i: int)
    requires
        0 <= i <= es.len(),
        forall|j: int| 0 <= j < i ==> (#[trigger] es[j]).path@ != p,
    ensures
        i < es.len() && es[i].path@ == p ==> entry_index(es, p) == i,
        i == es.len() ==> entry_index(es, p) == -1,
    decreases i,
{
    if i > 0 {
        lemma_entry_index(es.drop_first(), p, i - 1);
        assert forall|j: int| 0 <= j < i - 1 implies (#[trigger] es.drop_first()[j]).path@ != p by {
            assert(es.drop_first()[j] == es[j + 1]);
        }
        lemma_entry_index(es.drop_first(), p, i - 1);
    }
}

/// The first entry whose path is `p`.
fn find_entry(es: &Vec<GitFileEntry>, p: &str) -> (r: Option<usize>)
    ensures
        match r {
            Some(i) => i < es@.len() && entry_index(es@, p@) == i,
            None => entry_index(es@, p@) == -1,
        },
{
    let mut i: usize = 0;
    while i < es.len()
        invariant
            i <= es.len(),
            forall|j: int| 0 <= j < i ==> (#[trigger] es@[j]).path@ != p@,
        decreases es.len() - i,
    {
        if str_eq(es[i].path.as_str(), p) {
            proof {
                lemma_entry_index(es@, p@, i as int);
            }
            return Some(i);
        }
        i = i + 1;
    }
    proof {
        lemma_entry_index(es@, p@, i as int);
    }
    None
}

/// Whether the entry with path `p` (the first one) has staged changes.
pub open spec fn path_staged(es: Seq<GitFileEntry>, p: Seq<char>) -> bool {
    let k = entry_index(es, p);
    k >= 0 && is_change(es[k].x)
}

/// The paths of `ps` whose entries have staged changes, in order.
pub open spec fn staged_of(ps: Seq<Seq<char>>, es: Seq<GitFileEntry>) -> Seq<Seq<char>>
    decreases ps.len(),
{
    if ps.len() == 0 {
        Seq::empty()
    } else {
        let r = staged_of(ps.drop_last(), es);
        if path_staged(es, ps.last()) {
            r.push(ps.last())
        } else {
            r
        }
    }
}

/// How an entry's changes are thrown away: an untracked file is deleted,
/// staged changes go back to `HEAD`, others back to the index.
pub open spec fn discard_mode(e: GitFileEntry) -> DiscardMode {
    if e.is_untracked {
        DiscardMode::Untracked
    } else if is_change(e.x) {
        DiscardMode::AllChanges
    } else {
        DiscardMode::Worktree
    }
}

/// The paths of `ps` with entries and how to discard them, in order; `None`
/// when one of them is a conflict.
pub open spec fn discard_items(ps: Seq<Seq<char>>, es: Seq<GitFileEntry>) -> Option<
    Seq<(Seq<char>, DiscardMode)>,
>
    decreases ps.len(),
{
    if ps.len() == 0 {
        Some(Seq::empty())
    } else {
        match discard_items(ps.drop_last(), es) {
            None => None,
            Some(r) => {
                let k = entry_index(es, ps.last());
                if k < 0 {
                    Some(r)
                } else if es[k].is_conflict {
                    None
                } else {
                    Some(r.push((ps.last(), discard_mode(es[k]))))
                }
            },
        }
    }
}

// ---------------------------------------------------------------------------
// The footer
// ---------------------------------------------------------------------------

/// The command a job over `paths` is logged as: `<verb> -- <path>` for one
/// path, `<verb> (<count>)` for more.
pub open spec fn paths_cmd(verb: Seq<char>, paths: Seq<Seq<char>>) -> Seq<char> {
    if paths.len() == 1 {
        verb + " -- "@ + paths[0]
    } else {
        verb + " ("@ + decimal(paths.len()) + ")"@
    }
}

/// What a footer button does with the selected `paths`, the repository's
/// `entries` at hand: outside a repository or while a job runs nothing;
/// staging takes the paths sorted; unstaging the sorted paths with staged
/// changes; discarding asks to confirm each path with an entry (refusing
/// conflicts); committing goes on in the commit editor.
pub open spec fn footer_spec(
    action: GitFooterAction,
    has_repo: bool,
    busy: bool,
    paths: Seq<Seq<char>>,
    es: Seq<GitFileEntry>,
) -> PlanV {
    if !has_repo {
        PlanV::Status("Not a git repository"@)
    } else if busy {
        PlanV::Status("Busy"@)
    } else {
        match action {
            GitFooterAction::Stage => if paths.len() == 0 {
                PlanV::Status("No selection"@)
            } else {
                let s = sorted_texts(paths);
                PlanV::Stage(paths_cmd("git add"@, s), s)
            },
            GitFooterAction::Unstage => if paths.len() == 0 {
                PlanV::Status("No selection"@)
            } else if staged_of(paths, es).len() == 0 {
                PlanV::Status("Nothing staged in selection"@)
            } else {
                let s = sorted_texts(staged_of(paths, es));
                PlanV::Unstage(paths_cmd("git restore --staged"@, s), s)
            },
            GitFooterAction::Discard => if paths.len() == 0 {
                PlanV::Status("No selection"@)
            } else {
                match discard_items(paths, es) {
                    None => PlanV::Status("Cannot discard conflicts"@),
                    Some(items) => if items.len() == 0 {
                        PlanV::Status("No selection"@)
                    } else {
                        PlanV::ConfirmDiscard(items)
                    },
                }
            },
            GitFooterAction::Commit => PlanV::Commit,
        }
    }
}

fn status(msg: &str) -> (r: FooterPlan)
    ensures
        plan_v(r) == PlanV::Status(msg@),
{
    let mut s = String::new();
    push_str(&mut s, msg);
    FooterPlan::Status(s)
}

/// The command a job over `paths` is logged as.
fn paths_command(verb: &str, paths: &Vec<String>) -> (r: String)
    requires
        paths@.len() >= 1,
    ensures
        r@ == paths_cmd(verb@, strs(paths@)),
{
    let mut s = String::new();
    push_str(&mut s, verb);
    if paths.len() == 1 {
        push_str(&mut s, " -- ");
        push_str(&mut s, paths[0].as_str());
    } else {
        push_str(&mut s, " (");
        push_decimal(&mut s, paths.len() as u64);
        push_str(&mut s, ")");
    }
    s
}

/// What a footer button does with the selected `paths`: see `footer_spec`.
pub fn footer_plan(
    action: GitFooterAction,
    has_repo: bool,
    busy: bool,
    paths: Vec<String>,
    entries: &Vec<GitFileEntry>,
) -> (r: FooterPlan)
    ensures
        plan_v(r) == footer_spec(action, has_repo, busy, strs(paths@), entries@),
{
    if !has_repo {
        return status("Not a git repository");
    }
    if busy {
        return status("Busy");
    }
    match action {
        GitFooterAction::Stage => {
            if paths.len() == 0 {
                return status("No selection");
            }
            let sorted = sort_paths(paths);
            let cmd = paths_command("git add", &sorted);
            FooterPlan::Stage { cmd, paths: sorted }
        },
        GitFooterAction::Unstage => {
            if paths.len() == 0 {
                return status("No selection");
            }
            let mut staged: Vec<String> = Vec::new();
            let mut i: usize = 0;
            while i < paths.len()
                invariant
                    i <= paths.len(),
                    strs(staged@) == staged_of(strs(paths@).take(i as int), entries@),
                decreases paths.len() - i,
            {
                let p = &paths[i];
                assert(strs(paths@).take(i + 1).drop_last() == strs(paths@).take(i as int));
                match find_entry(entries, p.as_str()) {
                    Some(k) => {
                        let x = entries[k].x;
                        if x != ' ' && x != '?' {
                            let ghost before = staged@;
                            staged.push(p.clone());
                            assert(strs(staged@) == strs(before).push(p@));
                        }
                    },
                    None => {},
                }
                i = i + 1;
            }
            assert(strs(paths@).take(paths@.len() as int) == strs(paths@));
            if staged.len() == 0 {
                return status("Nothing staged in selection");
            }
            let sorted = sort_paths(staged);
            let cmd = paths_command("git restore --staged", &sorted);
            FooterPlan::Unstage { cmd, paths: sorted }
        },
        GitFooterAction::Discard => {
            if paths.len() == 0 {
                return status("No selection");
            }
            let mut items: Vec<DiscardItem> = Vec::new();
            let mut i: usize = 0;
            while i < paths.len()
                invariant
                    i <= paths.len(),
                    discard_items(strs(paths@).take(i as int), entries@) == Some(items_v(items@)),
                    has_repo && !busy && action == GitFooterAction::Discard,
                decreases paths.len() - i,
            {
                let p = &paths[i];
                assert(strs(paths@).take(i + 1).drop_last() == strs(paths@).take(i as int));
                match find_entry(entries, p.as_str()) {
                    Some(k) => {
                        let e = &entries[k];
                        if e.is_conflict {
                            proof {
                                assert(strs(paths@).take(i + 1).last() == p@);
                                assert(discard_items(strs(paths@).take(i + 1), entries@) is None);
                                lemma_discard_none_stays(strs(paths@), entries@, i as int + 1);
                            }
                            return status("Cannot discard conflicts");
                        }
                        let mode = if e.is_untracked {
                            DiscardMode::Untracked
                        } else if e.x != ' ' && e.x != '?' {
                            DiscardMode::AllChanges
                        } else {
                            DiscardMode::Worktree
                        };
                        let ghost before = items@;
                        items.push(DiscardItem { path: p.clone(), mode });
                        assert(items_v(items@) == items_v(before).push((p@, mode)));
                    },
                    None => {},
                }
                i = i + 1;
            }
            assert(strs(paths@).take(paths@.len() as int) == strs(paths@));
            if items.len() == 0 {
                return status("No selection");
            }
            FooterPlan::ConfirmDiscard(items)
        },
        GitFooterAction::Commit => FooterPlan::Commit,
    }
}

proof fn lemma_discard_none_stays(ps: Seq<Seq<char>>, es: Seq<GitFileEntry>, i: int)
    requires
        0 <= i <= ps.len(),
        discard_items(ps.take(i), es) is None,
    ensures
        discard_items(ps, es) is None,
    decreases ps.len() - i,
{
    if i < ps.len() {
        assert(ps.take(i + 1).drop_last() == ps.take(i));
        lemma_discard_none_stays(ps, es, i + 1);
    } else {
        assert(ps.take(i) == ps);
    }
}

/// Which button the stage toggle presses: unstage when every selected path
/// with an entry has staged changes (and there is one), else stage.
pub open spec fn toggle_spec(paths: Seq<Seq<char>>, es: Seq<GitFileEntry>) -> GitFooterAction {
    let known = known_count(paths, es);
    if known > 0 && staged_of(paths, es).len() == known {
        GitFooterAction::Unstage
    } else {
        GitFooterAction::Stage
    }
}

/// How many paths of `ps` have an entry.
pub open spec fn known_count(ps: Seq<Seq<char>>, es: Seq<GitFileEntry>) -> nat
    decreases ps.len(),
{
    if ps.len() == 0 {
        0
    } else {
        known_count(ps.drop_last(), es) + if entry_index(es, ps.last()) >= 0 {
            1nat
        } else {
            0nat
        }
    }
}

proof fn lemma_staged_le_known(ps: Seq<Seq<char>>, es: Seq<GitFileEntry>)
    ensures
        staged_of(ps, es).len() <= known_count(ps, es),
        known_count(ps, es) <= ps.len(),
    decreases ps.len(),
{
    if ps.len() > 0 {
        lemma_staged_le_known(ps.drop_last(), es);
    }
}

/// What toggling the stage of the selection does: busy, nothing; no
/// selection, nothing; else the plan of the button `toggle_spec` picks.
pub fn toggle_stage_plan(has_repo: bool, busy: bool, paths: Vec<String>, entries: &Vec<GitFileEntry>) -> (r: FooterPlan)
    ensures
        plan_v(r) == (if busy {
            PlanV::Status("Busy"@)
        } else if paths@.len() == 0 {
            PlanV::Status("No selection"@)
        } else {
            footer_spec(toggle_spec(strs(paths@), entries@), has_repo, busy, strs(paths@), entries@)
        }),
{
    if busy {
        return status("Busy");
    }
    if paths.len() == 0 {
        return status("No selection");
    }
    let mut known: usize = 0;
    let mut staged: usize = 0;
    let mut i: usize = 0;
    while i < paths.len()
        invariant
            i <= paths.len(),
            known == known_count(strs(paths@).take(i as int), entries@),
            staged == staged_of(strs(paths@).take(i as int), entries@).len(),
        decreases paths.len() - i,
    {
        proof {
            assert(strs(paths@).take(i + 1).drop_last() == strs(paths@).take(i as int));
            lemma_staged_le_known(strs(paths@).take(i as int), entries@);
        }
        match find_entry(entries, paths[i].as_str()) {
            Some(k) => {
                known = known + 1;
                let x = entries[k].x;
                if x != ' ' && x != '?' {
                    staged = staged + 1;
                }
            },
            None => {},
        }
        i = i + 1;
    }
    assert(strs(paths@).take(paths@.len() as int) == strs(paths@));
    let action = if known > 0 && staged == known {
        GitFooterAction::Unstage
    } else {
        GitFooterAction::Stage
    };
    footer_plan(action, has_repo, busy, paths, entries)
}

/// The command a confirmed discard of `n` paths is logged as.
pub fn discard_command(n: usize) -> (r: String)
    ensures
        r@ == "discard ("@ + decimal(n as nat) + ")"@,
{
    let mut s = String::new();
    push_str(&mut s, "discard (");
    push_decimal(&mut s, n as u64);
    push_str(&mut s, ")");
    s
}

/// The failure of discarding `path`: the path, a colon, and the error.
pub fn discard_failure(path: &str, err: &str) -> (r: String)
    ensures
        r@ == path@ + ": "@ + err@,
{
    let mut s = String::new();
    push_str(&mut s, path);
    push_str(&mut s, ": ");
    push_str(&mut s, err);
    s
}

/// The command that marks the conflicted file `path` resolved: staging it.
pub fn resolve_command(path: &str) -> (r: String)
    ensures
        r@ == "git add -- "@ + path@,
{
    let mut s = String::new();
    push_str(&mut s, "git add -- ");
    push_str(&mut s, path);
    s
}

} // verus!
