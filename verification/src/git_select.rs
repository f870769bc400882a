//! Marking files in the git panel: a click on a file of the list or the
//! tree (alone, with shift for a range, with control to toggle), a click on
//! a section, and marking all the files listed.
use vstd::prelude::*;
use crate::git::{FlatNodeType, FlatTreeItem, GitFileEntry, GitSection, GitState, dir_key, is_change, section_index};
use crate::git_actions::{FooterPlan, GitFooterAction, footer_plan, footer_spec, plan_v};
use crate::git::{selected_paths_spec, file_item_has_path};
use crate::text::{str_eq, strs};

verus! {

broadcast use vstd::string::group_string_axioms;

/// The paths of the listed entries on rows `a..=b` of `filtered` (rows
/// past the list, or pointing past the entries, give none).
pub open spec fn list_range_paths(filtered: Seq<usize>, es: Seq<GitFileEntry>, a: int, b: int) -> Seq<
    Seq<char>,
>
    decreases b - a + 1,
{
    if b < a {
        Seq::empty()
    } else {
        let r = list_range_paths(filtered, es, a, b - 1);
        if 0 <= b < filtered.len() && filtered[b] < es.len() {
            r.push(es[filtered[b] as int].path@)
        } else {
            r
        }
    }
}

/// The paths of the file items on rows `a..=b` of the tree.
pub open spec fn tree_range_paths(flat: Seq<FlatTreeItem>, es: Seq<GitFileEntry>, a: int, b: int) -> Seq<
    Seq<char>,
>
    decreases b - a + 1,
{
    if b < a {
        Seq::empty()
    } else {
        let r = tree_range_paths(flat, es, a, b - 1);
        if 0 <= b < flat.len() && flat[b].node_type == FlatNodeType::File && flat[b].entry_idx
            is Some && flat[b].entry_idx.unwrap() < es.len() {
            r.push(es[flat[b].entry_idx.unwrap() as int].path@)
        } else {
            r
        }
    }
}

/// `s` without the texts equal to `p`.
pub open spec fn without_text(s: Seq<Seq<char>>, p: Seq<char>) -> Seq<Seq<char>>
    decreases s.len(),
{
    if s.len() == 0 {
        Seq::empty()
    } else {
        let r = without_text(s.drop_last(), p);
        if s.last() == p {
            r
        } else {
            r.push(s.last())
        }
    }
}

/// The marks `s` with `p` toggled: dropped when marked, else added.
pub open spec fn toggled(s: Seq<Seq<char>>, p: Seq<char>) -> Seq<Seq<char>> {
    if s.contains(p) {
        without_text(s, p)
    } else {
        s.push(p)
    }
}

/// The range from `anchor` (or `idx` without one) to `idx`, lower end first.
pub open spec fn span(anchor: Option<usize>, idx: usize) -> (int, int) {
    let a: int = match anchor {
        Some(x) => x as int,
        None => idx as int,
    };
    if a <= idx {
        (a, idx as int)
    } else {
        (idx as int, a)
    }
}

/// Whether the marks `s` hold the text `p`.
fn marked(s: &Vec<String>, p: &str) -> (r: bool)
    ensures
        r == strs(s@).contains(p@),
{
    let mut i: usize = 0;
    while i < s.len()
        invariant
            i <= s.len(),
            forall|j: int| 0 <= j < i ==> strs(s@)[j] != p@,
        decreases s.len() - i,
    {
        if str_eq(s[i].as_str(), p) {
            assert(strs(s@)[i as int] == p@);
            return true;
        }
        i = i + 1;
    }
    false
}

/// The marks `s` without `p`.
fn unmark(s: &Vec<String>, p: &str) -> (r: Vec<String>)
    ensures
        strs(r@) == without_text(strs(s@), p@),
{
    let mut r: Vec<String> = Vec::new();
    let mut i: usize = 0;
    while i < s.len()
        invariant
            i <= s.len(),
            strs(r@) == without_text(strs(s@).take(i as int), p@),
        decreases s.len() - i,
    {
        assert(strs(s@).take(i + 1).drop_last() == strs(s@).take(i as int));
        if !str_eq(s[i].as_str(), p) {
            let ghost before = r@;
            r.push(s[i].clone());
            assert(strs(r@) == strs(before).push(s@[i as int]@));
        }
        i = i + 1;
    }
    assert(strs(s@).take(s@.len() as int) == strs(s@));
    r
}

/// The marks `s` with `p` toggled.
fn toggle_mark(s: &mut Vec<String>, p: &String)
    ensures
        strs(final(s)@) == toggled(strs(old(s)@), p@),
{
    if marked(s, p.as_str()) {
        let r = unmark(s, p.as_str());
        *s = r;
    } else {
        let ghost before = s@;
        s.push(p.clone());
        assert(strs(s@) == strs(before).push(p@));
    }
}

impl GitState {
    /// A click on row `idx` of the file list: the row is selected; then,
    /// when it shows an entry, shift marks the rows from the anchor (or
    /// the row) to it, control toggles the row's mark and anchors there,
    /// and a plain click marks the row alone and anchors there.
    pub fn click_file(&mut self, idx: usize, shift: bool, ctrl: bool)
        ensures
            final(self).list_selected == Some(idx),
            final(self).entries@ == old(self).entries@,
            final(self).filtered@ == old(self).filtered@,
            ({
                let fs = old(self).filtered@;
                let es = old(self).entries@;
                let shown = idx < fs.len() && fs[idx as int] < es.len();
                let p = es[fs[idx as int] as int].path@;
                let (a, b) = span(old(self).selection_anchor, idx);
                if !shown {
                    final(self).selected_paths@ == old(self).selected_paths@
                        && final(self).selection_anchor == old(self).selection_anchor
                } else if shift {
                    strs(final(self).selected_paths@) == list_range_paths(fs, es, a, b)
                        && final(self).selection_anchor == old(self).selection_anchor
                } else if ctrl {
                    strs(final(self).selected_paths@) == toggled(strs(old(self).selected_paths@), p)
                        && final(self).selection_anchor == Some(idx)
                } else {
                    strs(final(self).selected_paths@) == seq![p] && final(self).selection_anchor
                        == Some(idx)
                }
            }),
    {
        self.select_filtered(idx);
        if idx >= self.filtered.len() {
            return;
        }
        let abs = self.filtered[idx];
        if abs >= self.entries.len() {
            return;
        }
        if shift {
            let anchor = match self.selection_anchor {
                Some(x) => x,
                None => idx,
            };
            let (a, b) = if anchor <= idx {
                (anchor, idx)
            } else {
                (idx, anchor)
            };
            let mut marks: Vec<String> = Vec::new();
            let mut i: usize = a;
            assert(strs(marks@) == list_range_paths(self.filtered@, self.entries@, a as int, a - 1));
            loop
                invariant_except_break
                    a <= i <= b,
                    strs(marks@) == list_range_paths(self.filtered@, self.entries@, a as int, i - 1),
                ensures
                    strs(marks@) == list_range_paths(self.filtered@, self.entries@, a as int, b as int),
                decreases b - i,
            {
                if i < self.filtered.len() {
                    let k = self.filtered[i];
                    if k < self.entries.len() {
                        let ghost before = marks@;
                        marks.push(self.entries[k].path.clone());
                        assert(strs(marks@) == strs(before).push(self.entries@[k as int].path@));
                    }
                }
                if i == b {
                    break;
                }
                i = i + 1;
            }
            self.selected_paths = marks;
        } else if ctrl {
            let p = self.entries[abs].path.clone();
            toggle_mark(&mut self.selected_paths, &p);
            self.selection_anchor = Some(idx);
        } else {
            let mut marks: Vec<String> = Vec::new();
            marks.push(self.entries[abs].path.clone());
            assert(strs(marks@) == seq![self.entries@[abs as int].path@]);
            self.selected_paths = marks;
            self.selection_anchor = Some(idx);
        }
    }
}

/// Which of the listed files a bulk mark takes.
#[derive(Clone, Copy, Debug, PartialEq, Eq, Structural)]
pub enum Marking {
    /// Every listed file.
    All,
    /// The listed files that are not conflicts.
    Unconflicted,
    /// The listed files with staged changes.
    Staged,
}

pub open spec fn takes(which: Marking, e: GitFileEntry) -> bool {
    match which {
        Marking::All => true,
        Marking::Unconflicted => !e.is_conflict,
        Marking::Staged => is_change(e.x),
    }
}

/// The paths of the listed entries that `which` takes, in list order.
pub open spec fn visible_paths(fs: Seq<usize>, es: Seq<GitFileEntry>, which: Marking) -> Seq<Seq<char>>
    decreases fs.len(),
{
    if fs.len() == 0 {
        Seq::empty()
    } else {
        let r = visible_paths(fs.drop_last(), es, which);
        let k = fs.last();
        if k < es.len() && takes(which, es[k as int]) {
            r.push(es[k as int].path@)
        } else {
            r
        }
    }
}

impl GitState {
    /// A click on row `idx` of the tree: the row is selected; a section or
    /// directory is expanded or collapsed (the result is `false`); a file
    /// row with an entry is marked as in the list (shift marks the file
    /// rows from the anchor to it; control toggles its mark and anchors
    /// there; a plain click clears the marks and anchors there), and the
    /// result is `true`: its diff is due.
    pub fn click_tree_item(&mut self, idx: usize, shift: bool, ctrl: bool) -> (diff: bool)
        ensures
            idx < old(self).flat_tree@.len() && old(self).flat_tree@[idx as int].node_type
                == FlatNodeType::File ==> final(self).tree_selected == Some(idx),
            final(self).entries@ == old(self).entries@,
            ({
                let flat = old(self).flat_tree@;
                let es = old(self).entries@;
                if idx >= flat.len() {
                    !diff && final(self).selected_paths@ == old(self).selected_paths@
                        && final(self).selection_anchor == old(self).selection_anchor
                        && final(self).tree_selected == old(self).tree_selected
                } else {
                    let item = flat[idx as int];
                    match item.node_type {
                        FlatNodeType::Section => !diff && final(self).section_expanded@ == old(
                            self,
                        ).section_expanded@.update(
                            section_index(item.section),
                            !old(self).section_expanded@[section_index(item.section)],
                        ) && final(self).selected_paths@ == old(self).selected_paths@,
                        FlatNodeType::Directory => !diff && (forall|x: Seq<char>|
                            strs(final(self).dir_collapsed@).contains(x) <==> (if strs(
                                old(self).dir_collapsed@,
                            ).contains(dir_key(item.section, item.path@)) {
                                strs(old(self).dir_collapsed@).contains(x) && x != dir_key(
                                    item.section,
                                    item.path@,
                                )
                            } else {
                                strs(old(self).dir_collapsed@).contains(x) || x == dir_key(
                                    item.section,
                                    item.path@,
                                )
                            })) && final(self).selected_paths@ == old(self).selected_paths@,
                        FlatNodeType::File => {
                            let shown = item.entry_idx is Some && item.entry_idx.unwrap()
                                < es.len();
                            let (a, b) = span(old(self).selection_anchor, idx);
                            if !shown {
                                !diff && final(self).selected_paths@ == old(self).selected_paths@
                                    && final(self).selection_anchor == old(self).selection_anchor
                            } else if shift {
                                diff && strs(final(self).selected_paths@) == tree_range_paths(
                                    flat,
                                    es,
                                    a,
                                    b,
                                ) && final(self).selection_anchor == old(self).selection_anchor
                            } else if ctrl {
                                diff && strs(final(self).selected_paths@) == toggled(
                                    strs(old(self).selected_paths@),
                                    es[item.entry_idx.unwrap() as int].path@,
                                ) && final(self).selection_anchor == Some(idx)
                            } else {
                                diff && final(self).selected_paths@.len() == 0
                                    && final(self).selection_anchor == Some(idx)
                            }
                        },
                    }
                }
            }),
    {
        self.select_tree(idx);
        if idx >= self.flat_tree.len() {
            return false;
        }
        let node_type = self.flat_tree[idx].node_type;
        match node_type {
            FlatNodeType::Section | FlatNodeType::Directory => {
                self.toggle_tree_expand();
                false
            },
            FlatNodeType::File => {
                let e = match self.flat_tree[idx].entry_idx {
                    Some(e) => e,
                    None => {
                        return false;
                    },
                };
                if e >= self.entries.len() {
                    return false;
                }
                if shift {
                    let anchor = match self.selection_anchor {
                        Some(x) => x,
                        None => idx,
                    };
                    let (a, b) = if anchor <= idx {
                        (anchor, idx)
                    } else {
                        (idx, anchor)
                    };
                    let mut marks: Vec<String> = Vec::new();
                    let mut i: usize = a;
                    assert(strs(marks@) == tree_range_paths(self.flat_tree@, self.entries@, a as int, a - 1));
                    loop
                        invariant_except_break
                            a <= i <= b,
                            strs(marks@) == tree_range_paths(self.flat_tree@, self.entries@, a as int, i - 1),
                        ensures
                            strs(marks@) == tree_range_paths(self.flat_tree@, self.entries@, a as int, b as int),
                        decreases b - i,
                    {
                        if i < self.flat_tree.len() && self.flat_tree[i].node_type == FlatNodeType::File {
                            match self.flat_tree[i].entry_idx {
                                Some(k) => {
                                    if k < self.entries.len() {
                                        let ghost before = marks@;
                                        marks.push(self.entries[k].path.clone());
                                        assert(strs(marks@) == strs(before).push(self.entries@[k as int].path@));
                                    }
                                },
                                None => {},
                            }
                        }
                        if i == b {
                            break;
                        }
                        i = i + 1;
                    }
                    self.selected_paths = marks;
                } else if ctrl {
                    let p = self.entries[e].path.clone();
                    toggle_mark(&mut self.selected_paths, &p);
                    self.selection_anchor = Some(idx);
                } else {
                    self.selected_paths = Vec::new();
                    self.selection_anchor = Some(idx);
                }
                true
            },
        }
    }

    /// A click on a section: it is shown, and the marks and the anchor are
    /// cleared.
    pub fn click_section(&mut self, section: GitSection)
        ensures
            final(self).section == section,
            final(self).selected_paths@.len() == 0,
            final(self).selection_anchor is None,
            final(self).entries@ == old(self).entries@,
    {
        self.set_section(section);
        self.selected_paths = Vec::new();
        self.selection_anchor = None;
    }

    /// Marks exactly the listed files that `which` takes.
    pub fn mark_visible(&mut self, which: Marking)
        ensures
            strs(final(self).selected_paths@) == visible_paths(old(self).filtered@, old(self).entries@, which),
            final(self).filtered@ == old(self).filtered@,
            final(self).entries@ == old(self).entries@,
            final(self).selection_anchor == old(self).selection_anchor,
            final(self).list_selected == old(self).list_selected,
            final(self).tree_selected == old(self).tree_selected,
            final(self).flat_tree@ == old(self).flat_tree@,
    {
        let mut marks: Vec<String> = Vec::new();
        let mut i: usize = 0;
        while i < self.filtered.len()
            invariant
                i <= self.filtered.len(),
                strs(marks@) == visible_paths(self.filtered@.take(i as int), self.entries@, which),
            decreases self.filtered.len() - i,
        {
            assert(self.filtered@.take(i + 1).drop_last() == self.filtered@.take(i as int));
            let k = self.filtered[i];
            if k < self.entries.len() {
                let e = &self.entries[k];
                let take = match which {
                    Marking::All => true,
                    Marking::Unconflicted => !e.is_conflict,
                    Marking::Staged => e.x != ' ' && e.x != '?',
                };
                if take {
                    let ghost before = marks@;
                    marks.push(e.path.clone());
                    assert(strs(marks@) == strs(before).push(e.path@));
                }
            }
            i = i + 1;
        }
        assert(self.filtered@.take(self.filtered@.len() as int) == self.filtered@);
        self.selected_paths = marks;
    }

    /// Marks every listed file, anchors on the first row and selects it
    /// when there is one.
    pub fn select_all_filtered(&mut self)
        ensures
            strs(final(self).selected_paths@) == visible_paths(old(self).filtered@, old(self).entries@, Marking::All),
            final(self).selection_anchor == Some(0usize),
            final(self).list_selected == (if old(self).filtered@.len() > 0 {
                Some(0usize)
            } else {
                old(self).list_selected
            }),
            final(self).entries@ == old(self).entries@,
            final(self).filtered@ == old(self).filtered@,
    {
        self.mark_visible(Marking::All);
        self.selection_anchor = Some(0);
        if self.filtered.len() > 0 {
            self.list_selected = Some(0);
        }
    }

    /// Marks the listed files that are not conflicts and plans staging the
    /// selection.
    pub fn stage_all_visible(&mut self, has_repo: bool, busy: bool) -> (r: FooterPlan)
        ensures
            strs(final(self).selected_paths@) == visible_paths(old(self).filtered@, old(self).entries@, Marking::Unconflicted),
            plan_v(r) == footer_spec(
                GitFooterAction::Stage,
                has_repo,
                busy,
                selected_paths_spec(final(self).selected_paths@, final(self).tree_selected, final(self).flat_tree@, final(self).entries@),
                final(self).entries@,
            ),
            final(self).entries@ == old(self).entries@,
    {
        self.mark_visible(Marking::Unconflicted);
        let paths = self.selected_tree_paths();
        footer_plan(GitFooterAction::Stage, has_repo, busy, paths, &self.entries)
    }

    /// Marks the listed files with staged changes and plans unstaging the
    /// selection.
    pub fn unstage_all_visible(&mut self, has_repo: bool, busy: bool) -> (r: FooterPlan)
        ensures
            strs(final(self).selected_paths@) == visible_paths(old(self).filtered@, old(self).entries@, Marking::Staged),
            plan_v(r) == footer_spec(
                GitFooterAction::Unstage,
                has_repo,
                busy,
                selected_paths_spec(final(self).selected_paths@, final(self).tree_selected, final(self).flat_tree@, final(self).entries@),
                final(self).entries@,
            ),
            final(self).entries@ == old(self).entries@,
    {
        self.mark_visible(Marking::Staged);
        let paths = self.selected_tree_paths();
        footer_plan(GitFooterAction::Unstage, has_repo, busy, paths, &self.entries)
    }
}

/// The entry shown by tree row `sel`, if any.
pub open spec fn tree_entry(sel: Option<usize>, flat: Seq<FlatTreeItem>, es: Seq<GitFileEntry>) -> Option<GitFileEntry> {
    match sel {
        Some(i) => if i < flat.len() {
            match flat[i as int].entry_idx {
                Some(e) => if e < es.len() {
                    Some(es[e as int])
                } else {
                    None
                },
                None => None,
            }
        } else {
            None
        },
        None => None,
    }
}

/// The first file row of `flat`, if any.
pub open spec fn is_first_file(flat: Seq<FlatTreeItem>, i: int) -> bool {
    &&& 0 <= i < flat.len()
    &&& flat[i].node_type == FlatNodeType::File
    &&& forall|j: int| 0 <= j < i ==> #[trigger] flat[j].node_type != FlatNodeType::File
}

/// The first file row of `flat` showing path `p`.
pub open spec fn is_first_with_path(flat: Seq<FlatTreeItem>, es: Seq<GitFileEntry>, p: Seq<char>, i: int) -> bool {
    &&& 0 <= i < flat.len()
    &&& file_item_has_path(flat[i], es, p)
    &&& forall|j: int| 0 <= j < i ==> !file_item_has_path(#[trigger] flat[j], es, p)
}

impl GitState {
    /// After a refresh rebuilt the tree: selects again the file row of the
    /// path selected before (`prev`), else the first file row, else nothing.
    /// The result says whether the selection shows an entry, whose diff is
    /// then due; else the diff empties and its generation moves on.
    pub fn restore_selection(&mut self, prev: Option<String>) -> (diff_due: bool)
        ensures
            final(self).flat_tree@ == old(self).flat_tree@,
            final(self).entries@ == old(self).entries@,
            ({
                let flat = old(self).flat_tree@;
                let es = old(self).entries@;
                let by_path = prev is Some && exists|i: int|
                    0 <= i < flat.len() && #[trigger] file_item_has_path(flat[i], es, prev->0@);
                let any_file = exists|i: int|
                    0 <= i < flat.len() && #[trigger] flat[i].node_type == FlatNodeType::File;
                &&& by_path ==> final(self).tree_selected is Some && is_first_with_path(
                    flat,
                    es,
                    prev->0@,
                    final(self).tree_selected->0 as int,
                )
                &&& !by_path && any_file ==> final(self).tree_selected is Some && is_first_file(
                    flat,
                    final(self).tree_selected->0 as int,
                )
                &&& !by_path && !any_file ==> final(self).tree_selected is None
            }),
            diff_due == tree_entry(final(self).tree_selected, final(self).flat_tree@, final(self).entries@) is Some,
            !diff_due ==> final(self).diff_lines@.len() == 0 && final(self).diff_generation
                == old(self).diff_generation.wrapping_add(1),
            diff_due ==> final(self).diff_lines@ == old(self).diff_lines@ && final(self).diff_generation
                == old(self).diff_generation,
    {
        self.tree_selected = None;
        let found = match prev {
            Some(p) => self.select_by_path(p.as_str()),
            None => false,
        };
        if !found {
            self.select_first_file();
        }
        let due = self.selected_tree_entry().is_some();
        if !due {
            self.diff_lines = Vec::new();
            self.diff_generation = self.diff_generation.wrapping_add(1);
        }
        due
    }
}

} // verus!
