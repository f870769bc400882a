//! The git panel: file entries from `git status`, their section tree, the
//! diff shown for a file, its hunks and change blocks, and the rendering of
//! side-by-side cells.
use vstd::prelude::*;
use crate::diff::side_by_side::{
    bump, count_new_side, count_old_side, hunk_header_spec, lemma_side_counts_le, numbered,
    parse_hunk_header,
};
use crate::diff::width::{
    char_w, char_width, width_of_chars, kept, pad_spec_as, pad_to_width_as, slice_chars_as, slice_spec_as,
    text_width, truncate_spec_as, truncate_to_width_as, width_bounded,
};
use crate::text::{
    is_whitespace, is_ws, lemma_trim_end_at, skip_ws, skip_ws_back, string_of, trim_end,
    chars_of, has_prefix, push_chars, push_decimal, push_repeat, push_str, repeat_char, str_starts_with,
    string_from, strs, decimal, lemma_decimal_len, find_sub, text_lt, parse_u32, split_char,
    starts_with_at, trim, keep_some,
};

verus! {

broadcast use vstd::string::group_string_axioms;

#[derive(Clone, Copy, Debug, PartialEq, Eq, PartialOrd, Ord, Structural)]
pub enum GitSection {
    Staged,
    Working,
    Untracked,
    Conflicts,
}

/// Type of node in the flattened tree view.
#[derive(Clone, Copy, Debug, PartialEq, Eq, Structural)]
pub enum FlatNodeType {
    Section,
    Directory,
    File,
}

/// One visible item of the tree view.
#[derive(Clone, Debug)]
pub struct FlatTreeItem {
    pub depth: usize,
    pub node_type: FlatNodeType,
    pub expanded: bool,
    pub entry_idx: Option<usize>,
    pub name: String,
    pub path: String,
    pub section: GitSection,
}

#[derive(Clone, Copy, Debug, PartialEq, Eq, Structural)]
pub enum GitDiffMode {
    SideBySide,
    Unified,
}

/// A hunk of a diff, with the rows where it starts in each view.
#[derive(Clone, Debug)]
pub struct DiffHunk {
    /// Display row where the hunk starts in the unified view.
    pub display_row: usize,
    /// Display row of the hunk header in the side-by-side view.
    pub sbs_display_row: usize,
    /// The file header lines, then the hunk's own lines.
    pub lines: Vec<String>,
}

/// A run of deleted and added lines that can be reverted together.
#[derive(Clone, Debug)]
pub struct ChangeBlock {
    /// Side-by-side display row of the block's first line.
    pub display_row: usize,
    /// File path the block belongs to.
    pub file_path: String,
    /// Line number in the new file where the block starts (1-based).
    pub new_start: u32,
    /// Lines of the new file (additions to remove).
    pub new_lines: Vec<String>,
    /// Lines of the old file (deletions to restore).
    pub old_lines: Vec<String>,
}

#[derive(Clone, Debug)]
pub struct GitFileEntry {
    pub path: String,
    pub x: char,
    pub y: char,
    pub is_untracked: bool,
    pub is_conflict: bool,
    pub renamed_from: Option<String>,
}

#[derive(Clone, Copy, Debug, PartialEq, Eq, Structural)]
pub enum GitDiffCellKind {
    Context,
    Delete,
    Add,
    Empty,
}

#[derive(Clone, Debug)]
pub struct GitDiffCell {
    pub line_no: Option<u32>,
    pub text: String,
    pub kind: GitDiffCellKind,
}

#[derive(Clone, Debug)]
pub enum GitDiffRow {
    Meta(String),
    Split { old: GitDiffCell, new: GitDiffCell },
}

/// What a cell shows.
pub struct CellView {
    pub line_no: Option<u32>,
    pub text: Seq<char>,
    pub kind: GitDiffCellKind,
}

pub enum RowView {
    Meta(Seq<char>),
    Split { old: CellView, new: CellView },
}

impl View for GitDiffCell {
    type V = CellView;

    open spec fn view(&self) -> CellView {
        CellView { line_no: self.line_no, text: self.text@, kind: self.kind }
    }
}

impl View for GitDiffRow {
    type V = RowView;

    open spec fn view(&self) -> RowView {
        match self {
            GitDiffRow::Meta(t) => RowView::Meta(t@),
            GitDiffRow::Split { old, new } => RowView::Split { old: old@, new: new@ },
        }
    }
}

pub open spec fn row_views(r: Seq<GitDiffRow>) -> Seq<RowView> {
    r.map_values(|x: GitDiffRow| x@)
}

// ---------------------------------------------------------------------------
// Side-by-side rows
// ---------------------------------------------------------------------------

pub open spec fn no_cell() -> CellView {
    CellView { line_no: None, text: Seq::empty(), kind: GitDiffCellKind::Empty }
}

/// Row `i` of a run of changes: the `i`-th deleted line on the left and the
/// `i`-th added line on the right, an empty cell where a side has run out.
pub open spec fn change_row(
    del: Seq<(u32, Seq<char>)>,
    add: Seq<(u32, Seq<char>)>,
    i: int,
) -> RowView {
    RowView::Split {
        old: if i < del.len() {
            CellView { line_no: Some(del[i].0), text: del[i].1, kind: GitDiffCellKind::Delete }
        } else {
            no_cell()
        },
        new: if i < add.len() {
            CellView { line_no: Some(add[i].0), text: add[i].1, kind: GitDiffCellKind::Add }
        } else {
            no_cell()
        },
    }
}

/// The rows of a run of changes: as many as the longer side has lines.
pub open spec fn change_rows(del: Seq<(u32, Seq<char>)>, add: Seq<(u32, Seq<char>)>) -> Seq<
    RowView,
> {
    let n = if del.len() >= add.len() {
        del.len()
    } else {
        add.len()
    };
    Seq::new(n, |i: int| change_row(del, add, i))
}

/// The state of the row builder between lines.
pub struct RowsAcc {
    pub rows: Seq<RowView>,
    pub old_line: Option<u32>,
    pub new_line: Option<u32>,
    pub del: Seq<(u32, Seq<char>)>,
    pub add: Seq<(u32, Seq<char>)>,
}

pub open spec fn rows_flushed(acc: RowsAcc) -> Seq<RowView> {
    acc.rows + change_rows(acc.del, acc.add)
}

/// Header lines shown as they are.
pub open spec fn is_header_line(l: Seq<char>) -> bool {
    ||| has_prefix(l, "diff --git "@)
    ||| has_prefix(l, "index "@)
    ||| has_prefix(l, "--- "@)
    ||| has_prefix(l, "+++ "@)
    ||| has_prefix(l, "rename "@)
    ||| has_prefix(l, "new file "@)
    ||| has_prefix(l, "deleted file "@)
    ||| has_prefix(l, "similarity index "@)
    ||| has_prefix(l, "Binary files "@)
    ||| has_prefix(l, "\\ No newline"@)
}

/// One diff line: headers, hunk headers and unknown lines flush the pending
/// changes and show as they are (a hunk header also sets the line numbers);
/// a context line flushes and shows on both sides; `-` and `+` lines wait,
/// numbered from the current line numbers (0 before any hunk header);
/// empty lines are skipped.
pub open spec fn rows_step(acc: RowsAcc, line: Seq<char>) -> RowsAcc {
    let meta = RowsAcc {
        rows: rows_flushed(acc).push(RowView::Meta(line)),
        del: Seq::empty(),
        add: Seq::empty(),
        ..acc
    };
    if is_header_line(line) {
        meta
    } else if has_prefix(line, "@@"@) {
        match hunk_header_spec(line) {
            Some((o, n)) => RowsAcc { old_line: Some(o), new_line: Some(n), ..meta },
            None => meta,
        }
    } else if line.len() == 0 {
        acc
    } else if line[0] == ' ' {
        let text = line.drop_first();
        RowsAcc {
            rows: rows_flushed(acc).push(
                RowView::Split {
                    old: CellView {
                        line_no: acc.old_line,
                        text,
                        kind: GitDiffCellKind::Context,
                    },
                    new: CellView {
                        line_no: acc.new_line,
                        text,
                        kind: GitDiffCellKind::Context,
                    },
                },
            ),
            old_line: bump(acc.old_line),
            new_line: bump(acc.new_line),
            del: Seq::empty(),
            add: Seq::empty(),
        }
    } else if line[0] == '-' {
        RowsAcc {
            old_line: bump(acc.old_line),
            del: acc.del.push(
                (
                    match acc.old_line {
                        Some(v) => v,
                        None => 0u32,
                    },
                    line.drop_first(),
                ),
            ),
            ..acc
        }
    } else if line[0] == '+' {
        RowsAcc {
            new_line: bump(acc.new_line),
            add: acc.add.push(
                (
                    match acc.new_line {
                        Some(v) => v,
                        None => 0u32,
                    },
                    line.drop_first(),
                ),
            ),
            ..acc
        }
    } else {
        meta
    }
}

pub open spec fn rows_fold(lines: Seq<Seq<char>>, k: int) -> RowsAcc
    decreases k,
{
    if k <= 0 {
        RowsAcc {
            rows: Seq::empty(),
            old_line: None,
            new_line: None,
            del: Seq::empty(),
            add: Seq::empty(),
        }
    } else {
        rows_step(rows_fold(lines, k - 1), lines[k - 1])
    }
}

/// The side-by-side rows of a unified diff.
pub open spec fn side_by_side_spec(lines: Seq<Seq<char>>) -> Seq<RowView> {
    rows_flushed(rows_fold(lines, lines.len() as int))
}

pub open spec fn pending_v(p: Seq<(u32, String)>) -> Seq<(u32, Seq<char>)> {
    p.map_values(|x: (u32, String)| (x.0, x.1@))
}

fn flush_pending(
    rows: &mut Vec<GitDiffRow>,
    pending_del: &mut Vec<(u32, String)>,
    pending_add: &mut Vec<(u32, String)>,
)
    ensures
        row_views(final(rows)@) == row_views(old(rows)@) + change_rows(
            pending_v(old(pending_del)@),
            pending_v(old(pending_add)@),
        ),
        final(pending_del)@.len() == 0,
        final(pending_add)@.len() == 0,
{
    let ghost del = pending_v(pending_del@);
    let ghost add = pending_v(pending_add@);
    let ghost base = row_views(rows@);
    let n = if pending_del.len() >= pending_add.len() {
        pending_del.len()
    } else {
        pending_add.len()
    };
    let mut i: usize = 0;
    while i < n
        invariant
            i <= n,
            n == (if del.len() >= add.len() {
                del.len()
            } else {
                add.len()
            }),
            del == pending_v(pending_del@),
            add == pending_v(pending_add@),
            row_views(rows@) == base + Seq::new(i as nat, |k: int| change_row(del, add, k)),
        decreases n - i,
    {
        let old = if i < pending_del.len() {
            GitDiffCell {
                line_no: Some(pending_del[i].0),
                text: pending_del[i].1.clone(),
                kind: GitDiffCellKind::Delete,
            }
        } else {
            GitDiffCell { line_no: None, text: String::new(), kind: GitDiffCellKind::Empty }
        };
        let new = if i < pending_add.len() {
            GitDiffCell {
                line_no: Some(pending_add[i].0),
                text: pending_add[i].1.clone(),
                kind: GitDiffCellKind::Add,
            }
        } else {
            GitDiffCell { line_no: None, text: String::new(), kind: GitDiffCellKind::Empty }
        };
        let row = GitDiffRow::Split { old, new };
        assert(row@ == change_row(del, add, i as int));
        let ghost before = rows@;
        rows.push(row);
        assert(row_views(rows@) == row_views(before).push(row@));
        i = i + 1;
        assert(row_views(rows@) == base + Seq::new(i as nat, |k: int| change_row(del, add, k)));
    }
    *pending_del = Vec::new();
    *pending_add = Vec::new();
}

fn push_git_row(rows: &mut Vec<GitDiffRow>, row: GitDiffRow)
    ensures
        row_views(final(rows)@) == row_views(old(rows)@).push(row@),
{
    rows.push(row);
    assert(row_views(rows@) =~= row_views(old(rows)@).push(row@));
}

fn next_line(x: Option<u32>) -> (r: Option<u32>)
    ensures
        r == bump(x),
{
    match x {
        Some(v) => Some(v.wrapping_add(1)),
        None => None,
    }
}

fn is_header(line: &str) -> (r: bool)
    ensures
        r == is_header_line(line@),
{
    str_starts_with(line, "diff --git ") || str_starts_with(line, "index ") || str_starts_with(
        line,
        "--- ",
    ) || str_starts_with(line, "+++ ") || str_starts_with(line, "rename ") || str_starts_with(
        line,
        "new file ",
    ) || str_starts_with(line, "deleted file ") || str_starts_with(line, "similarity index ")
        || str_starts_with(line, "Binary files ") || str_starts_with(line, "\\ No newline")
}

/// `line` without its first character.
fn after_marker(line: &str) -> (r: String)
    requires
        line@.len() > 0,
    ensures
        r@ == line@.drop_first(),
{
    let v = chars_of(line);
    let r = string_from(&v, 1, v.len());
    assert(v@.subrange(1, v@.len() as int) == line@.drop_first());
    r
}

/// The side-by-side rows of the lines of a unified diff.
pub fn build_side_by_side_rows(lines: &[String]) -> (rows: Vec<GitDiffRow>)
    ensures
        row_views(rows@) == side_by_side_spec(strs(lines@)),
{
    let ghost ls = strs(lines@);
    let mut rows: Vec<GitDiffRow> = Vec::new();
    let mut old_line: Option<u32> = None;
    let mut new_line: Option<u32> = None;
    let mut pending_del: Vec<(u32, String)> = Vec::new();
    let mut pending_add: Vec<(u32, String)> = Vec::new();
    let mut i: usize = 0;
    proof {
        assert(row_views(rows@) == Seq::<RowView>::empty());
        assert(pending_v(pending_del@) == Seq::<(u32, Seq<char>)>::empty());
        assert(pending_v(pending_add@) == Seq::<(u32, Seq<char>)>::empty());
    }
    while i < lines.len()
        invariant
            0 <= i <= lines.len(),
            ls == strs(lines@),
            rows_fold(ls, i as int) == (RowsAcc {
                rows: row_views(rows@),
                old_line,
                new_line,
                del: pending_v(pending_del@),
                add: pending_v(pending_add@),
            }),
        decreases lines.len() - i,
    {
        let line = &lines[i];
        let ghost l = line@;
        let ghost acc0 = rows_fold(ls, i as int);
        proof {
            assert(ls[i as int] == l);
            assert(rows_fold(ls, i + 1) == rows_step(acc0, l));
        }
        if is_header(line.as_str()) {
            flush_pending(&mut rows, &mut pending_del, &mut pending_add);
            push_git_row(&mut rows, GitDiffRow::Meta(line.clone()));
        } else if str_starts_with(line.as_str(), "@@") {
            flush_pending(&mut rows, &mut pending_del, &mut pending_add);
            push_git_row(&mut rows, GitDiffRow::Meta(line.clone()));
            match parse_hunk_header(line.as_str()) {
                Some((o, n)) => {
                    old_line = Some(o);
                    new_line = Some(n);
                },
                None => {},
            }
        } else if line.as_str().is_empty() {
        } else {
            let v = chars_of(line.as_str());
            let first = v[0];
            if first == ' ' {
                flush_pending(&mut rows, &mut pending_del, &mut pending_add);
                let text = after_marker(line.as_str());
                let text2 = text.clone();
                push_git_row(
                    &mut rows,
                    GitDiffRow::Split {
                        old: GitDiffCell {
                            line_no: old_line,
                            text,
                            kind: GitDiffCellKind::Context,
                        },
                        new: GitDiffCell {
                            line_no: new_line,
                            text: text2,
                            kind: GitDiffCellKind::Context,
                        },
                    },
                );
                old_line = next_line(old_line);
                new_line = next_line(new_line);
            } else if first == '-' {
                let ln = match old_line {
                    Some(v) => v,
                    None => 0,
                };
                old_line = next_line(old_line);
                let text = after_marker(line.as_str());
                let ghost before = pending_del@;
                pending_del.push((ln, text));
                assert(pending_v(pending_del@) == pending_v(before).push((ln, text@)));
            } else if first == '+' {
                let ln = match new_line {
                    Some(v) => v,
                    None => 0,
                };
                new_line = next_line(new_line);
                let text = after_marker(line.as_str());
                let ghost before = pending_add@;
                pending_add.push((ln, text));
                assert(pending_v(pending_add@) == pending_v(before).push((ln, text@)));
            } else {
                flush_pending(&mut rows, &mut pending_del, &mut pending_add);
                push_git_row(&mut rows, GitDiffRow::Meta(line.clone()));
            }
        }
        proof {
            if pending_del@.len() == 0 {
                assert(pending_v(pending_del@) == Seq::<(u32, Seq<char>)>::empty());
            }
            if pending_add@.len() == 0 {
                assert(pending_v(pending_add@) == Seq::<(u32, Seq<char>)>::empty());
            }
        }
        i = i + 1;
    }
    flush_pending(&mut rows, &mut pending_del, &mut pending_add);
    rows
}

// ---------------------------------------------------------------------------
// Cells
// ---------------------------------------------------------------------------

/// Columns taken by a cell's gutter (line number, marker, space).
pub open spec fn gutter_width() -> nat {
    6
}

pub open spec fn marker_of(kind: GitDiffCellKind) -> char {
    match kind {
        GitDiffCellKind::Add => '+',
        GitDiffCellKind::Delete => '-',
        _ => ' ',
    }
}

/// `d` right-aligned in `w` columns (`{:>w}`).
pub open spec fn right_aligned(d: Seq<char>, w: nat) -> Seq<char> {
    if d.len() < w {
        repeat_char(' ', (w - d.len()) as nat) + d
    } else {
        d
    }
}

/// The gutter of a cell: its line number right-aligned in four columns, its
/// marker and a space; six spaces when it has no line number.
pub open spec fn gutter_of(line_no: Option<u32>, kind: GitDiffCellKind) -> Seq<char> {
    match line_no {
        Some(n) => right_aligned(decimal(n as nat), 4) + seq![marker_of(kind), ' '],
        None => repeat_char(' ', 6),
    }
}

fn gutter(line_no: Option<u32>, kind: GitDiffCellKind) -> (r: String)
    ensures
        r@ == gutter_of(line_no, kind),
        r@.len() <= 12,
{
    let mut g = String::new();
    match line_no {
        Some(n) => {
            let mut d = String::new();
            push_decimal(&mut d, n as u64);
            let dv = chars_of(d.as_str());
            proof {
                lemma_decimal_len(n as nat);
            }
            if dv.len() < 4 {
                push_repeat(&mut g, ' ', 4 - dv.len());
            }
            push_chars(&mut g, &dv);
            let marker = match kind {
                GitDiffCellKind::Add => '+',
                GitDiffCellKind::Delete => '-',
                _ => ' ',
            };
            g.push(marker);
            g.push(' ');
            proof {
                if dv@.len() >= 4 {
                    assert(g@ == d@ + seq![marker_of(kind), ' ']);
                }
            }
        },
        None => {
            push_repeat(&mut g, ' ', 6);
        },
    }
    g
}

pub proof fn lemma_slice_len(s: Seq<char>, start: nat, max_len: nat, col: nat, taken: nat)
    ensures
        crate::diff::width::slice_from(s, start, max_len, col, taken, false).len() <= s.len(),
    decreases s.len(),
{
    if s.len() > 0 {
        lemma_slice_len(s.drop_first(), start, max_len, col + char_w(s[0]), taken);
        lemma_slice_len(s.drop_first(), start, max_len, col + char_w(s[0]), taken + char_w(s[0]));
    }
}

/// A cell rendered in `width` columns, its text scrolled by `scroll_x`
/// columns: the gutter, then the visible part of the text padded to the rest
/// of the width; only the gutter, cut to `width`, when the width leaves no
/// room for text.
pub open spec fn cell_spec(cell: CellView, width: nat, scroll_x: nat) -> Seq<char> {
    let g = gutter_of(cell.line_no, cell.kind);
    if width == 0 {
        Seq::empty()
    } else if width <= gutter_width() {
        truncate_spec_as(g, width, false)
    } else {
        let code_w = (width - gutter_width()) as nat;
        g + pad_spec_as(slice_spec_as(cell.text, scroll_x, code_w, false), code_w, false)
    }
}

pub fn render_side_by_side_cell(cell: &GitDiffCell, width: usize, scroll_x: usize) -> (r: String)
    requires
        width_bounded(cell.text@),
    ensures
        r@ == cell_spec(cell@, width as nat, scroll_x as nat),
{
    if width == 0 {
        return String::new();
    }
    let g = gutter(cell.line_no, cell.kind);
    if width <= 6 {
        return truncate_to_width_as(g.as_str(), width, false);
    }
    let code_w = width - 6;
    let code = slice_chars_as(cell.text.as_str(), scroll_x, code_w, false);
    proof {
        lemma_slice_len(cell.text@, scroll_x as nat, code_w as nat, 0, 0);
    }
    let padded = pad_to_width_as(code, code_w, false);
    let mut out = g;
    push_str(&mut out, padded.as_str());
    out
}

// ---------------------------------------------------------------------------
// Wrapping
// ---------------------------------------------------------------------------

/// Characters after which a line may be wrapped.
pub open spec fn is_wrap_break(c: char) -> bool {
    is_ws(c) || c == '-' || c == '/' || c == ',' || c == '.' || c == ';' || c == ':'
}

/// Scanning one wrapped line from character `j` with `wsum` columns taken:
/// where the line ends and the position after its last break character. The
/// line takes characters while they fit in `width` columns (always at least
/// one) and ends once it is full.
pub open spec fn wrap_scan(s: Seq<char>, j: nat, wsum: nat, lb: Option<nat>, width: nat) -> (
    nat,
    Option<nat>,
)
    decreases s.len() - j,
{
    if j >= s.len() {
        (j, lb)
    } else {
        let c = s[j as int];
        let lb2 = if is_wrap_break(c) {
            Some(j + 1)
        } else {
            lb
        };
        let w = char_w(c);
        if wsum > 0 && wsum + w > width {
            (j, lb2)
        } else if wsum + w >= width {
            (j + 1, lb2)
        } else {
            wrap_scan(s, j + 1, wsum + w, lb2, width)
        }
    }
}

pub proof fn lemma_wrap_scan(s: Seq<char>, j: nat, wsum: nat, lb: Option<nat>, width: nat)
    requires
        j < s.len(),
    ensures
        wrap_scan(s, j, wsum, lb, width).0 <= s.len(),
        wsum == 0 ==> wrap_scan(s, j, wsum, lb, width).0 > j,
        wrap_scan(s, j, wsum, lb, width).0 >= j,
    decreases s.len() - j,
{
    let c = s[j as int];
    let w = char_w(c);
    let lb2 = if is_wrap_break(c) {
        Some(j + 1)
    } else {
        lb
    };
    if !(wsum > 0 && wsum + w > width) && !(wsum + w >= width) {
        if j + 1 < s.len() {
            lemma_wrap_scan(s, j + 1, wsum + w, lb2, width);
        } else {
            assert(wrap_scan(s, j + 1, wsum + w, lb2, width).0 == j + 1);
        }
    }
}

/// The first index at or after `k` that is not white space.
pub open spec fn skip_ws_from(s: Seq<char>, k: nat) -> nat
    decreases s.len() - k,
{
    if k < s.len() && is_ws(s[k as int]) {
        skip_ws_from(s, k + 1)
    } else {
        k
    }
}

pub proof fn lemma_skip_ws_from(s: Seq<char>, k: nat)
    ensures
        skip_ws_from(s, k) >= k,
        k <= s.len() ==> skip_ws_from(s, k) <= s.len(),
    decreases s.len() - k,
{
    if k < s.len() && is_ws(s[k as int]) {
        lemma_skip_ws_from(s, k + 1);
    }
}

/// Where a wrapped line that ends at `j` is split: after its last break
/// character when there is one within it, else at `j`.
pub open spec fn split_point(i: nat, j: nat, lb: Option<nat>) -> nat {
    match lb {
        Some(b) => if i < b && b <= j {
            b
        } else {
            j
        },
        None => j,
    }
}

/// The wrapped lines of `s` from character `i` on, each without trailing
/// white space; white space at the start of a continuation line is dropped.
pub open spec fn wrap_from(s: Seq<char>, i: nat, width: nat) -> Seq<Seq<char>>
    decreases s.len() - i,
{
    if i >= s.len() {
        Seq::empty()
    } else {
        let sc = wrap_scan(s, i, 0, None, width);
        let j = sc.0;
        if j >= s.len() {
            seq![trim_end(s.subrange(i as int, s.len() as int))]
        } else {
            let sj = split_point(i, j, sc.1);
            proof {
                lemma_wrap_scan(s, i, 0, None, width);
                lemma_skip_ws_from(s, sj);
            }
            seq![trim_end(s.subrange(i as int, sj as int))] + wrap_from(s, skip_ws_from(s, sj), width)
        }
    }
}

/// `s` wrapped to `width` columns: as it is when it fits, one empty line for
/// a zero width.
pub open spec fn wrap_spec(s: Seq<char>, width: nat) -> Seq<Seq<char>> {
    if width == 0 {
        seq![Seq::empty()]
    } else if text_width(s) <= width {
        seq![s]
    } else {
        let r = wrap_from(s, 0, width);
        if r.len() == 0 {
            seq![Seq::empty()]
        } else {
            r
        }
    }
}

fn wrap_scan_exec(v: &Vec<char>, i: usize, width: usize) -> (r: (usize, Option<usize>))
    requires
        i < v.len(),
        width_bounded(v@),
    ensures
        r.0 as nat == wrap_scan(v@, i as nat, 0, None, width as nat).0,
        (match r.1 {
            Some(b) => Some(b as nat),
            None => None,
        }) == wrap_scan(v@, i as nat, 0, None, width as nat).1,
{
    let mut j = i;
    let mut wsum: usize = 0;
    let mut lb: Option<usize> = None;
    while j < v.len()
        invariant
            i <= j <= v.len(),
            width_bounded(v@),
            wsum <= 4 * (j - i),
            wrap_scan(v@, i as nat, 0, None, width as nat) == wrap_scan(
                v@,
                j as nat,
                wsum as nat,
                match lb {
                    Some(b) => Some(b as nat),
                    None => None,
                },
                width as nat,
            ),
        decreases v.len() - j,
    {
        let c = v[j];
        if is_whitespace(c) || c == '-' || c == '/' || c == ',' || c == '.' || c == ';' || c == ':' {
            lb = Some(j + 1);
        }
        let w = char_width(c);
        if wsum > 0 && wsum + w > width {
            return (j, lb);
        }
        wsum = wsum + w;
        j = j + 1;
        if wsum >= width {
            return (j, lb);
        }
    }
    (j, lb)
}

proof fn lemma_trim_end_len(s: Seq<char>)
    ensures
        trim_end(s).len() <= s.len(),
    decreases s.len(),
{
    if s.len() > 0 && is_ws(s.last()) {
        lemma_trim_end_len(s.drop_last());
    }
}

/// `v[lo..hi]` without trailing white space, as a string.
fn trimmed_end(v: &Vec<char>, lo: usize, hi: usize) -> (r: String)
    requires
        lo <= hi <= v.len(),
    ensures
        r@ == trim_end(v@.subrange(lo as int, hi as int)),
{
    let e = skip_ws_back(v, lo, hi);
    proof {
        lemma_trim_end_at(v@.subrange(lo as int, hi as int), e - lo);
        assert(v@.subrange(lo as int, hi as int).take(e - lo) == v@.subrange(lo as int, e as int));
    }
    string_from(v, lo, e)
}

fn wrap_chars(v: &Vec<char>, width: usize) -> (r: Vec<String>)
    requires
        width_bounded(v@),
        width > 0,
    ensures
        strs(r@) == wrap_from(v@, 0, width as nat),
{
    let n = v.len();
    let mut out: Vec<String> = Vec::new();
    let mut i: usize = 0;
    let ghost full = wrap_from(v@, 0, width as nat);
    assert(strs(out@) + full == full);
    while i < n
        invariant
            i <= n == v.len(),
            width_bounded(v@),
            full == wrap_from(v@, 0, width as nat),
            strs(out@) + wrap_from(v@, i as nat, width as nat) == full,
        decreases n - i,
    {
        let (j, lb) = wrap_scan_exec(v, i, width);
        proof {
            lemma_wrap_scan(v@, i as nat, 0, None, width as nat);
        }
        if j >= n {
            let seg = trimmed_end(v, i, n);
            let ghost before = out@;
            out.push(seg);
            assert(strs(out@) == strs(before).push(seg@));
            assert(wrap_from(v@, i as nat, width as nat) == seq![seg@]);
            assert(strs(before) + seq![seg@] == strs(out@));
            i = n;
            assert(wrap_from(v@, i as nat, width as nat) == Seq::<Seq<char>>::empty());
            assert(strs(out@) + Seq::<Seq<char>>::empty() == strs(out@));
        } else {
            let split_j = match lb {
                Some(b) => if i < b && b <= j {
                    b
                } else {
                    j
                },
                None => j,
            };
            let seg = trimmed_end(v, i, split_j);
            let ghost before = out@;
            out.push(seg);
            assert(strs(out@) == strs(before).push(seg@));
            let mut k = split_j;
            while k < n && is_whitespace(v[k])
                invariant
                    split_j <= k <= n == v.len(),
                    skip_ws_from(v@, split_j as nat) == skip_ws_from(v@, k as nat),
                decreases n - k,
            {
                k = k + 1;
            }
            proof {
                assert(wrap_from(v@, i as nat, width as nat) == seq![seg@] + wrap_from(
                    v@,
                    k as nat,
                    width as nat,
                ));
                assert(strs(before) + (seq![seg@] + wrap_from(v@, k as nat, width as nat))
                    == strs(out@) + wrap_from(v@, k as nat, width as nat));
            }
            i = k;
        }
    }
    assert(wrap_from(v@, i as nat, width as nat) == Seq::<Seq<char>>::empty());
    assert(strs(out@) + Seq::<Seq<char>>::empty() == strs(out@));
    out
}

/// `s` wrapped to `width` columns.
fn wrap_text_to_width(s: &str, width: usize) -> (r: Vec<String>)
    requires
        width_bounded(s@),
    ensures
        strs(r@) == wrap_spec(s@, width as nat),
{
    if width == 0 {
        let mut r: Vec<String> = Vec::new();
        r.push(String::new());
        assert(strs(r@) =~= seq![Seq::<char>::empty()]);
        return r;
    }
    let v = chars_of(s);
    assert(v@.subrange(0, v@.len() as int) == v@);
    let w = width_of_chars(&v, 0, v.len());
    if w <= width {
        let mut r: Vec<String> = Vec::new();
        r.push(string_of(&v));
        assert(strs(r@) =~= seq![s@]);
        return r;
    }
    let mut out = wrap_chars(&v, width);
    if out.len() == 0 {
        out.push(String::new());
        assert(strs(out@) =~= seq![Seq::<char>::empty()]);
    }
    out
}

/// Number of white-space characters at the start of `s`.
pub open spec fn indent_len(s: Seq<char>) -> nat
    decreases s.len(),
{
    if s.len() > 0 && is_ws(s[0]) {
        1 + indent_len(s.drop_first())
    } else {
        0
    }
}

proof fn lemma_indent_bound(s: Seq<char>)
    ensures
        indent_len(s) <= s.len(),
    decreases s.len(),
{
    if s.len() > 0 && is_ws(s[0]) {
        lemma_indent_bound(s.drop_first());
    }
}

proof fn lemma_indent_len(s: Seq<char>, k: int)
    requires
        0 <= k <= s.len(),
        forall|m: int| 0 <= m < k ==> is_ws(s[m]),
        k < s.len() ==> !is_ws(s[k]),
    ensures
        indent_len(s) == k,
    decreases k,
{
    if k > 0 {
        lemma_indent_len(s.drop_first(), k - 1);
    }
}

proof fn lemma_wrap_from_lens(s: Seq<char>, i: nat, width: nat)
    ensures
        forall|k: int|
            0 <= k < wrap_from(s, i, width).len() ==> #[trigger] wrap_from(s, i, width)[k].len()
                <= s.len(),
    decreases s.len() - i,
{
    if i < s.len() {
        let sc = wrap_scan(s, i, 0, None, width);
        lemma_wrap_scan(s, i, 0, None, width);
        if sc.0 >= s.len() {
            lemma_trim_end_len(s.subrange(i as int, s.len() as int));
        } else {
            let sj = split_point(i, sc.0, sc.1);
            lemma_skip_ws_from(s, sj);
            lemma_trim_end_len(s.subrange(i as int, sj as int));
            lemma_wrap_from_lens(s, skip_ws_from(s, sj), width);
            let rest = wrap_from(s, skip_ws_from(s, sj), width);
            assert forall|k: int| 0 <= k < wrap_from(s, i, width).len() implies #[trigger] wrap_from(
                s,
                i,
                width,
            )[k].len() <= s.len() by {
                if k > 0 {
                    assert(wrap_from(s, i, width)[k] == rest[k - 1]);
                }
            }
        }
    }
}

proof fn lemma_wrap_lens(s: Seq<char>, width: nat)
    ensures
        wrap_spec(s, width).len() >= 1,
        forall|k: int|
            0 <= k < wrap_spec(s, width).len() ==> #[trigger] wrap_spec(s, width)[k].len()
                <= s.len(),
{
    lemma_wrap_from_lens(s, 0, width);
}

/// The lines of a cell rendered in `width` columns, wrapped when `wrap` is
/// set: the text is wrapped to the room left of the code width by its
/// indentation (unless the indentation takes it all), every continuation
/// keeps the indentation, the first line has the gutter and the others six
/// spaces in its place, and each line's code is padded to the code width.
pub open spec fn cell_lines_spec(cell: CellView, width: nat, scroll_x: nat, wrap: bool) -> Seq<
    Seq<char>,
> {
    if width == 0 {
        seq![Seq::empty()]
    } else if !wrap {
        seq![cell_spec(cell, width, scroll_x)]
    } else if width <= gutter_width() {
        seq![truncate_spec_as(gutter_of(cell.line_no, cell.kind), width, false)]
    } else {
        let code_w = (width - gutter_width()) as nat;
        let k = indent_len(cell.text);
        let indent = cell.text.take(k as int);
        let iw0 = text_width(indent);
        let rest = if iw0 >= code_w {
            cell.text
        } else {
            cell.text.skip(k as int)
        };
        let iw: nat = if iw0 >= code_w {
            0
        } else {
            iw0
        };
        let segs = wrap_spec(rest, (code_w - iw) as nat);
        Seq::new(
            segs.len(),
            |idx: int|
                (if idx == 0 {
                    gutter_of(cell.line_no, cell.kind)
                } else {
                    repeat_char(' ', 6)
                }) + pad_spec_as(
                    if iw > 0 {
                        indent + segs[idx]
                    } else {
                        segs[idx]
                    },
                    code_w,
                    false,
                ),
        )
    }
}

/// The shape of a cell's lines: no columns give one empty line; unwrapped,
/// one line; wrapped with room past the gutter, at least one line, every
/// continuation starting with six spaces, and a single line when the text
/// fits the code width.
pub proof fn law_cell_lines_shape(cell: CellView, width: nat, scroll_x: nat, wrap: bool)
    ensures
        width == 0 ==> cell_lines_spec(cell, width, scroll_x, wrap) == seq![Seq::<char>::empty()],
        width > 0 && !wrap ==> cell_lines_spec(cell, width, scroll_x, wrap) == seq![
            cell_spec(cell, width, scroll_x),
        ],
        wrap && width > gutter_width() ==> {
            let ls = cell_lines_spec(cell, width, scroll_x, wrap);
            &&& ls.len() >= 1
            &&& forall|k: int| 1 <= k < ls.len() ==> has_prefix(#[trigger] ls[k], repeat_char(' ', 6))
            &&& text_width(cell.text) <= width - gutter_width() ==> ls.len() == 1
        },
{
    if wrap && width > gutter_width() {
        let code_w = (width - gutter_width()) as nat;
        let k = indent_len(cell.text);
        lemma_indent_bound(cell.text);
        let indent = cell.text.take(k as int);
        let iw0 = text_width(indent);
        let rest = if iw0 >= code_w {
            cell.text
        } else {
            cell.text.skip(k as int)
        };
        let iw: nat = if iw0 >= code_w {
            0
        } else {
            iw0
        };
        lemma_wrap_lens(rest, (code_w - iw) as nat);
        let ls = cell_lines_spec(cell, width, scroll_x, wrap);
        assert forall|j: int| 1 <= j < ls.len() implies has_prefix(#[trigger] ls[j], repeat_char(' ', 6)) by {
            let tail = pad_spec_as(
                if iw > 0 {
                    indent + wrap_spec(rest, (code_w - iw) as nat)[j]
                } else {
                    wrap_spec(rest, (code_w - iw) as nat)[j]
                },
                code_w,
                false,
            );
            assert(ls[j] == repeat_char(' ', 6) + tail);
            assert((repeat_char(' ', 6) + tail).take(6) == repeat_char(' ', 6));
        }
        if text_width(cell.text) <= code_w {
            crate::diff::width::law_width_additive(indent, cell.text.skip(k as int));
            assert(indent + cell.text.skip(k as int) == cell.text);
            assert(text_width(rest) <= (code_w - iw) as nat);
        }
    }
}

pub fn render_side_by_side_cell_lines(
    cell: &GitDiffCell,
    width: usize,
    scroll_x: usize,
    wrap: bool,
) -> (r: Vec<String>)
    requires
        width_bounded(cell.text@),
    ensures
        strs(r@) == cell_lines_spec(cell@, width as nat, scroll_x as nat, wrap),
{
    if width == 0 {
        let r = vec![String::new()];
        assert(strs(r@) =~= seq![Seq::<char>::empty()]);
        return r;
    }
    if !wrap {
        let line = render_side_by_side_cell(cell, width, scroll_x);
        let r = vec![line];
        assert(strs(r@) =~= seq![line@]);
        return r;
    }
    let g = gutter(cell.line_no, cell.kind);
    if width <= 6 {
        let line = truncate_to_width_as(g.as_str(), width, false);
        let r = vec![line];
        assert(strs(r@) =~= seq![line@]);
        return r;
    }
    let code_w = width - 6;
    let v = chars_of(cell.text.as_str());
    let k = skip_ws(&v, 0, v.len());
    proof {
        assert(v@.subrange(0, v@.len() as int) == v@);
        lemma_indent_len(v@, k as int);
        assert(v@.subrange(0, k as int) == v@.take(k as int));
    }
    let indent = string_from(&v, 0, k);
    let iw0 = width_of_chars(&v, 0, k);
    let (rest_lo, indent_w) = if iw0 >= code_w {
        (0, 0)
    } else {
        (k, iw0)
    };
    let rest = string_from(&v, rest_lo, v.len());
    proof {
        if iw0 >= code_w {
            assert(v@.subrange(0, v@.len() as int) == v@);
        } else {
            assert(v@.subrange(k as int, v@.len() as int) == v@.skip(k as int));
        }
    }
    let avail = code_w - indent_w;
    let segs = wrap_text_to_width(rest.as_str(), avail);
    let ghost sv = strs(segs@);
    proof {
        lemma_wrap_lens(rest@, avail as nat);
        assert(sv.len() == segs@.len());
    }
    let ghost want = cell_lines_spec(cell@, width as nat, scroll_x as nat, wrap);
    let mut out: Vec<String> = Vec::new();
    let mut idx: usize = 0;
    while idx < segs.len()
        invariant
            idx <= segs.len(),
            sv == strs(segs@),
            sv == wrap_spec(rest@, avail as nat),
            forall|j: int| 0 <= j < sv.len() ==> #[trigger] sv[j].len() <= rest@.len(),
            width_bounded(cell.text@),
            v@ == cell.text@,
            rest@.len() + (if indent_w > 0 { k as nat } else { 0 }) <= v@.len(),
            indent@ == v@.take(k as int),
            g@ == gutter_of(cell.line_no, cell.kind),
            want == cell_lines_spec(cell@, width as nat, scroll_x as nat, wrap),
            code_w == width - 6,
            width > 6,
            wrap,
            k == indent_len(cell.text@),
            indent_w == (if iw0 >= code_w { 0 } else { iw0 }),
            iw0 == text_width(v@.take(k as int)),
            rest@ == (if iw0 >= code_w { cell.text@ } else { cell.text@.skip(k as int) }),
            avail == code_w - indent_w,
            strs(out@) == want.take(idx as int),
        decreases segs.len() - idx,
    {
        let mut code = String::new();
        if indent_w > 0 {
            push_str(&mut code, indent.as_str());
        }
        push_str(&mut code, segs[idx].as_str());
        proof {
            assert(sv[idx as int] == segs@[idx as int]@);
            assert(code@.len() <= v@.len());
        }
        let padded = pad_to_width_as(code, code_w, false);
        let mut line = if idx == 0 {
            g.clone()
        } else {
            let mut sp = String::new();
            push_repeat(&mut sp, ' ', 6);
            sp
        };
        push_str(&mut line, padded.as_str());
        let ghost before = out@;
        out.push(line);
        proof {
            assert(strs(out@) == strs(before).push(line@));
            assert(want[idx as int] == line@);
            assert(want.take(idx + 1) == want.take(idx as int).push(want[idx as int]));
        }
        idx = idx + 1;
    }
    proof {
        assert(want.len() == sv.len());
        assert(want.take(want.len() as int) == want);
    }
    out
}

// ---------------------------------------------------------------------------
// Hunks
// ---------------------------------------------------------------------------

/// What a hunk holds.
#[verifier::ext_equal]
pub struct HunkV {
    pub display_row: nat,
    pub sbs_display_row: nat,
    pub lines: Seq<Seq<char>>,
}

pub open spec fn hunk_v(h: DiffHunk) -> HunkV {
    HunkV {
        display_row: h.display_row as nat,
        sbs_display_row: h.sbs_display_row as nat,
        lines: strs(h.lines@),
    }
}

pub open spec fn hunks_v(hs: Seq<DiffHunk>) -> Seq<HunkV> {
    hs.map_values(|h: DiffHunk| hunk_v(h))
}

/// The state of the hunk scanner between lines.
pub struct HunkScan {
    pub hunks: Seq<HunkV>,
    pub current: Seq<Seq<char>>,
    pub start: nat,
    pub header: Seq<Seq<char>>,
    pub in_hunk: bool,
    pub display_row: nat,
}

/// The scan with the open hunk (if any) closed: its file header and its own
/// lines become a hunk starting at the row where its header was shown.
pub open spec fn close_hunk(st: HunkScan) -> HunkScan {
    if st.in_hunk && st.current.len() > 0 {
        HunkScan {
            hunks: st.hunks.push(
                HunkV { display_row: st.start, sbs_display_row: 0, lines: st.header + st.current },
            ),
            current: Seq::empty(),
            ..st
        }
    } else {
        st
    }
}

pub open spec fn is_file_meta(l: Seq<char>) -> bool {
    has_prefix(l, "index "@) || has_prefix(l, "--- "@) || has_prefix(l, "+++ "@)
}

/// One diff line: `diff --git` closes the hunk and starts a file header
/// (shown on one row); `index`, `---` and `+++` lines join the header and are
/// not shown; `@@` closes the hunk and opens a new one at the current row;
/// any other line joins the open hunk, and every shown line takes a row.
pub open spec fn hunk_step(st: HunkScan, line: Seq<char>) -> HunkScan {
    if has_prefix(line, "diff --git "@) {
        let c = close_hunk(st);
        HunkScan { header: seq![line], in_hunk: false, display_row: st.display_row + 1, ..c }
    } else if is_file_meta(line) {
        HunkScan { header: st.header.push(line), ..st }
    } else if has_prefix(line, "@@"@) {
        let c = close_hunk(st);
        HunkScan {
            start: st.display_row,
            current: seq![line],
            in_hunk: true,
            display_row: st.display_row + 1,
            ..c
        }
    } else if st.in_hunk {
        HunkScan { current: st.current.push(line), display_row: st.display_row + 1, ..st }
    } else {
        HunkScan { display_row: st.display_row + 1, ..st }
    }
}

pub open spec fn hunk_fold(lines: Seq<Seq<char>>, k: int) -> HunkScan
    decreases k,
{
    if k <= 0 {
        HunkScan {
            hunks: Seq::empty(),
            current: Seq::empty(),
            start: 0,
            header: Seq::empty(),
            in_hunk: false,
            display_row: 0,
        }
    } else {
        hunk_step(hunk_fold(lines, k - 1), lines[k - 1])
    }
}

/// The hunks of a diff, each with the unified-view row where it starts.
pub open spec fn hunks_spec(lines: Seq<Seq<char>>) -> Seq<HunkV> {
    close_hunk(hunk_fold(lines, lines.len() as int)).hunks
}

/// How many lines of `b` open a hunk (start with `@@`).
pub open spec fn hunk_header_count(b: Seq<Seq<char>>) -> nat
    decreases b.len(),
{
    if b.len() == 0 {
        0
    } else {
        hunk_header_count(b.drop_last()) + if has_prefix(b.last(), "@@"@) {
            1nat
        } else {
            0nat
        }
    }
}

/// A file header: its `diff --git` line, then `index`, `---` and `+++` lines.
pub open spec fn is_file_header(h: Seq<Seq<char>>) -> bool {
    &&& h.len() >= 1
    &&& has_prefix(h[0], "diff --git "@)
    &&& forall|i: int| 1 <= i < h.len() ==> is_file_meta(#[trigger] h[i]) && !has_prefix(h[i], "diff --git "@)
}

/// The body of one file's diff: it opens with a hunk header, and no line of
/// it starts another file or reads as a file header line.
pub open spec fn is_file_body(b: Seq<Seq<char>>) -> bool {
    &&& b.len() >= 1
    &&& has_prefix(b[0], "@@"@)
    &&& forall|i: int| 0 <= i < b.len() ==> !has_prefix(#[trigger] b[i], "diff --git "@) && !is_file_meta(b[i])
}

proof fn lemma_header_fold(h: Seq<Seq<char>>, b: Seq<Seq<char>>, k: int)
    requires
        is_file_header(h),
        1 <= k <= h.len(),
    ensures
        hunk_fold(h + b, k).header == h.take(k),
        !hunk_fold(h + b, k).in_hunk,
        hunk_fold(h + b, k).hunks.len() == 0,
    decreases k,
{
    let ls = h + b;
    assert(ls[k - 1] == h[k - 1]);
    assert(hunk_fold(ls, k) == hunk_step(hunk_fold(ls, k - 1), ls[k - 1]));
    if k == 1 {
        assert(hunk_fold(ls, 0).hunks.len() == 0);
        assert(h.take(1) == seq![h[0]]);
    } else {
        lemma_header_fold(h, b, k - 1);
        assert(h.take(k) == h.take(k - 1).push(h[k - 1]));
    }
}

proof fn lemma_body_fold(h: Seq<Seq<char>>, b: Seq<Seq<char>>, j: int)
    requires
        is_file_header(h),
        is_file_body(b),
        1 <= j <= b.len(),
    ensures
        ({
            let st = hunk_fold(h + b, h.len() + j);
            &&& st.header == h
            &&& st.in_hunk
            &&& st.current.len() >= 1
            &&& has_prefix(st.current[0], "@@"@)
            &&& st.hunks.len() + 1 == hunk_header_count(b.take(j))
            &&& forall|q: int| 0 <= q < st.hunks.len() ==> (#[trigger] st.hunks[q]).lines.take(h.len() as int) == h
                && has_prefix(st.hunks[q].lines[h.len() as int], "@@"@)
        }),
    decreases j,
{
    let ls = h + b;
    let line = b[j - 1];
    assert(ls[h.len() + j - 1] == line);
    assert(hunk_fold(ls, h.len() + j) == hunk_step(hunk_fold(ls, h.len() + j - 1), line));
    assert(b.take(j).drop_last() == b.take(j - 1));
    assert(b.take(j).last() == line);
    assert(!has_prefix(line, "diff --git "@) && !is_file_meta(line));
    if j == 1 {
        lemma_header_fold(h, b, h.len() as int);
        assert(h.take(h.len() as int) == h);
        assert(b.take(0) == Seq::<Seq<char>>::empty());
        let st0 = hunk_fold(ls, h.len() as int);
        assert(close_hunk(st0) == st0);
        let st = hunk_fold(ls, h.len() + j);
        assert(st.header == h);
        assert(st.current == seq![line]);
        assert(st.hunks.len() == 0);
        assert(hunk_header_count(b.take(0)) == 0);
        assert(b.take(1).last() == b[0]);
        assert(hunk_header_count(b.take(1)) == 1);
    } else {
        lemma_body_fold(h, b, j - 1);
        let st = hunk_fold(ls, h.len() + j - 1);
        let c = close_hunk(st);
        if has_prefix(line, "@@"@) {
            assert forall|q: int| 0 <= q < c.hunks.len() implies (#[trigger] c.hunks[q]).lines.take(h.len() as int) == h
                && has_prefix(c.hunks[q].lines[h.len() as int], "@@"@) by {
                if q == st.hunks.len() {
                    let ln = st.header + st.current;
                    assert(c.hunks[q].lines == ln);
                    assert(ln.take(h.len() as int) == h);
                    assert(ln[h.len() as int] == st.current[0]);
                } else {
                    assert(c.hunks[q] == st.hunks[q]);
                }
            }
        }
    }
}

/// Every hunk of one file's diff carries that file's header lines (the
/// `diff --git` line and its `index`, `---` and `+++` lines) and then its
/// own lines from its `@@` header; there is one hunk per `@@` line.
pub proof fn law_hunks_carry_file_header(h: Seq<Seq<char>>, b: Seq<Seq<char>>)
    requires
        is_file_header(h),
        is_file_body(b),
    ensures
        hunks_spec(h + b).len() == hunk_header_count(b),
        forall|q: int|
            0 <= q < hunks_spec(h + b).len() ==> (#[trigger] hunks_spec(h + b)[q]).lines.take(h.len() as int) == h
                && has_prefix(hunks_spec(h + b)[q].lines[h.len() as int], "@@"@),
{
    let ls = h + b;
    lemma_body_fold(h, b, b.len() as int);
    assert(b.take(b.len() as int) == b);
    let st = hunk_fold(ls, ls.len() as int);
    assert(h.len() + b.len() == ls.len());
    let c = close_hunk(st);
    assert forall|q: int| 0 <= q < c.hunks.len() implies (#[trigger] c.hunks[q]).lines.take(h.len() as int) == h
        && has_prefix(c.hunks[q].lines[h.len() as int], "@@"@) by {
        if q == st.hunks.len() {
            let ln = st.header + st.current;
            assert(c.hunks[q].lines == ln);
            assert(ln.take(h.len() as int) == h);
            assert(ln[h.len() as int] == st.current[0]);
        } else {
            assert(c.hunks[q] == st.hunks[q]);
        }
    }
}

proof fn lemma_hunks_unplaced(lines: Seq<Seq<char>>, k: int)
    requires
        0 <= k <= lines.len(),
    ensures
        forall|j: int|
            0 <= j < hunk_fold(lines, k).hunks.len() ==> (#[trigger] hunk_fold(lines, k).hunks[j]).sbs_display_row == 0,
        forall|j: int|
            0 <= j < close_hunk(hunk_fold(lines, k)).hunks.len() ==> (#[trigger] close_hunk(
                hunk_fold(lines, k),
            ).hunks[j]).sbs_display_row == 0,
    decreases k,
{
    if k > 0 {
        lemma_hunks_unplaced(lines, k - 1);
        lemma_close_unplaced(hunk_fold(lines, k - 1));
    }
    lemma_close_unplaced(hunk_fold(lines, k));
}

proof fn lemma_close_unplaced(st: HunkScan)
    requires
        forall|j: int| 0 <= j < st.hunks.len() ==> (#[trigger] st.hunks[j]).sbs_display_row == 0,
    ensures
        forall|j: int|
            0 <= j < close_hunk(st).hunks.len() ==> (#[trigger] close_hunk(st).hunks[j]).sbs_display_row
                == 0,
{
    let c = close_hunk(st);
    assert forall|j: int| 0 <= j < c.hunks.len() implies (#[trigger] c.hunks[j]).sbs_display_row
        == 0 by {
        if j < st.hunks.len() {
            assert(c.hunks[j] == st.hunks[j]);
        }
    }
}

proof fn lemma_hunk_fold_rows(lines: Seq<Seq<char>>, k: int)
    requires
        0 <= k <= lines.len(),
    ensures
        hunk_fold(lines, k).display_row <= k,
        hunk_fold(lines, k).start <= hunk_fold(lines, k).display_row,
    decreases k,
{
    if k > 0 {
        lemma_hunk_fold_rows(lines, k - 1);
    }
}

fn clone_lines(v: &Vec<String>) -> (r: Vec<String>)
    ensures
        strs(r@) == strs(v@),
{
    crate::text::clone_strings(v)
}

fn append_lines(dst: &mut Vec<String>, src: &Vec<String>)
    ensures
        strs(final(dst)@) == strs(old(dst)@) + strs(src@),
{
    let mut i: usize = 0;
    while i < src.len()
        invariant
            i <= src.len(),
            strs(dst@) == strs(old(dst)@) + strs(src@).take(i as int),
        decreases src.len() - i,
    {
        let ghost before = dst@;
        dst.push(src[i].clone());
        assert(strs(dst@) == strs(before).push(src@[i as int]@));
        assert(strs(src@).take(i + 1) == strs(src@).take(i as int).push(src@[i as int]@));
        i = i + 1;
    }
    assert(strs(src@).take(src@.len() as int) == strs(src@));
}

fn push_line(dst: &mut Vec<String>, s: &String)
    ensures
        strs(final(dst)@) == strs(old(dst)@).push(s@),
{
    let ghost before = dst@;
    dst.push(s.clone());
    assert(strs(dst@) == strs(before).push(s@));
}

/// The hunks of the diff lines `lines`.
fn parse_hunks_of(lines: &Vec<String>) -> (r: Vec<DiffHunk>)
    ensures
        hunks_v(r@) == hunks_spec(strs(lines@)),
{
    let ghost ls = strs(lines@);
    let mut hunks: Vec<DiffHunk> = Vec::new();
    let mut current: Vec<String> = Vec::new();
    let mut start: usize = 0;
    let mut header: Vec<String> = Vec::new();
    let mut in_hunk = false;
    let mut display_row: usize = 0;
    let mut i: usize = 0;
    proof {
        assert(hunks_v(hunks@) == Seq::<HunkV>::empty());
        assert(strs(current@) == Seq::<Seq<char>>::empty());
        assert(strs(header@) == Seq::<Seq<char>>::empty());
    }
    while i < lines.len()
        invariant
            i <= lines.len(),
            ls == strs(lines@),
            hunk_fold(ls, i as int) == (HunkScan {
                hunks: hunks_v(hunks@),
                current: strs(current@),
                start: start as nat,
                header: strs(header@),
                in_hunk,
                display_row: display_row as nat,
            }),
        decreases lines.len() - i,
    {
        let line = &lines[i];
        proof {
            assert(ls[i as int] == line@);
            lemma_hunk_fold_rows(ls, i as int);
        }
        let is_diff = str_starts_with(line.as_str(), "diff --git ");
        let is_meta = str_starts_with(line.as_str(), "index ") || str_starts_with(
            line.as_str(),
            "--- ",
        ) || str_starts_with(line.as_str(), "+++ ");
        let is_hunk = str_starts_with(line.as_str(), "@@");
        if is_diff || (!is_meta && is_hunk) {
            if in_hunk && current.len() > 0 {
                let mut full = clone_lines(&header);
                append_lines(&mut full, &current);
                let h = DiffHunk { display_row: start, sbs_display_row: 0, lines: full };
                let ghost before = hunks@;
                hunks.push(h);
                assert(hunks_v(hunks@) == hunks_v(before).push(hunk_v(h)));
                current = Vec::new();
                assert(strs(current@) == Seq::<Seq<char>>::empty());
            }
        }
        if is_diff {
            header = Vec::new();
            push_line(&mut header, line);
            assert(strs(header@) == seq![line@]);
            in_hunk = false;
            display_row = display_row + 1;
        } else if is_meta {
            push_line(&mut header, line);
        } else if is_hunk {
            start = display_row;
            current = Vec::new();
            push_line(&mut current, line);
            assert(strs(current@) == seq![line@]);
            in_hunk = true;
            display_row = display_row + 1;
        } else if in_hunk {
            push_line(&mut current, line);
            display_row = display_row + 1;
        } else {
            display_row = display_row + 1;
        }
        i = i + 1;
    }
    if in_hunk && current.len() > 0 {
        let mut full = clone_lines(&header);
        append_lines(&mut full, &current);
        let h = DiffHunk { display_row: start, sbs_display_row: 0, lines: full };
        let ghost before = hunks@;
        hunks.push(h);
        assert(hunks_v(hunks@) == hunks_v(before).push(hunk_v(h)));
    }
    hunks
}

/// The hunk starting at or last before unified-view row `row`, scanning the
/// hunks in order and stopping at the first one that starts after it.
pub open spec fn hunk_at_spec(hs: Seq<HunkV>, row: nat) -> Option<nat>
    decreases hs.len(),
{
    if hs.len() == 0 || hs[0].display_row > row {
        None
    } else {
        match hunk_at_spec(hs.drop_first(), row) {
            Some(k) => Some(k + 1),
            None => Some(0),
        }
    }
}

fn hunk_at(hunks: &Vec<DiffHunk>, row: usize) -> (r: Option<usize>)
    ensures
        (match r {
            Some(k) => Some(k as nat),
            None => None,
        }) == hunk_at_spec(hunks_v(hunks@), row as nat),
{
    let ghost hv = hunks_v(hunks@);
    let mut result: Option<usize> = None;
    let mut i: usize = 0;
    while i < hunks.len()
        invariant
            i <= hunks.len(),
            hv == hunks_v(hunks@),
            i == 0 ==> result is None,
            i > 0 ==> result == Some((i - 1) as usize),
            hunk_at_spec(hv, row as nat) == (if i == 0 {
                hunk_at_spec(hv, row as nat)
            } else {
                match hunk_at_spec(hv.skip(i as int), row as nat) {
                    Some(k) => Some((k + i) as nat),
                    None => Some((i - 1) as nat),
                }
            }),
            forall|j: int| 0 <= j < i ==> hv[j].display_row <= row,
        decreases hunks.len() - i,
    {
        assert(hv.skip(i as int)[0] == hv[i as int]);
        assert(hv.skip(i as int).drop_first() == hv.skip(i + 1));
        assert(hv.skip(0) == hv);
        if hunks[i].display_row <= row {
            result = Some(i);
            i = i + 1;
        } else {
            return result;
        }
    }
    proof {
        if i > 0 {
            assert(hv.skip(i as int).len() == 0);
        }
    }
    result
}

// ---------------------------------------------------------------------------
// Side-by-side hunk rows and change blocks
// ---------------------------------------------------------------------------

/// What a change block holds.
#[verifier::ext_equal]
pub struct BlockView {
    pub display_row: nat,
    pub file_path: Seq<char>,
    pub new_start: u32,
    pub new_lines: Seq<Seq<char>>,
    pub old_lines: Seq<Seq<char>>,
}

pub open spec fn block_v(b: ChangeBlock) -> BlockView {
    BlockView {
        display_row: b.display_row as nat,
        file_path: b.file_path@,
        new_start: b.new_start,
        new_lines: strs(b.new_lines@),
        old_lines: strs(b.old_lines@),
    }
}

pub open spec fn blocks_v(bs: Seq<ChangeBlock>) -> Seq<BlockView> {
    bs.map_values(|b: ChangeBlock| block_v(b))
}

/// The state of the side-by-side scan between rows.
pub struct ChangeScan {
    pub blocks: Seq<BlockView>,
    pub block: Option<BlockView>,
    pub hunk_rows: Seq<nat>,
    pub row_idx: nat,
    pub first_file: bool,
    pub file_path: Seq<char>,
    pub new_line: u32,
}

/// The next line number, wrapping past `u32::MAX` as release builds do.
pub open spec fn inc(n: u32) -> u32 {
    if n == u32::MAX {
        0u32
    } else {
        (n + 1) as u32
    }
}

/// The scan with the open block ended: kept when it has any line.
pub open spec fn finish_block(st: ChangeScan) -> ChangeScan {
    match st.block {
        Some(b) => ChangeScan {
            blocks: if b.old_lines.len() > 0 || b.new_lines.len() > 0 {
                st.blocks.push(b)
            } else {
                st.blocks
            },
            block: None,
            ..st
        },
        None => st,
    }
}

/// The path in `diff --git a/<path> b/...`: the text after `a/` up to the
/// first ` b/`, or the empty text for any other line.
pub open spec fn diff_file_path(t: Seq<char>) -> Seq<char> {
    if has_prefix(t, "diff --git a/"@) {
        let rest = t.skip(13);
        let k = find_sub(rest, " b/"@);
        if k < 0 {
            rest
        } else {
            rest.take(k)
        }
    } else {
        Seq::empty()
    }
}

/// One side-by-side row, tracking the row it is drawn on: a file header
/// starts a file (two blank rows before every file but the first, and its
/// title row); the file's other headers are not drawn; a hunk header is drawn
/// after a blank row, gives the next hunk its row and resets the new-side
/// line number; context ends the open change block; deleted and added lines
/// extend it (opening it at this row).
pub open spec fn change_step(st: ChangeScan, row: RowView, hunk_count: nat) -> ChangeScan {
    match row {
        RowView::Meta(t) => if has_prefix(t, "diff --git"@) {
            let f = finish_block(st);
            ChangeScan {
                file_path: diff_file_path(t),
                row_idx: st.row_idx + (if st.first_file {
                    0nat
                } else {
                    2nat
                }) + 1,
                first_file: false,
                ..f
            }
        } else if is_file_meta(t) {
            st
        } else if has_prefix(t, "@@"@) {
            let f = finish_block(st);
            let r1 = st.row_idx + 1;
            ChangeScan {
                new_line: match hunk_header_spec(t) {
                    Some((_, n)) => n,
                    None => st.new_line,
                },
                hunk_rows: if st.hunk_rows.len() < hunk_count {
                    st.hunk_rows.push(r1)
                } else {
                    st.hunk_rows
                },
                row_idx: r1 + 1,
                ..f
            }
        } else {
            ChangeScan { row_idx: st.row_idx + 1, ..st }
        },
        RowView::Split { old, new } => {
            let st2 = if old.kind == GitDiffCellKind::Context && new.kind
                == GitDiffCellKind::Context {
                let f = finish_block(st);
                ChangeScan {
                    new_line: if new.line_no is Some {
                        inc(st.new_line)
                    } else {
                        st.new_line
                    },
                    ..f
                }
            } else if old.kind == GitDiffCellKind::Delete || new.kind == GitDiffCellKind::Add {
                let b0 = match st.block {
                    Some(b) => b,
                    None => BlockView {
                        display_row: st.row_idx,
                        file_path: st.file_path,
                        new_start: st.new_line,
                        new_lines: Seq::empty(),
                        old_lines: Seq::empty(),
                    },
                };
                ChangeScan {
                    block: Some(
                        BlockView {
                            old_lines: if old.kind == GitDiffCellKind::Delete {
                                b0.old_lines.push(old.text)
                            } else {
                                b0.old_lines
                            },
                            new_lines: if new.kind == GitDiffCellKind::Add {
                                b0.new_lines.push(new.text)
                            } else {
                                b0.new_lines
                            },
                            ..b0
                        },
                    ),
                    new_line: if new.kind == GitDiffCellKind::Add {
                        inc(st.new_line)
                    } else {
                        st.new_line
                    },
                    ..st
                }
            } else {
                ChangeScan {
                    new_line: if new.line_no is Some {
                        inc(st.new_line)
                    } else {
                        st.new_line
                    },
                    ..st
                }
            };
            ChangeScan { row_idx: st2.row_idx + 1, ..st2 }
        },
    }
}

pub open spec fn change_fold(rows: Seq<RowView>, k: int, hunk_count: nat) -> ChangeScan
    decreases k,
{
    if k <= 0 {
        ChangeScan {
            blocks: Seq::empty(),
            block: None,
            hunk_rows: Seq::empty(),
            row_idx: 1,
            first_file: true,
            file_path: Seq::empty(),
            new_line: 1,
        }
    } else {
        change_step(change_fold(rows, k - 1, hunk_count), rows[k - 1], hunk_count)
    }
}

/// The end state of the side-by-side scan of a diff with `hunk_count` hunks.
pub open spec fn change_scan(lines: Seq<Seq<char>>, hunk_count: nat) -> ChangeScan {
    let rows = side_by_side_spec(lines);
    finish_block(change_fold(rows, rows.len() as int, hunk_count))
}

/// A row that changes the file: a deleted line on the left or an added line
/// on the right.
pub open spec fn is_change_row(r: RowView) -> bool {
    match r {
        RowView::Split { old, new } => old.kind == GitDiffCellKind::Delete || new.kind
            == GitDiffCellKind::Add,
        RowView::Meta(_) => false,
    }
}

/// A row shown in a hunk: a context line on both sides (numbered on the new
/// side), or a change row (a deleted line, an added line, or both side by
/// side).
pub open spec fn is_hunk_row(r: RowView) -> bool {
    match r {
        RowView::Split { old, new } => (old.kind == GitDiffCellKind::Context && new.kind
            == GitDiffCellKind::Context && new.line_no is Some) || ((old.kind
            == GitDiffCellKind::Delete || old.kind == GitDiffCellKind::Empty) && (new.kind
            == GitDiffCellKind::Add || new.kind == GitDiffCellKind::Empty) && is_change_row(r)),
        RowView::Meta(_) => false,
    }
}

/// Whether a row shows a line of the new file: context or added.
pub open spec fn shows_new_line(r: RowView) -> bool {
    match r {
        RowView::Split { old: _, new } => new.kind == GitDiffCellKind::Context || new.kind
            == GitDiffCellKind::Add,
        RowView::Meta(_) => false,
    }
}

/// How many rows of `b` show a line of the new file.
pub open spec fn new_file_rows(b: Seq<RowView>) -> nat
    decreases b.len(),
{
    if b.len() == 0 {
        0
    } else {
        new_file_rows(b.drop_last()) + if shows_new_line(b.last()) {
            1nat
        } else {
            0nat
        }
    }
}

/// Where each run of change rows of a hunk body begins in the new file:
/// the hunk's new start plus the new-file lines shown before the run.
pub open spec fn run_starts(b: Seq<RowView>, n: u32) -> Seq<u32>
    decreases b.len(),
{
    if b.len() == 0 {
        Seq::empty()
    } else {
        let r = run_starts(b.drop_last(), n);
        if is_change_row(b.last()) && (b.len() == 1 || !is_change_row(b[b.len() - 2])) {
            r.push((n + new_file_rows(b.drop_last())) as u32)
        } else {
            r
        }
    }
}

/// The new starts of the blocks found so far and of the open one.
pub open spec fn starts_so_far(st: ChangeScan) -> Seq<u32> {
    st.blocks.map_values(|b: BlockView| b.new_start) + match st.block {
        Some(b) => seq![b.new_start],
        None => Seq::empty(),
    }
}

proof fn lemma_new_rows_le(b: Seq<RowView>)
    ensures
        new_file_rows(b) <= b.len(),
    decreases b.len(),
{
    if b.len() > 0 {
        lemma_new_rows_le(b.drop_last());
    }
}

proof fn lemma_change_runs_fold(hh: Seq<char>, body: Seq<RowView>, hc: nat, j: int)
    requires
        has_prefix(hh, "@@"@),
        hunk_header_spec(hh) is Some,
        forall|i: int| 0 <= i < body.len() ==> is_hunk_row(#[trigger] body[i]),
        hunk_header_spec(hh).unwrap().1 + body.len() <= u32::MAX,
        0 <= j <= body.len(),
    ensures
        ({
            let st = change_fold(seq![RowView::Meta(hh)] + body, 1 + j, hc);
            let n = hunk_header_spec(hh).unwrap().1;
            &&& st.new_line == (n + new_file_rows(body.take(j))) as u32
            &&& starts_so_far(st) == run_starts(body.take(j), n)
            &&& (st.block is Some <==> (j > 0 && is_change_row(body[j - 1])))
            &&& (st.block matches Some(b) ==> b.old_lines.len() > 0 || b.new_lines.len() > 0)
        }),
    decreases j,
{
    let rows = seq![RowView::Meta(hh)] + body;
    let n = hunk_header_spec(hh).unwrap().1;
    reveal_strlit("@@");
    reveal_strlit("diff --git");
    if j == 0 {
        assert(rows[0] == RowView::Meta(hh));
        assert(change_fold(rows, 1, hc) == change_step(change_fold(rows, 0, hc), rows[0], hc));
        assert(hh.take(2)[0] == hh[0]);
        if has_prefix(hh, "diff --git"@) {
            assert(hh.take(10)[0] == hh[0]);
        }
        if is_file_meta(hh) {
            reveal_strlit("index ");
            reveal_strlit("--- ");
            reveal_strlit("+++ ");
            if has_prefix(hh, "index "@) {
                assert(hh.take(6)[0] == hh[0]);
            }
            if has_prefix(hh, "--- "@) {
                assert(hh.take(4)[0] == hh[0]);
            }
            if has_prefix(hh, "+++ "@) {
                assert(hh.take(4)[0] == hh[0]);
            }
        }
        assert(body.take(0) == Seq::<RowView>::empty());
        let st = change_fold(rows, 1, hc);
        assert(st.blocks == Seq::<BlockView>::empty());
        assert(starts_so_far(st) == Seq::<u32>::empty());
    } else {
        lemma_change_runs_fold(hh, body, hc, j - 1);
        let r = body[j - 1];
        assert(rows[1 + j - 1] == r);
        let st0 = change_fold(rows, j, hc);
        assert(change_fold(rows, 1 + j, hc) == change_step(st0, r, hc));
        let st = change_fold(rows, 1 + j, hc);
        assert(body.take(j).drop_last() == body.take(j - 1));
        assert(body.take(j).last() == r);
        lemma_new_rows_le(body.take(j - 1));
        assert(is_hunk_row(r));
        if j >= 2 {
            assert(body.take(j)[j - 2] == body[j - 2]);
        }
        let f = finish_block(st0);
        if is_change_row(r) {
            match st0.block {
                Some(b) => {
                    assert(st.blocks == st0.blocks);
                },
                None => {
                    assert(st.blocks == st0.blocks);
                    assert(starts_so_far(st) == starts_so_far(st0).push(st0.new_line));
                },
            }
        } else {
            match st0.block {
                Some(b) => {
                    assert(f.blocks == st0.blocks.push(b));
                    assert(st.blocks == f.blocks);
                    assert(st.blocks.map_values(|x: BlockView| x.new_start) == st0.blocks.map_values(
                        |x: BlockView| x.new_start,
                    ).push(b.new_start));
                },
                None => {
                    assert(st.blocks == st0.blocks);
                },
            }
        }
    }
}

/// Each change block of a hunk starts at the new-file line of its first
/// change: the hunk header's new start plus the number of new-file lines
/// (context and added) shown before the block.
pub proof fn law_change_block_starts(hh: Seq<char>, body: Seq<RowView>, hc: nat)
    requires
        has_prefix(hh, "@@"@),
        hunk_header_spec(hh) is Some,
        forall|i: int| 0 <= i < body.len() ==> is_hunk_row(#[trigger] body[i]),
        hunk_header_spec(hh).unwrap().1 + body.len() <= u32::MAX,
    ensures
        ({
            let rows = seq![RowView::Meta(hh)] + body;
            let st = finish_block(change_fold(rows, rows.len() as int, hc));
            st.blocks.map_values(|b: BlockView| b.new_start) == run_starts(body, hunk_header_spec(hh).unwrap().1)
        }),
{
    let rows = seq![RowView::Meta(hh)] + body;
    lemma_change_runs_fold(hh, body, hc, body.len() as int);
    assert(body.take(body.len() as int) == body);
    assert(rows.len() == 1 + body.len());
    let st0 = change_fold(rows, rows.len() as int, hc);
    match st0.block {
        Some(b) => {
            assert(finish_block(st0).blocks.map_values(|x: BlockView| x.new_start) == st0.blocks.map_values(
                |x: BlockView| x.new_start,
            ).push(b.new_start));
        },
        None => {
            assert(starts_so_far(st0) == st0.blocks.map_values(|x: BlockView| x.new_start));
        },
    }
}

/// The numbers the new side of `rows` shows, in order: those of its context
/// and added cells.
pub open spec fn new_side_numbers(rows: Seq<RowView>) -> Seq<Option<u32>>
    decreases rows.len(),
{
    if rows.len() == 0 {
        Seq::empty()
    } else {
        new_side_numbers(rows.drop_last()) + match rows.last() {
            RowView::Split { old: _, new } => if new.kind == GitDiffCellKind::Context || new.kind
                == GitDiffCellKind::Add {
                seq![new.line_no]
            } else {
                Seq::empty()
            },
            RowView::Meta(_) => Seq::empty(),
        }
    }
}

/// The numbers the old side of `rows` shows, in order: those of its context
/// and deleted cells.
pub open spec fn old_side_numbers(rows: Seq<RowView>) -> Seq<Option<u32>>
    decreases rows.len(),
{
    if rows.len() == 0 {
        Seq::empty()
    } else {
        old_side_numbers(rows.drop_last()) + match rows.last() {
            RowView::Split { old, new: _ } => if old.kind == GitDiffCellKind::Context || old.kind
                == GitDiffCellKind::Delete {
                seq![old.line_no]
            } else {
                Seq::empty()
            },
            RowView::Meta(_) => Seq::empty(),
        }
    }
}

proof fn lemma_side_numbers_concat(x: Seq<RowView>, y: Seq<RowView>)
    ensures
        new_side_numbers(x + y) == new_side_numbers(x) + new_side_numbers(y),
        old_side_numbers(x + y) == old_side_numbers(x) + old_side_numbers(y),
    decreases y.len(),
{
    if y.len() == 0 {
        assert(x + y == x);
    } else {
        lemma_side_numbers_concat(x, y.drop_last());
        assert((x + y).drop_last() == x + y.drop_last());
        assert((x + y).last() == y.last());
    }
}

/// The numbers of waiting changed lines.
pub open spec fn waiting_numbers(p: Seq<(u32, Seq<char>)>) -> Seq<Option<u32>> {
    p.map_values(|x: (u32, Seq<char>)| Some(x.0))
}

proof fn lemma_change_rows_numbers(del: Seq<(u32, Seq<char>)>, add: Seq<(u32, Seq<char>)>, k: int)
    requires
        0 <= k,
        k <= del.len() || k <= add.len(),
    ensures
        new_side_numbers(Seq::new(k as nat, |i: int| change_row(del, add, i))) == waiting_numbers(
            add,
        ).take(if k <= add.len() {
            k
        } else {
            add.len() as int
        }),
        old_side_numbers(Seq::new(k as nat, |i: int| change_row(del, add, i))) == waiting_numbers(
            del,
        ).take(if k <= del.len() {
            k
        } else {
            del.len() as int
        }),
    decreases k,
{
    let rs = Seq::new(k as nat, |i: int| change_row(del, add, i));
    if k == 0 {
        assert(waiting_numbers(add).take(0) == Seq::<Option<u32>>::empty());
        assert(waiting_numbers(del).take(0) == Seq::<Option<u32>>::empty());
    } else {
        lemma_change_rows_numbers(del, add, k - 1);
        assert(rs.drop_last() == Seq::new((k - 1) as nat, |i: int| change_row(del, add, i)));
        assert(rs.last() == change_row(del, add, k - 1));
        if k <= add.len() {
            assert(waiting_numbers(add).take(k) == waiting_numbers(add).take(k - 1).push(
                Some(add[k - 1].0),
            ));
        }
        if k <= del.len() {
            assert(waiting_numbers(del).take(k) == waiting_numbers(del).take(k - 1).push(
                Some(del[k - 1].0),
            ));
        }
    }
}

proof fn lemma_flushed_numbers(acc: RowsAcc)
    ensures
        new_side_numbers(rows_flushed(acc)) == new_side_numbers(acc.rows) + waiting_numbers(acc.add),
        old_side_numbers(rows_flushed(acc)) == old_side_numbers(acc.rows) + waiting_numbers(acc.del),
{
    let k = if acc.del.len() >= acc.add.len() {
        acc.del.len()
    } else {
        acc.add.len()
    };
    lemma_change_rows_numbers(acc.del, acc.add, k as int);
    assert(change_rows(acc.del, acc.add) == Seq::new(k, |i: int| change_row(acc.del, acc.add, i)));
    assert(waiting_numbers(acc.add).take(acc.add.len() as int) == waiting_numbers(acc.add));
    assert(waiting_numbers(acc.del).take(acc.del.len() as int) == waiting_numbers(acc.del));
    lemma_side_numbers_concat(acc.rows, change_rows(acc.del, acc.add));
}

/// Lines of one hunk's body: context, deleted or added lines, none of them a
/// header line or a hunk header.
pub open spec fn plain_hunk_body(b: Seq<Seq<char>>) -> bool {
    forall|i: int|
        0 <= i < b.len() ==> (#[trigger] b[i]).len() > 0 && (b[i][0] == ' ' || b[i][0] == '+' || b[i][0]
            == '-') && !is_header_line(b[i]) && !has_prefix(b[i], "@@"@)
}

proof fn lemma_rows_numbers_fold(hh: Seq<char>, b: Seq<Seq<char>>, j: int)
    requires
        has_prefix(hh, "@@"@),
        !is_header_line(hh),
        hunk_header_spec(hh) is Some,
        plain_hunk_body(b),
        hunk_header_spec(hh).unwrap().0 + b.len() <= u32::MAX,
        hunk_header_spec(hh).unwrap().1 + b.len() <= u32::MAX,
        0 <= j <= b.len(),
    ensures
        ({
            let acc = rows_fold(seq![hh] + b, 1 + j);
            let o = hunk_header_spec(hh).unwrap().0;
            let n = hunk_header_spec(hh).unwrap().1;
            &&& acc.new_line == Some((n + count_new_side(b.take(j))) as u32)
            &&& acc.old_line == Some((o + count_old_side(b.take(j))) as u32)
            &&& new_side_numbers(acc.rows) + waiting_numbers(acc.add) == numbered(
                n,
                count_new_side(b.take(j)),
            )
            &&& old_side_numbers(acc.rows) + waiting_numbers(acc.del) == numbered(
                o,
                count_old_side(b.take(j)),
            )
        }),
    decreases j,
{
    let ls = seq![hh] + b;
    let o = hunk_header_spec(hh).unwrap().0;
    let n = hunk_header_spec(hh).unwrap().1;
    if j == 0 {
        assert(ls[0] == hh);
        let acc0 = rows_fold(ls, 0);
        assert(rows_fold(ls, 1) == rows_step(acc0, hh));
        lemma_flushed_numbers(acc0);
        assert(new_side_numbers(acc0.rows) == Seq::<Option<u32>>::empty());
        assert(waiting_numbers(acc0.add) == Seq::<Option<u32>>::empty());
        assert(waiting_numbers(acc0.del) == Seq::<Option<u32>>::empty());
        let acc = rows_fold(ls, 1);
        lemma_side_numbers_concat(rows_flushed(acc0), seq![RowView::Meta(hh)]);
        assert(rows_flushed(acc0) + seq![RowView::Meta(hh)] == acc.rows);
        assert(seq![RowView::Meta(hh)].drop_last() == Seq::<RowView>::empty());
        assert(b.take(0) == Seq::<Seq<char>>::empty());
        assert(waiting_numbers(acc.add) == Seq::<Option<u32>>::empty());
        assert(waiting_numbers(acc.del) == Seq::<Option<u32>>::empty());
        assert(numbered(n, 0) == Seq::<Option<u32>>::empty());
        assert(numbered(o, 0) == Seq::<Option<u32>>::empty());
    } else {
        lemma_rows_numbers_fold(hh, b, j - 1);
        let l = b[j - 1];
        assert(ls[1 + j - 1] == l);
        let acc0 = rows_fold(ls, j);
        assert(rows_fold(ls, 1 + j) == rows_step(acc0, l));
        let acc = rows_fold(ls, 1 + j);
        assert(b.take(j).drop_last() == b.take(j - 1));
        assert(b.take(j).last() == l);
        lemma_side_counts_le(b.take(j - 1));
        let cn = count_new_side(b.take(j - 1));
        let co = count_old_side(b.take(j - 1));
        if l[0] == ' ' {
            lemma_flushed_numbers(acc0);
            let f = rows_flushed(acc0);
            let cell_row = acc.rows.last();
            assert(acc.rows == f.push(cell_row));
            lemma_side_numbers_concat(f, seq![cell_row]);
            assert(f + seq![cell_row] == f.push(cell_row));
            assert(seq![cell_row].drop_last() == Seq::<RowView>::empty());
            assert(seq![cell_row].last() == cell_row);
            assert(cell_row == RowView::Split {
                old: CellView { line_no: acc0.old_line, text: l.drop_first(), kind: GitDiffCellKind::Context },
                new: CellView { line_no: acc0.new_line, text: l.drop_first(), kind: GitDiffCellKind::Context },
            });
            assert(new_side_numbers(Seq::<RowView>::empty()) == Seq::<Option<u32>>::empty());
            assert(old_side_numbers(Seq::<RowView>::empty()) == Seq::<Option<u32>>::empty());
            assert(new_side_numbers(seq![cell_row]) == new_side_numbers(Seq::<RowView>::empty())
                + seq![acc0.new_line]);
            assert(old_side_numbers(seq![cell_row]) == old_side_numbers(Seq::<RowView>::empty())
                + seq![acc0.old_line]);
            assert(new_side_numbers(seq![cell_row]) =~= seq![acc0.new_line]);
            assert(old_side_numbers(seq![cell_row]) =~= seq![acc0.old_line]);
            assert(waiting_numbers(acc.add) == Seq::<Option<u32>>::empty());
            assert(waiting_numbers(acc.del) == Seq::<Option<u32>>::empty());
            assert(numbered(n, cn + 1) == numbered(n, cn).push(Some((n + cn) as u32)));
            assert(numbered(o, co + 1) == numbered(o, co).push(Some((o + co) as u32)));
        } else if l[0] == '-' {
            assert(waiting_numbers(acc.del) == waiting_numbers(acc0.del).push(acc0.old_line));
            assert(numbered(o, co + 1) == numbered(o, co).push(Some((o + co) as u32)));
        } else {
            assert(waiting_numbers(acc.add) == waiting_numbers(acc0.add).push(acc0.new_line));
            assert(numbered(n, cn + 1) == numbered(n, cn).push(Some((n + cn) as u32)));
        }
    }
}

/// In the git panel's side-by-side rows, each side's line numbers run on
/// from the hunk header: the k-th line shown on the new side (context or
/// added) is numbered `new_start + k`, and the k-th line shown on the old
/// side (context or deleted) `old_start + k`.
pub proof fn law_git_side_by_side_numbers(hh: Seq<char>, b: Seq<Seq<char>>)
    requires
        has_prefix(hh, "@@"@),
        !is_header_line(hh),
        hunk_header_spec(hh) is Some,
        plain_hunk_body(b),
        hunk_header_spec(hh).unwrap().0 + b.len() <= u32::MAX,
        hunk_header_spec(hh).unwrap().1 + b.len() <= u32::MAX,
    ensures
        new_side_numbers(side_by_side_spec(seq![hh] + b)) == numbered(
            hunk_header_spec(hh).unwrap().1,
            count_new_side(b),
        ),
        old_side_numbers(side_by_side_spec(seq![hh] + b)) == numbered(
            hunk_header_spec(hh).unwrap().0,
            count_old_side(b),
        ),
{
    let ls = seq![hh] + b;
    lemma_rows_numbers_fold(hh, b, b.len() as int);
    assert(b.take(b.len() as int) == b);
    assert(ls.len() == 1 + b.len());
    lemma_flushed_numbers(rows_fold(ls, ls.len() as int));
}

proof fn lemma_change_fold_bounds(rows: Seq<RowView>, k: int, hunk_count: nat)
    requires
        0 <= k <= rows.len(),
    ensures
        change_fold(rows, k, hunk_count).row_idx <= 1 + 3 * k,
        change_fold(rows, k, hunk_count).hunk_rows.len() <= hunk_count,
        forall|b: BlockView| change_fold(rows, k, hunk_count).block == Some(b) ==> b.display_row <= 1 + 3 * k,
        forall|j: int|
            0 <= j < change_fold(rows, k, hunk_count).blocks.len() ==> #[trigger] change_fold(
                rows,
                k,
                hunk_count,
            ).blocks[j].display_row <= 1 + 3 * k,
        forall|j: int|
            0 <= j < change_fold(rows, k, hunk_count).hunk_rows.len() ==> #[trigger] change_fold(
                rows,
                k,
                hunk_count,
            ).hunk_rows[j] <= 1 + 3 * k,
    decreases k,
{
    if k > 0 {
        lemma_change_fold_bounds(rows, k - 1, hunk_count);
    }
}

proof fn lemma_rows_count(lines: Seq<Seq<char>>, k: int)
    requires
        0 <= k <= lines.len(),
    ensures
        rows_fold(lines, k).rows.len() + rows_fold(lines, k).del.len() + rows_fold(
            lines,
            k,
        ).add.len() <= k,
    decreases k,
{
    if k > 0 {
        lemma_rows_count(lines, k - 1);
    }
}

proof fn lemma_side_by_side_len(lines: Seq<Seq<char>>)
    ensures
        side_by_side_spec(lines).len() <= lines.len(),
{
    lemma_rows_count(lines, lines.len() as int);
}

pub open spec fn block_from(b: BlockView) -> BlockView {
    b
}

fn finish_pending_block(blocks: &mut Vec<ChangeBlock>, block: &mut Option<ChangeBlock>)
    ensures
        ({
            let st = ChangeScan {
                blocks: blocks_v(old(blocks)@),
                block: match *old(block) {
                    Some(b) => Some(block_v(b)),
                    None => None,
                },
                hunk_rows: Seq::empty(),
                row_idx: 0,
                first_file: false,
                file_path: Seq::empty(),
                new_line: 0,
            };
            &&& blocks_v(final(blocks)@) == finish_block(st).blocks
            &&& (*final(block)) is None
        }),
{
    let taken = block.take();
    match taken {
        Some(b) => {
            if b.old_lines.len() > 0 || b.new_lines.len() > 0 {
                let ghost before = blocks@;
                blocks.push(b);
                assert(blocks_v(blocks@) == blocks_v(before).push(block_v(b)));
            }
        },
        None => {},
    }
}

fn is_context_pair(old: &GitDiffCell, new: &GitDiffCell) -> (r: bool)
    ensures
        r == (old.kind == GitDiffCellKind::Context && new.kind == GitDiffCellKind::Context),
{
    match (old.kind, new.kind) {
        (GitDiffCellKind::Context, GitDiffCellKind::Context) => true,
        _ => false,
    }
}

fn is_kind(k: GitDiffCellKind, want: GitDiffCellKind) -> (r: bool)
    ensures
        r == (k == want),
{
    match (k, want) {
        (GitDiffCellKind::Context, GitDiffCellKind::Context) => true,
        (GitDiffCellKind::Delete, GitDiffCellKind::Delete) => true,
        (GitDiffCellKind::Add, GitDiffCellKind::Add) => true,
        (GitDiffCellKind::Empty, GitDiffCellKind::Empty) => true,
        _ => false,
    }
}

fn diff_path_of(t: &String) -> (r: String)
    ensures
        r@ == diff_file_path(t@),
{
    if !str_starts_with(t.as_str(), "diff --git a/") {
        return String::new();
    }
    proof {
        reveal_strlit("diff --git a/");
        reveal_strlit(" b/");
    }
    let v = chars_of(t.as_str());
    let sep = chars_of(" b/");
    let e = crate::text::find_str_from(&v, 13, &sep);
    proof {
        assert(v@.skip(13) == t@.skip(13));
        if e < v.len() {
            assert(v@.skip(13).take(e - 13) == v@.subrange(13, e as int));
        } else {
            assert(v@.skip(13) == v@.subrange(13, v@.len() as int));
        }
    }
    string_from(&v, 13, e)
}

fn next_u32(n: u32) -> (r: u32)
    ensures
        r == inc(n),
{
    n.wrapping_add(1)
}

/// Side-by-side rows of the hunks of `lines` (the header row of each of the
/// first `hunks.len()` hunk headers) and the change blocks of the diff.
fn sbs_hunk_rows(lines: &Vec<String>, hunks: &mut Vec<DiffHunk>) -> (r: Vec<ChangeBlock>)
    requires
        4 * lines.len() < usize::MAX,
    ensures
        ({
            let sc = change_scan(strs(lines@), old(hunks)@.len() as nat);
            &&& blocks_v(r@) == sc.blocks
            &&& final(hunks)@.len() == old(hunks)@.len()
            &&& forall|k: int|
                0 <= k < final(hunks)@.len() ==> {
                    &&& (#[trigger] final(hunks)@[k]).display_row == old(hunks)@[k].display_row
                    &&& strs(final(hunks)@[k].lines@) == strs(old(hunks)@[k].lines@)
                    &&& final(hunks)@[k].sbs_display_row == (if k < sc.hunk_rows.len() {
                        sc.hunk_rows[k]
                    } else {
                        old(hunks)@[k].sbs_display_row as nat
                    })
                }
        }),
{
    let sl = lines.as_slice();
    let rows = build_side_by_side_rows(sl);
    let ghost rv = row_views(rows@);
    let ghost n_h = hunks@.len() as nat;
    proof {
        assert(sl@ == lines@);
        lemma_side_by_side_len(strs(lines@));
    }
    let mut blocks: Vec<ChangeBlock> = Vec::new();
    let mut block: Option<ChangeBlock> = None;
    let mut hunk_idx: usize = 0;
    let mut row_idx: usize = 1;
    let mut first_file = true;
    let mut file_path = String::new();
    let mut new_line: u32 = 1;
    let mut i: usize = 0;
    proof {
        assert(blocks_v(blocks@) == Seq::<BlockView>::empty());
    }
    while i < rows.len()
        invariant
            i <= rows.len() <= lines.len(),
            4 * lines.len() < usize::MAX,
            rv == row_views(rows@),
            n_h == old(hunks)@.len(),
            hunks@.len() == old(hunks)@.len(),
            hunk_idx <= hunks@.len(),
            forall|k: int|
                0 <= k < hunks@.len() ==> {
                    &&& (#[trigger] hunks@[k]).display_row == old(hunks)@[k].display_row
                    &&& strs(hunks@[k].lines@) == strs(old(hunks)@[k].lines@)
                    &&& k >= hunk_idx ==> hunks@[k].sbs_display_row == old(hunks)@[k].sbs_display_row
                },
            change_fold(rv, i as int, n_h).blocks == blocks_v(blocks@),
            change_fold(rv, i as int, n_h).block == (match block {
                Some(b) => Some(block_v(b)),
                None => None,
            }),
            change_fold(rv, i as int, n_h).hunk_rows == Seq::new(
                hunk_idx as nat,
                |k: int| hunks@[k].sbs_display_row as nat,
            ),
            change_fold(rv, i as int, n_h).row_idx == row_idx,
            change_fold(rv, i as int, n_h).first_file == first_file,
            change_fold(rv, i as int, n_h).file_path == file_path@,
            change_fold(rv, i as int, n_h).new_line == new_line,
        decreases rows.len() - i,
    {
        proof {
            lemma_change_fold_bounds(rv, i as int, n_h);
            assert(rv[i as int] == rows@[i as int]@);
        }
        let ghost st0 = change_fold(rv, i as int, n_h);
        let row = &rows[i];
        match row {
            GitDiffRow::Meta(t) => {
                if str_starts_with(t.as_str(), "diff --git") {
                    finish_pending_block(&mut blocks, &mut block);
                    file_path = diff_path_of(t);
                    if !first_file {
                        row_idx = row_idx + 2;
                    }
                    first_file = false;
                    row_idx = row_idx + 1;
                } else if str_starts_with(t.as_str(), "index ") || str_starts_with(
                    t.as_str(),
                    "--- ",
                ) || str_starts_with(t.as_str(), "+++ ") {
                } else if str_starts_with(t.as_str(), "@@") {
                    finish_pending_block(&mut blocks, &mut block);
                    match parse_hunk_header(t.as_str()) {
                        Some((_, n)) => {
                            new_line = n;
                        },
                        None => {},
                    }
                    row_idx = row_idx + 1;
                    if hunk_idx < hunks.len() {
                        let mut h = hunks.remove(hunk_idx);
                        h.sbs_display_row = row_idx;
                        hunks.insert(hunk_idx, h);
                        hunk_idx = hunk_idx + 1;
                        proof {
                            assert(Seq::new(hunk_idx as nat, |k: int| hunks@[k].sbs_display_row as nat)
                                == st0.hunk_rows.push(row_idx as nat));
                        }
                    }
                    row_idx = row_idx + 1;
                } else {
                    row_idx = row_idx + 1;
                }
            },
            GitDiffRow::Split { old, new } => {
                if is_context_pair(old, new) {
                    finish_pending_block(&mut blocks, &mut block);
                    if new.line_no.is_some() {
                        new_line = next_u32(new_line);
                    }
                } else if is_kind(old.kind, GitDiffCellKind::Delete) || is_kind(
                    new.kind,
                    GitDiffCellKind::Add,
                ) {
                    let ghost b0v = match st0.block {
                        Some(bb) => bb,
                        None => BlockView {
                            display_row: st0.row_idx,
                            file_path: st0.file_path,
                            new_start: st0.new_line,
                            new_lines: Seq::empty(),
                            old_lines: Seq::empty(),
                        },
                    };
                    let mut b = match block.take() {
                        Some(b) => b,
                        None => ChangeBlock {
                            display_row: row_idx,
                            file_path: file_path.clone(),
                            new_start: new_line,
                            new_lines: Vec::new(),
                            old_lines: Vec::new(),
                        },
                    };
                    assert(block_v(b) =~= b0v);
                    if is_kind(old.kind, GitDiffCellKind::Delete) {
                        push_line(&mut b.old_lines, &old.text);
                    }
                    if is_kind(new.kind, GitDiffCellKind::Add) {
                        push_line(&mut b.new_lines, &new.text);
                        new_line = next_u32(new_line);
                    }
                    assert(block_v(b) =~= BlockView {
                        old_lines: if old.kind == GitDiffCellKind::Delete {
                            b0v.old_lines.push(old.text@)
                        } else {
                            b0v.old_lines
                        },
                        new_lines: if new.kind == GitDiffCellKind::Add {
                            b0v.new_lines.push(new.text@)
                        } else {
                            b0v.new_lines
                        },
                        ..b0v
                    });
                    block = Some(b);
                } else {
                    if new.line_no.is_some() {
                        new_line = next_u32(new_line);
                    }
                }
                row_idx = row_idx + 1;
            },
        }
        proof {
            assert(change_fold(rv, i + 1, n_h) == change_step(st0, rv[i as int], n_h));
        }
        i = i + 1;
    }
    finish_pending_block(&mut blocks, &mut block);
    blocks
}

// ---------------------------------------------------------------------------
// The panel state
// ---------------------------------------------------------------------------

/// The git panel: the repository's status entries, the section list and tree
/// built from them, and the diff of the selected file. Selections are
/// indices (`None` when nothing is selected).
pub struct GitState {
    pub repo_root: Option<String>,
    pub branch: String,
    pub ahead: u32,
    pub behind: u32,
    pub section: GitSection,
    pub entries: Vec<GitFileEntry>,
    pub filtered: Vec<usize>,
    pub list_selected: Option<usize>,
    pub selected_paths: Vec<String>,
    pub selection_anchor: Option<usize>,
    /// The section tree that `flat_tree` shows.
    pub tree: Vec<TreeNode>,
    pub flat_tree: Vec<FlatTreeItem>,
    pub tree_selected: Option<usize>,
    /// Whether each section (in `section_index` order) is expanded.
    pub section_expanded: [bool; 4],
    /// Keys (`<Section>:<path>`) of the collapsed directories.
    pub dir_collapsed: Vec<String>,
    pub diff_mode: GitDiffMode,
    pub diff_lines: Vec<String>,
    pub diff_hunks: Vec<DiffHunk>,
    pub change_blocks: Vec<ChangeBlock>,
    pub diff_scroll_y: u16,
    pub diff_scroll_x: u16,
    pub diff_generation: u64,
    pub diff_request_id: u64,
    pub show_full_file: bool,
    pub full_file_content: Option<String>,
    pub full_file_scroll_y: u16,
}

pub open spec fn section_index(s: GitSection) -> int {
    match s {
        GitSection::Staged => 0,
        GitSection::Working => 1,
        GitSection::Untracked => 2,
        GitSection::Conflicts => 3,
    }
}

/// Whether a status letter marks a change (neither unmodified nor untracked).
pub open spec fn is_change(c: char) -> bool {
    c != ' ' && c != '?'
}

/// The section an entry is counted in for selections: conflicts, untracked
/// files, staged changes, or else unstaged changes.
pub open spec fn entry_section_of(e: GitFileEntry) -> GitSection {
    if e.is_conflict {
        GitSection::Conflicts
    } else if e.x == '?' {
        GitSection::Untracked
    } else if is_change(e.x) {
        GitSection::Staged
    } else {
        GitSection::Working
    }
}

/// Whether an entry is listed in a section.
pub open spec fn in_section(e: GitFileEntry, s: GitSection) -> bool {
    match s {
        GitSection::Working => is_change(e.y) && !e.is_conflict && !e.is_untracked,
        GitSection::Staged => is_change(e.x) && !e.is_conflict && !e.is_untracked,
        GitSection::Untracked => e.is_untracked,
        GitSection::Conflicts => e.is_conflict,
    }
}

/// Counts of entries per section (staged, working, untracked, conflicts); an
/// entry with both staged and unstaged changes counts in both.
pub open spec fn counts_of(es: Seq<GitFileEntry>) -> (nat, nat, nat, nat)
    decreases es.len(),
{
    if es.len() == 0 {
        (0, 0, 0, 0)
    } else {
        let c = counts_of(es.drop_last());
        let e = es.last();
        if e.is_conflict {
            (c.0, c.1, c.2, c.3 + 1)
        } else if e.is_untracked {
            (c.0, c.1, c.2 + 1, c.3)
        } else {
            (
                c.0 + (if is_change(e.x) { 1nat } else { 0nat }),
                c.1 + (if is_change(e.y) { 1nat } else { 0nat }),
                c.2,
                c.3,
            )
        }
    }
}

proof fn lemma_counts_bound(es: Seq<GitFileEntry>)
    ensures
        counts_of(es).0 <= es.len(),
        counts_of(es).1 <= es.len(),
        counts_of(es).2 <= es.len(),
        counts_of(es).3 <= es.len(),
    decreases es.len(),
{
    if es.len() > 0 {
        lemma_counts_bound(es.drop_last());
    }
}

/// Whether entry `e` is listed in section `s`.
fn listed_in(e: &GitFileEntry, s: GitSection) -> (r: bool)
    ensures
        r == in_section(*e, s),
{
    match s {
        GitSection::Working => e.y != ' ' && e.y != '?' && !e.is_conflict && !e.is_untracked,
        GitSection::Staged => e.x != ' ' && e.x != '?' && !e.is_conflict && !e.is_untracked,
        GitSection::Untracked => e.is_untracked,
        GitSection::Conflicts => e.is_conflict,
    }
}

fn section_of_entry(e: &GitFileEntry) -> (r: GitSection)
    ensures
        r == entry_section_of(*e),
{
    if e.is_conflict {
        GitSection::Conflicts
    } else if e.x == '?' {
        GitSection::Untracked
    } else if e.x != ' ' && e.x != '?' {
        GitSection::Staged
    } else {
        GitSection::Working
    }
}

impl GitState {
    pub fn new() -> (r: Self)
        ensures
            r.repo_root is None,
            r.branch@ == Seq::<char>::empty(),
            r.ahead == 0 && r.behind == 0,
            r.section == GitSection::Working,
            r.entries@.len() == 0 && r.filtered@.len() == 0,
            r.list_selected is None && r.tree_selected is None,
            r.selected_paths@.len() == 0 && r.selection_anchor is None,
            r.flat_tree@.len() == 0,
            r.tree_nodes().len() == 0,
            r.section_expanded@ == seq![true, true, true, true],
            r.dir_collapsed@.len() == 0,
            r.diff_mode == GitDiffMode::SideBySide,
            r.diff_lines@.len() == 0 && r.diff_hunks@.len() == 0 && r.change_blocks@.len() == 0,
            r.diff_scroll_y == 0 && r.diff_scroll_x == 0,
            r.diff_generation == 0 && r.diff_request_id == 0,
            !r.show_full_file && r.full_file_content is None && r.full_file_scroll_y == 0,
    {
        let r = Self {
            repo_root: None,
            branch: String::new(),
            ahead: 0,
            behind: 0,
            section: GitSection::Working,
            entries: Vec::new(),
            filtered: Vec::new(),
            list_selected: None,
            selected_paths: Vec::new(),
            selection_anchor: None,
            tree: Vec::new(),
            flat_tree: Vec::new(),
            tree_selected: None,
            section_expanded: [true, true, true, true],
            dir_collapsed: Vec::new(),
            diff_mode: GitDiffMode::SideBySide,
            diff_lines: Vec::new(),
            diff_hunks: Vec::new(),
            change_blocks: Vec::new(),
            diff_scroll_y: 0,
            diff_scroll_x: 0,
            diff_generation: 0,
            diff_request_id: 0,
            show_full_file: false,
            full_file_content: None,
            full_file_scroll_y: 0,
        };
        assert(r.section_expanded@ =~= seq![true, true, true, true]);
        r
    }

    /// Selects row `idx` of the section list and scrolls the diff home.
    pub fn select_filtered(&mut self, idx: usize)
        ensures
            final(self).list_selected == Some(idx),
            final(self).diff_scroll_y == 0 && final(self).diff_scroll_x == 0,
            final(self).entries@ == old(self).entries@,
            final(self).filtered@ == old(self).filtered@,
            final(self).selected_paths@ == old(self).selected_paths@,
            final(self).selection_anchor == old(self).selection_anchor,
    {
        self.list_selected = Some(idx);
        self.diff_scroll_y = 0;
        self.diff_scroll_x = 0;
    }

    /// Shows the diff `lines`: its hunks (with their rows in both views) and
    /// its change blocks are worked out from it.
    pub fn set_diff_lines(&mut self, lines: Vec<String>)
        requires
            4 * lines.len() < usize::MAX,
        ensures
            strs(final(self).diff_lines@) == strs(lines@),
            ({
                let hs = hunks_spec(strs(lines@));
                let sc = change_scan(strs(lines@), hs.len() as nat);
                &&& final(self).diff_hunks@.len() == hs.len()
                &&& forall|k: int|
                    0 <= k < hs.len() ==> hunk_v(#[trigger] final(self).diff_hunks@[k]) == HunkV {
                        sbs_display_row: if k < sc.hunk_rows.len() {
                            sc.hunk_rows[k]
                        } else {
                            0
                        },
                        ..hs[k]
                    }
                &&& blocks_v(final(self).change_blocks@) == sc.blocks
            }),
            final(self).entries@ == old(self).entries@,
            final(self).flat_tree@ == old(self).flat_tree@,
            final(self).tree_selected == old(self).tree_selected,
    {
        self.diff_lines = lines;
        self.parse_hunks();
    }

    /// Works out the hunks of the current diff, then their side-by-side rows
    /// and the change blocks.
    fn parse_hunks(&mut self)
        requires
            4 * old(self).diff_lines.len() < usize::MAX,
        ensures
            final(self).diff_lines@ == old(self).diff_lines@,
            ({
                let ls = strs(old(self).diff_lines@);
                let hs = hunks_spec(ls);
                let sc = change_scan(ls, hs.len() as nat);
                &&& final(self).diff_hunks@.len() == hs.len()
                &&& forall|k: int|
                    0 <= k < hs.len() ==> hunk_v(#[trigger] final(self).diff_hunks@[k]) == HunkV {
                        sbs_display_row: if k < sc.hunk_rows.len() {
                            sc.hunk_rows[k]
                        } else {
                            0
                        },
                        ..hs[k]
                    }
                &&& blocks_v(final(self).change_blocks@) == sc.blocks
            }),
            final(self).entries@ == old(self).entries@,
            final(self).flat_tree@ == old(self).flat_tree@,
            final(self).tree_selected == old(self).tree_selected,
    {
        let hunks = parse_hunks_of(&self.diff_lines);
        let ghost hs = hunks_v(hunks@);
        let ghost raw = hunks@;
        proof {
            lemma_hunks_unplaced(strs(self.diff_lines@), self.diff_lines@.len() as int);
        }
        self.diff_hunks = hunks;
        self.compute_sbs_hunk_rows();
        proof {
            let sc = change_scan(strs(self.diff_lines@), hs.len() as nat);
            assert forall|k: int| 0 <= k < hs.len() implies hunk_v(
                #[trigger] self.diff_hunks@[k],
            ) == HunkV {
                sbs_display_row: if k < sc.hunk_rows.len() {
                    sc.hunk_rows[k]
                } else {
                    0
                },
                ..hs[k]
            } by {
                assert(hs[k] == hunk_v(raw[k]));
            }
        }
    }

    fn compute_sbs_hunk_rows(&mut self)
        requires
            4 * old(self).diff_lines.len() < usize::MAX,
        ensures
            final(self).diff_lines@ == old(self).diff_lines@,
            ({
                let sc = change_scan(strs(old(self).diff_lines@), old(self).diff_hunks@.len() as nat);
                &&& final(self).diff_hunks@.len() == old(self).diff_hunks@.len()
                &&& forall|k: int|
                    0 <= k < final(self).diff_hunks@.len() ==> hunk_v(
                        #[trigger] final(self).diff_hunks@[k],
                    ) == HunkV {
                        sbs_display_row: if k < sc.hunk_rows.len() {
                            sc.hunk_rows[k]
                        } else {
                            old(self).diff_hunks@[k].sbs_display_row as nat
                        },
                        ..hunk_v(old(self).diff_hunks@[k])
                    }
                &&& blocks_v(final(self).change_blocks@) == sc.blocks
            }),
            final(self).entries@ == old(self).entries@,
            final(self).flat_tree@ == old(self).flat_tree@,
            final(self).tree_selected == old(self).tree_selected,
    {
        let mut hunks: Vec<DiffHunk> = Vec::new();
        std::mem::swap(&mut hunks, &mut self.diff_hunks);
        let blocks = sbs_hunk_rows(&self.diff_lines, &mut hunks);
        self.diff_hunks = hunks;
        self.change_blocks = blocks;
    }

    /// The last hunk that starts at or before unified-view row `row`.
    pub fn hunk_at_display_row(&self, row: usize) -> (r: Option<usize>)
        ensures
            (match r {
                Some(k) => Some(k as nat),
                None => None,
            }) == hunk_at_spec(hunks_v(self.diff_hunks@), row as nat),
    {
        hunk_at(&self.diff_hunks, row)
    }

    /// The entry on the selected row of the section list.
    pub fn selected_entry(&self) -> (r: Option<&GitFileEntry>)
        ensures
            r == (match self.list_selected {
                Some(sel) => if sel < self.filtered@.len() && self.filtered@[sel as int]
                    < self.entries@.len() {
                    Some(&self.entries@[self.filtered@[sel as int] as int])
                } else {
                    None
                },
                None => None,
            }),
    {
        match self.list_selected {
            Some(sel) => {
                if sel < self.filtered.len() {
                    let abs = self.filtered[sel];
                    if abs < self.entries.len() {
                        return Some(&self.entries[abs]);
                    }
                }
                None
            },
            None => None,
        }
    }

    /// Counts of entries per section: staged, working, untracked, conflicts.
    pub fn section_counts(&self) -> (r: (usize, usize, usize, usize))
        ensures
            (r.0 as nat, r.1 as nat, r.2 as nat, r.3 as nat) == counts_of(self.entries@),
    {
        let mut staged: usize = 0;
        let mut working: usize = 0;
        let mut untracked: usize = 0;
        let mut conflicts: usize = 0;
        let mut i: usize = 0;
        while i < self.entries.len()
            invariant
                i <= self.entries.len(),
                (staged as nat, working as nat, untracked as nat, conflicts as nat) == counts_of(
                    self.entries@.take(i as int),
                ),
            decreases self.entries.len() - i,
        {
            proof {
                assert(self.entries@.take(i + 1).drop_last() == self.entries@.take(i as int));
                lemma_counts_bound(self.entries@.take(i as int));
            }
            let e = &self.entries[i];
            if e.is_conflict {
                conflicts = conflicts + 1;
            } else if e.is_untracked {
                untracked = untracked + 1;
            } else {
                if e.x != ' ' && e.x != '?' {
                    staged = staged + 1;
                }
                if e.y != ' ' && e.y != '?' {
                    working = working + 1;
                }
            }
            i = i + 1;
        }
        assert(self.entries@.take(self.entries@.len() as int) == self.entries@);
        (staged, working, untracked, conflicts)
    }

    /// Selects the next tree item, if there is one.
    pub fn tree_move_down(&mut self)
        ensures
            ({
                let cur = match old(self).tree_selected {
                    Some(c) => c as int,
                    None => 0,
                };
                if cur + 1 < old(self).flat_tree@.len() {
                    &&& final(self).tree_selected == Some((cur + 1) as usize)
                    &&& final(self).diff_scroll_y == 0 && final(self).diff_scroll_x == 0
                } else {
                    &&& final(self).tree_selected == old(self).tree_selected
                    &&& final(self).diff_scroll_y == old(self).diff_scroll_y
                    &&& final(self).diff_scroll_x == old(self).diff_scroll_x
                }
            }),
            final(self).flat_tree@ == old(self).flat_tree@,
            final(self).entries@ == old(self).entries@,
    {
        let current = match self.tree_selected {
            Some(c) => c,
            None => 0,
        };
        if current < self.flat_tree.len() && current + 1 < self.flat_tree.len() {
            self.tree_selected = Some(current + 1);
            self.diff_scroll_y = 0;
            self.diff_scroll_x = 0;
        }
    }

    /// Selects the previous tree item, if there is one.
    pub fn tree_move_up(&mut self)
        ensures
            ({
                let cur = match old(self).tree_selected {
                    Some(c) => c as int,
                    None => 0,
                };
                if cur > 0 {
                    &&& final(self).tree_selected == Some((cur - 1) as usize)
                    &&& final(self).diff_scroll_y == 0 && final(self).diff_scroll_x == 0
                } else {
                    &&& final(self).tree_selected == old(self).tree_selected
                    &&& final(self).diff_scroll_y == old(self).diff_scroll_y
                    &&& final(self).diff_scroll_x == old(self).diff_scroll_x
                }
            }),
            final(self).flat_tree@ == old(self).flat_tree@,
            final(self).entries@ == old(self).entries@,
    {
        let current = match self.tree_selected {
            Some(c) => c,
            None => 0,
        };
        if current > 0 {
            self.tree_selected = Some(current - 1);
            self.diff_scroll_y = 0;
            self.diff_scroll_x = 0;
        }
    }

    /// The selected tree item.
    pub fn selected_tree_item(&self) -> (r: Option<&FlatTreeItem>)
        ensures
            r == (match self.tree_selected {
                Some(i) => if i < self.flat_tree@.len() {
                    Some(&self.flat_tree@[i as int])
                } else {
                    None
                },
                None => None,
            }),
    {
        match self.tree_selected {
            Some(i) => if i < self.flat_tree.len() {
                Some(&self.flat_tree[i])
            } else {
                None
            },
            None => None,
        }
    }

    /// The entry of the selected tree item, when it is a file.
    pub fn selected_tree_entry(&self) -> (r: Option<&GitFileEntry>)
        ensures
            r == (match self.tree_selected {
                Some(i) => if i < self.flat_tree@.len() {
                    match self.flat_tree@[i as int].entry_idx {
                        Some(e) => if e < self.entries@.len() {
                            Some(&self.entries@[e as int])
                        } else {
                            None
                        },
                        None => None,
                    }
                } else {
                    None
                },
                None => None,
            }),
    {
        match self.selected_tree_item() {
            Some(item) => match item.entry_idx {
                Some(e) => if e < self.entries.len() {
                    Some(&self.entries[e])
                } else {
                    None
                },
                None => None,
            },
            None => None,
        }
    }

    /// The path of the entry of the selected tree item.
    pub fn selected_path(&self) -> (r: Option<String>)
        ensures
            match self.selected_tree_entry_spec() {
                Some(e) => r is Some && r->0@ == e.path@,
                None => r is None,
            },
    {
        match self.selected_tree_entry() {
            Some(e) => Some(e.path.clone()),
            None => None,
        }
    }

    pub open spec fn selected_tree_entry_spec(&self) -> Option<&GitFileEntry> {
        match self.tree_selected {
            Some(i) => if i < self.flat_tree@.len() {
                match self.flat_tree@[i as int].entry_idx {
                    Some(e) => if e < self.entries@.len() {
                        Some(&self.entries@[e as int])
                    } else {
                        None
                    },
                    None => None,
                }
            } else {
                None
            },
            None => None,
        }
    }

    /// Selects tree item `idx` when it exists.
    pub fn select_tree(&mut self, idx: usize)
        ensures
            idx < old(self).flat_tree@.len() ==> final(self).tree_selected == Some(idx)
                && final(self).diff_scroll_y == 0 && final(self).diff_scroll_x == 0,
            idx >= old(self).flat_tree@.len() ==> final(self).tree_selected
                == old(self).tree_selected && final(self).diff_scroll_y == old(self).diff_scroll_y
                && final(self).diff_scroll_x == old(self).diff_scroll_x,
            final(self).flat_tree@ == old(self).flat_tree@,
            final(self).entries@ == old(self).entries@,
            final(self).selected_paths@ == old(self).selected_paths@,
            final(self).selection_anchor == old(self).selection_anchor,
            final(self).section_expanded == old(self).section_expanded,
            final(self).dir_collapsed@ == old(self).dir_collapsed@,
    {
        if idx < self.flat_tree.len() {
            self.tree_selected = Some(idx);
            self.diff_scroll_y = 0;
            self.diff_scroll_x = 0;
        }
    }

    /// Selects the first tree item.
    pub fn tree_goto_first(&mut self)
        ensures
            old(self).flat_tree@.len() > 0 ==> final(self).tree_selected == Some(0usize)
                && final(self).diff_scroll_y == 0 && final(self).diff_scroll_x == 0,
            old(self).flat_tree@.len() == 0 ==> final(self).tree_selected
                == old(self).tree_selected && final(self).diff_scroll_y == old(self).diff_scroll_y
                && final(self).diff_scroll_x == old(self).diff_scroll_x,
            final(self).flat_tree@ == old(self).flat_tree@,
            final(self).entries@ == old(self).entries@,
    {
        if self.flat_tree.len() > 0 {
            self.tree_selected = Some(0);
            self.diff_scroll_y = 0;
            self.diff_scroll_x = 0;
        }
    }

    /// Selects the last tree item.
    pub fn tree_goto_last(&mut self)
        ensures
            old(self).flat_tree@.len() > 0 ==> final(self).tree_selected == Some(
                (old(self).flat_tree@.len() - 1) as usize,
            ) && final(self).diff_scroll_y == 0 && final(self).diff_scroll_x == 0,
            old(self).flat_tree@.len() == 0 ==> final(self).tree_selected
                == old(self).tree_selected && final(self).diff_scroll_y == old(self).diff_scroll_y
                && final(self).diff_scroll_x == old(self).diff_scroll_x,
            final(self).flat_tree@ == old(self).flat_tree@,
            final(self).entries@ == old(self).entries@,
    {
        if self.flat_tree.len() > 0 {
            self.tree_selected = Some(self.flat_tree.len() - 1);
            self.diff_scroll_y = 0;
            self.diff_scroll_x = 0;
        }
    }

    /// Selects the first file of the tree, when it shows any.
    pub fn select_first_file(&mut self)
        ensures
            (exists|i: int|
                0 <= i < old(self).flat_tree@.len() && #[trigger] old(self).flat_tree@[i].node_type
                    == FlatNodeType::File) ==> ({
                let i = final(self).tree_selected->0 as int;
                &&& final(self).tree_selected is Some
                &&& 0 <= i < old(self).flat_tree@.len()
                &&& old(self).flat_tree@[i].node_type == FlatNodeType::File
                &&& forall|j: int|
                    0 <= j < i ==> #[trigger] old(self).flat_tree@[j].node_type != FlatNodeType::File
            }),
            (forall|i: int|
                0 <= i < old(self).flat_tree@.len() ==> #[trigger] old(self).flat_tree@[i].node_type
                    != FlatNodeType::File) ==> final(self).tree_selected == old(self).tree_selected,
            final(self).flat_tree@ == old(self).flat_tree@,
            final(self).entries@ == old(self).entries@,
            final(self).diff_lines@ == old(self).diff_lines@,
            final(self).diff_generation == old(self).diff_generation,
    {
        let mut i: usize = 0;
        while i < self.flat_tree.len()
            invariant
                i <= self.flat_tree.len(),
                self.flat_tree@ == old(self).flat_tree@,
                self.entries@ == old(self).entries@,
                self.diff_lines@ == old(self).diff_lines@,
                self.diff_generation == old(self).diff_generation,
                self.tree_selected == old(self).tree_selected,
                forall|j: int| 0 <= j < i ==> #[trigger] self.flat_tree@[j].node_type != FlatNodeType::File,
            decreases self.flat_tree.len() - i,
        {
            if self.flat_tree[i].node_type == FlatNodeType::File {
                self.tree_selected = Some(i);
                return;
            }
            i = i + 1;
        }
    }

    /// Selects the first file item whose entry has path `path`; whether one
    /// was found.
    pub fn select_by_path(&mut self, path: &str) -> (found: bool)
        ensures
            found <==> exists|i: int|
                0 <= i < old(self).flat_tree@.len() && #[trigger] file_item_has_path(
                    old(self).flat_tree@[i],
                    old(self).entries@,
                    path@,
                ),
            found ==> ({
                let i = final(self).tree_selected->0 as int;
                &&& final(self).tree_selected is Some
                &&& 0 <= i < old(self).flat_tree@.len()
                &&& file_item_has_path(old(self).flat_tree@[i], old(self).entries@, path@)
                &&& forall|j: int|
                    0 <= j < i ==> !file_item_has_path(
                        #[trigger] old(self).flat_tree@[j],
                        old(self).entries@,
                        path@,
                    )
                &&& *final(self) == (GitState {
                    tree_selected: final(self).tree_selected,
                    diff_scroll_y: 0,
                    diff_scroll_x: 0,
                    ..*old(self)
                })
            }),
            !found ==> *final(self) == *old(self),
            final(self).flat_tree@ == old(self).flat_tree@,
            final(self).entries@ == old(self).entries@,
            final(self).diff_lines@ == old(self).diff_lines@,
            final(self).diff_generation == old(self).diff_generation,
    {
        let target = path.to_owned();
        let mut i: usize = 0;
        while i < self.flat_tree.len()
            invariant
                i <= self.flat_tree.len(),
                target@ == path@,
                *self == *old(self),
                forall|j: int|
                    0 <= j < i ==> !file_item_has_path(
                        #[trigger] self.flat_tree@[j],
                        self.entries@,
                        path@,
                    ),
            decreases self.flat_tree.len() - i,
        {
            let item = &self.flat_tree[i];
            let mut hit = false;
            if item.node_type == FlatNodeType::File {
                match item.entry_idx {
                    Some(e) => {
                        if e < self.entries.len() {
                            hit = self.entries[e].path == target;
                        }
                    },
                    None => {},
                }
            }
            assert(hit == file_item_has_path(self.flat_tree@[i as int], self.entries@, path@));
            if hit {
                self.tree_selected = Some(i);
                self.diff_scroll_y = 0;
                self.diff_scroll_x = 0;
                return true;
            }
            i = i + 1;
        }
        false
    }
}

/// Whether `item` is a file item whose entry has path `path`.
pub open spec fn file_item_has_path(item: FlatTreeItem, entries: Seq<GitFileEntry>, path: Seq<
    char,
>) -> bool {
    item.node_type == FlatNodeType::File && match item.entry_idx {
        Some(e) => e < entries.len() && entries[e as int].path@ == path,
        None => false,
    }
}

// ---------------------------------------------------------------------------
// Section list
// ---------------------------------------------------------------------------

/// Where an entry sorts: conflicts, staged, unstaged, untracked, others.
pub open spec fn entry_rank(e: GitFileEntry) -> nat {
    if e.is_conflict {
        0
    } else if e.is_untracked {
        3
    } else if is_change(e.x) {
        1
    } else if is_change(e.y) {
        2
    } else {
        4
    }
}

/// Entry `a` sorts before entry `b`: by rank, then by path.
pub open spec fn entry_before(a: GitFileEntry, b: GitFileEntry) -> bool {
    entry_rank(a) < entry_rank(b) || (entry_rank(a) == entry_rank(b) && text_lt(a.path@, b.path@))
}

/// Where index `x` goes in the sorted `s`: before the first index whose
/// entry sorts after it.
pub open spec fn insert_pos(s: Seq<usize>, x: usize, es: Seq<GitFileEntry>) -> nat
    decreases s.len(),
{
    if s.len() == 0 {
        0
    } else if entry_before(es[x as int], es[s[0] as int]) {
        0
    } else {
        1 + insert_pos(s.drop_first(), x, es)
    }
}

pub open spec fn insert_sorted(s: Seq<usize>, x: usize, es: Seq<GitFileEntry>) -> Seq<usize> {
    let p = insert_pos(s, x, es);
    s.take(p as int) + seq![x] + s.skip(p as int)
}

/// The indices `s` sorted by their entries, stably (equal entries keep
/// their order).
pub open spec fn sort_indices(s: Seq<usize>, es: Seq<GitFileEntry>) -> Seq<usize>
    decreases s.len(),
{
    if s.len() == 0 {
        Seq::empty()
    } else {
        insert_sorted(sort_indices(s.drop_last(), es), s.last(), es)
    }
}

/// Indices below `k` of the entries listed in section `sec`, in order.
pub open spec fn section_indices(es: Seq<GitFileEntry>, sec: GitSection, k: nat) -> Seq<usize>
    decreases k,
{
    if k == 0 {
        Seq::empty()
    } else {
        let rest = section_indices(es, sec, (k - 1) as nat);
        if in_section(es[k - 1], sec) {
            rest.push((k - 1) as usize)
        } else {
            rest
        }
    }
}

proof fn lemma_insert_pos_bound(s: Seq<usize>, x: usize, es: Seq<GitFileEntry>)
    ensures
        insert_pos(s, x, es) <= s.len(),
    decreases s.len(),
{
    if s.len() > 0 && !entry_before(es[x as int], es[s[0] as int]) {
        lemma_insert_pos_bound(s.drop_first(), x, es);
    }
}

fn entry_before_exec(a: &GitFileEntry, b: &GitFileEntry) -> (r: bool)
    ensures
        r == entry_before(*a, *b),
{
    let ra = rank_of(a);
    let rb = rank_of(b);
    ra < rb || (ra == rb && crate::text::str_lt(a.path.as_str(), b.path.as_str()))
}

fn rank_of(e: &GitFileEntry) -> (r: u8)
    ensures
        r as nat == entry_rank(*e),
{
    if e.is_conflict {
        0
    } else if e.is_untracked {
        3
    } else if e.x != ' ' && e.x != '?' {
        1
    } else if e.y != ' ' && e.y != '?' {
        2
    } else {
        4
    }
}

fn insert_index(v: &mut Vec<usize>, x: usize, es: &Vec<GitFileEntry>)
    requires
        x < es.len(),
        forall|i: int| 0 <= i < old(v)@.len() ==> old(v)@[i] < es.len(),
    ensures
        final(v)@ == insert_sorted(old(v)@, x, es@),
        forall|i: int| 0 <= i < final(v)@.len() ==> final(v)@[i] < es.len(),
{
    let mut p: usize = 0;
    assert(v@.skip(0) == v@);
    while p < v.len() && !entry_before_exec(&es[x], &es[v[p]])
        invariant
            p <= v.len(),
            v@ == old(v)@,
            x < es.len(),
            forall|i: int| 0 <= i < v@.len() ==> v@[i] < es.len(),
            insert_pos(v@, x, es@) == p + insert_pos(v@.skip(p as int), x, es@),
        decreases v.len() - p,
    {
        assert(v@.skip(p as int)[0] == v@[p as int]);
        assert(v@.skip(p as int).drop_first() == v@.skip(p + 1));
        p = p + 1;
    }
    proof {
        if p < v.len() {
            assert(v@.skip(p as int)[0] == v@[p as int]);
        } else {
            assert(v@.skip(p as int).len() == 0);
        }
    }
    v.insert(p, x);
    assert(v@ =~= old(v)@.take(p as int) + seq![x] + old(v)@.skip(p as int));
}

impl GitState {
    /// Lists the entries of the current section, sorted, and keeps the
    /// selection on a row of the list (the first one when it fell off).
    pub fn update_filtered(&mut self)
        ensures
            final(self).filtered@ == sort_indices(
                section_indices(old(self).entries@, old(self).section, old(self).entries@.len()),
                old(self).entries@,
            ),
            final(self).list_selected == (if final(self).filtered@.len() == 0 {
                None
            } else if (match old(self).list_selected {
                Some(s) => s as int,
                None => 0,
            }) >= final(self).filtered@.len() {
                Some(0usize)
            } else {
                old(self).list_selected
            }),
            final(self).entries@ == old(self).entries@,
            final(self).section == old(self).section,
            final(self).flat_tree@ == old(self).flat_tree@,
            final(self).tree_selected == old(self).tree_selected,
            final(self).section_expanded == old(self).section_expanded,
            final(self).dir_collapsed@ == old(self).dir_collapsed@,
    {
        let ghost es = self.entries@;
        let mut kept: Vec<usize> = Vec::new();
        let mut idx: usize = 0;
        while idx < self.entries.len()
            invariant
                idx <= self.entries.len(),
                es == self.entries@,
                kept@ == section_indices(es, self.section, idx as nat),
                forall|i: int| 0 <= i < kept@.len() ==> kept@[i] < idx,
            decreases self.entries.len() - idx,
        {
            let e = &self.entries[idx];
            let keep = match self.section {
                GitSection::Working => e.y != ' ' && e.y != '?' && !e.is_conflict && !e.is_untracked,
                GitSection::Staged => e.x != ' ' && e.x != '?' && !e.is_conflict && !e.is_untracked,
                GitSection::Untracked => e.is_untracked,
                GitSection::Conflicts => e.is_conflict,
            };
            if keep {
                kept.push(idx);
            }
            idx = idx + 1;
        }
        let mut sorted: Vec<usize> = Vec::new();
        let mut k: usize = 0;
        while k < kept.len()
            invariant
                k <= kept.len(),
                es == self.entries@,
                forall|i: int| 0 <= i < kept@.len() ==> kept@[i] < es.len(),
                forall|i: int| 0 <= i < sorted@.len() ==> sorted@[i] < es.len(),
                sorted@ == sort_indices(kept@.take(k as int), es),
            decreases kept.len() - k,
        {
            assert(kept@.take(k + 1).drop_last() == kept@.take(k as int));
            insert_index(&mut sorted, kept[k], &self.entries);
            k = k + 1;
        }
        assert(kept@.take(kept@.len() as int) == kept@);
        self.filtered = sorted;
        let selected = match self.list_selected {
            Some(s) => s,
            None => 0,
        };
        if self.filtered.len() == 0 {
            self.list_selected = None;
        } else if selected >= self.filtered.len() {
            self.list_selected = Some(0);
        }
    }

    /// Shows section `section`.
    pub fn set_section(&mut self, section: GitSection)
        ensures
            final(self).section == section,
            final(self).filtered@ == sort_indices(
                section_indices(old(self).entries@, section, old(self).entries@.len()),
                old(self).entries@,
            ),
            final(self).entries@ == old(self).entries@,
    {
        self.section = section;
        self.update_filtered();
    }
}

// ---------------------------------------------------------------------------
// Status output
// ---------------------------------------------------------------------------

/// `s` with every leading repetition of `p` removed (`trim_start_matches`).
pub open spec fn strip_all_prefix(s: Seq<char>, p: Seq<char>) -> Seq<char>
    decreases s.len(),
{
    if p.len() > 0 && has_prefix(s, p) {
        strip_all_prefix(s.skip(p.len() as int), p)
    } else {
        s
    }
}

/// `s` with every trailing `c` removed (`trim_end_matches`).
pub open spec fn strip_all_suffix(s: Seq<char>, c: char) -> Seq<char>
    decreases s.len(),
{
    if s.len() > 0 && s.last() == c {
        strip_all_suffix(s.drop_last(), c)
    } else {
        s
    }
}

/// Index of the last `c` in `s`, or -1.
pub open spec fn last_index_of(s: Seq<char>, c: char) -> int
    decreases s.len(),
{
    if s.len() == 0 {
        -1
    } else if s.last() == c {
        s.len() - 1
    } else {
        last_index_of(s.drop_last(), c)
    }
}

/// The part of `s` before its first `p`, or all of `s`.
pub open spec fn before_sub(s: Seq<char>, p: Seq<char>) -> Seq<char> {
    let k = find_sub(s, p);
    if k < 0 {
        s
    } else {
        s.take(k)
    }
}

/// The ahead and behind counts after the comma-separated items `items`
/// (each trimmed): `ahead N` and `behind N` set their count (0 when `N` is
/// not a number); a later item wins.
pub open spec fn track_counts(items: Seq<Seq<char>>, k: int, start: (u32, u32)) -> (u32, u32)
    decreases k,
{
    if k <= 0 {
        start
    } else {
        let c = track_counts(items, k - 1, start);
        let item = trim(items[k - 1]);
        if has_prefix(item, "ahead "@) {
            (
                match parse_u32(item.skip(6)) {
                    Some(v) => v,
                    None => 0u32,
                },
                c.1,
            )
        } else if has_prefix(item, "behind "@) {
            (
                c.0,
                match parse_u32(item.skip(7)) {
                    Some(v) => v,
                    None => 0u32,
                },
            )
        } else {
            c
        }
    }
}

/// Branch, ahead and behind counts from a `## ` status line such as
/// `## main...origin/main [ahead 1, behind 2]`.
pub open spec fn branch_line_spec(line: Seq<char>) -> (Seq<char>, u32, u32) {
    let rest = trim(strip_all_prefix(line, "## "@));
    if rest.len() == 0 {
        (Seq::empty(), 0, 0)
    } else {
        let b = last_index_of(rest, '[');
        let head = if b < 0 {
            rest
        } else {
            trim(rest.take(b))
        };
        let branch = trim(before_sub(head, "..."@));
        if b < 0 {
            (branch, 0, 0)
        } else {
            let ab = trim(strip_all_suffix(rest.skip(b + 1), ']'));
            let items = split_char(ab, ',');
            let c = track_counts(items, items.len() as int, (0, 0));
            (branch, c.0, c.1)
        }
    }
}

fn strip_prefix_repeat(v: &Vec<char>, p: &str) -> (r: usize)
    ensures
        r <= v.len(),
        v@.skip(r as int) == strip_all_prefix(v@, p@),
{
    let pc = chars_of(p);
    let mut i: usize = 0;
    assert(v@.skip(0) == v@);
    if pc.len() == 0 {
        return 0;
    }
    while pc.len() <= v.len() - i && starts_with_at(v, i, &pc)
        invariant
            i <= v.len(),
            pc@ == p@,
            pc.len() > 0,
            strip_all_prefix(v@, p@) == strip_all_prefix(v@.skip(i as int), p@),
        decreases v.len() - i,
    {
        assert(v@.skip(i as int).skip(pc@.len() as int) == v@.skip(i + pc.len()));
        i = i + pc.len();
    }
    i
}

proof fn lemma_last_index(s: Seq<char>, c: char, i: int)
    requires
        -1 <= i < s.len(),
        forall|j: int| i < j < s.len() ==> s[j] != c,
        i >= 0 ==> s[i] == c,
    ensures
        last_index_of(s, c) == i,
    decreases s.len(),
{
    if s.len() > 0 && i < s.len() - 1 {
        lemma_last_index(s.drop_last(), c, i);
    }
}

fn count_after(v: &Vec<char>, lo: usize, hi: usize, skip: usize) -> (r: u32)
    requires
        lo <= hi <= v.len(),
        skip <= hi - lo,
    ensures
        r == (match parse_u32(v@.subrange(lo as int, hi as int).skip(skip as int)) {
            Some(x) => x,
            None => 0u32,
        }),
{
    assert(v@.subrange(lo as int, hi as int).skip(skip as int) == v@.subrange(lo + skip, hi as int));
    match crate::text::parse_u32_chars(v, lo + skip, hi) {
        Some(x) => x,
        None => 0,
    }
}

impl GitState {
    /// Reads the branch, and the ahead and behind counts, from a `## `
    /// line of `git status --porcelain=v1 -b`.
    pub fn parse_status_v1_branch_line(&mut self, line: &str)
        ensures
            (final(self).branch@, final(self).ahead, final(self).behind) == branch_line_spec(line@),
            final(self).entries@ == old(self).entries@,
            final(self).filtered@ == old(self).filtered@,
            final(self).list_selected == old(self).list_selected,
            final(self).flat_tree@ == old(self).flat_tree@,
            final(self).tree_selected == old(self).tree_selected,
    {
        let v = chars_of(line);
        let p0 = strip_prefix_repeat(&v, "## ");
        let (a, b) = crate::text::trim_bounds(&v, p0, v.len());
        proof {
            assert(v@.subrange(p0 as int, v@.len() as int) == v@.skip(p0 as int));
        }
        let ghost rest = v@.subrange(a as int, b as int);
        if a == b {
            self.branch = String::new();
            self.ahead = 0;
            self.behind = 0;
            return ;
        }
        let mut k = b;
        while k > a && v[k - 1] != '['
            invariant
                a <= k <= b <= v.len(),
                forall|j: int| k <= j < b ==> v@[j] != '[',
            decreases k - a,
        {
            k = k - 1;
        }
        proof {
            if k > a {
                lemma_last_index(rest, '[', k - 1 - a);
            } else {
                lemma_last_index(rest, '[', -1);
            }
        }
        let (ha, hb) = if k > a {
            crate::text::trim_bounds(&v, a, k - 1)
        } else {
            (a, b)
        };
        proof {
            if k > a {
                assert(rest.take(k - 1 - a) == v@.subrange(a as int, k - 1));
            } else {
                assert(v@.subrange(a as int, b as int) == rest);
            }
        }
        let hv = crate::text::sub_chars(&v, ha, hb);
        let dots = chars_of("...");
        proof {
            reveal_strlit("...");
            assert(hv@.skip(0) == hv@);
        }
        let e = crate::text::find_str_from(&hv, 0, &dots);
        proof {
            if e < hv.len() {
                assert(hv@.take(e as int) == hv@.subrange(0, e as int));
            } else {
                assert(hv@ == hv@.subrange(0, e as int));
            }
        }
        let (ba, bb) = crate::text::trim_bounds(&hv, 0, e);
        self.branch = string_from(&hv, ba, bb);
        self.ahead = 0;
        self.behind = 0;
        if k == a {
            return ;
        }
        let mut c = b;
        while c > k && v[c - 1] == ']'
            invariant
                k <= c <= b <= v.len(),
                strip_all_suffix(v@.subrange(k as int, b as int), ']') == strip_all_suffix(
                    v@.subrange(k as int, c as int),
                    ']',
                ),
            decreases c - k,
        {
            assert(v@.subrange(k as int, c as int).drop_last() == v@.subrange(k as int, c - 1));
            c = c - 1;
        }
        proof {
            assert(rest.skip(k - a) == v@.subrange(k as int, b as int));
        }
        let (ta, tb) = crate::text::trim_bounds(&v, k, c);
        let ab = crate::text::sub_chars(&v, ta, tb);
        let items = crate::text::split_chars(&ab, ',', 0);
        let ghost iv = split_char(ab@, ',');
        assert(items@.map_values(|x: Vec<char>| x@) == iv);
        let mut ahead: u32 = 0;
        let mut behind: u32 = 0;
        let mut i: usize = 0;
        while i < items.len()
            invariant
                i <= items.len(),
                items@.map_values(|x: Vec<char>| x@) == iv,
                (ahead, behind) == track_counts(iv, i as int, (0, 0)),
            decreases items.len() - i,
        {
            let t = crate::text::trim_chars(&items[i]);
            assert(items@[i as int]@ == iv[i as int]);
            proof {
                reveal_strlit("ahead ");
                reveal_strlit("behind ");
                assert(t@.subrange(0, t@.len() as int) == t@);
            }
            if crate::text::starts_with(&t, "ahead ") {
                ahead = count_after(&t, 0, t.len(), 6);
            } else if crate::text::starts_with(&t, "behind ") {
                behind = count_after(&t, 0, t.len(), 7);
            }
            proof {
                assert(track_counts(iv, i + 1, (0, 0)) == (ahead, behind));
            }
            i = i + 1;
        }
        self.ahead = ahead;
        self.behind = behind;
    }
}

/// What a status entry holds.
pub struct EntryView {
    pub path: Seq<char>,
    pub x: char,
    pub y: char,
    pub is_untracked: bool,
    pub is_conflict: bool,
    pub renamed_from: Option<Seq<char>>,
}

pub open spec fn entry_v(e: GitFileEntry) -> EntryView {
    EntryView {
        path: e.path@,
        x: e.x,
        y: e.y,
        is_untracked: e.is_untracked,
        is_conflict: e.is_conflict,
        renamed_from: crate::branch::opt_text(e.renamed_from),
    }
}

pub open spec fn entries_v(es: Seq<GitFileEntry>) -> Seq<EntryView> {
    es.map_values(|e: GitFileEntry| entry_v(e))
}

/// The status pairs git reports for unmerged paths.
pub open spec fn conflict_pair(x: char, y: char) -> bool {
    ||| (x == 'U' && y == 'U')
    ||| (x == 'A' && y == 'A')
    ||| (x == 'D' && y == 'D')
    ||| (x == 'A' && y == 'U')
    ||| (x == 'U' && y == 'A')
    ||| (x == 'D' && y == 'U')
    ||| (x == 'U' && y == 'D')
}

fn is_conflict_status(x: char, y: char) -> (r: bool)
    ensures
        r == conflict_pair(x, y),
{
    (x == 'U' && y == 'U') || (x == 'A' && y == 'A') || (x == 'D' && y == 'D') || (x == 'A' && y
        == 'U') || (x == 'U' && y == 'A') || (x == 'D' && y == 'U') || (x == 'U' && y == 'D')
}

/// One item of `git status --porcelain=v1 -z` output and how many items it
/// takes: `XY path` gives an entry with status letters `X` and `Y`; `?? path`
/// an untracked one; a rename or copy (`R`/`C`) takes the next item as its
/// new path (its own path when that is empty) and uses up two items. Branch
/// lines and items shorter than three characters give nothing.
pub open spec fn status_item(items: Seq<Seq<char>>, i: nat) -> (Option<EntryView>, nat) {
    let s = items[i as int];
    if has_prefix(s, "## "@) || s.len() < 3 {
        (None, 1)
    } else if s[0] == '?' && s[1] == '?' {
        (
            Some(
                EntryView {
                    path: s.skip(3),
                    x: '?',
                    y: '?',
                    is_untracked: true,
                    is_conflict: false,
                    renamed_from: None,
                },
            ),
            1,
        )
    } else if s[0] == 'R' || s[0] == 'C' {
        let from = s.skip(3);
        let to = if i + 1 < items.len() {
            items[i + 1 as int]
        } else {
            Seq::empty()
        };
        (
            Some(
                EntryView {
                    path: if to.len() == 0 {
                        from
                    } else {
                        to
                    },
                    x: s[0],
                    y: s[1],
                    is_untracked: false,
                    is_conflict: conflict_pair(s[0], s[1]),
                    renamed_from: Some(from),
                },
            ),
            2,
        )
    } else {
        (
            Some(
                EntryView {
                    path: s.skip(3),
                    x: s[0],
                    y: s[1],
                    is_untracked: false,
                    is_conflict: conflict_pair(s[0], s[1]),
                    renamed_from: None,
                },
            ),
            1,
        )
    }
}

/// The entries of the status items from item `i` on.
pub open spec fn status_from(items: Seq<Seq<char>>, i: nat) -> Seq<EntryView>
    decreases items.len() - i,
{
    if i >= items.len() {
        Seq::empty()
    } else {
        let st = status_item(items, i);
        let rest = if i + st.1 <= items.len() {
            status_from(items, i + st.1)
        } else {
            Seq::empty()
        };
        match st.0 {
            Some(e) => seq![e] + rest,
            None => rest,
        }
    }
}

/// The last branch line among the items, if any.
pub open spec fn last_branch_line(items: Seq<Seq<char>>) -> Option<Seq<char>>
    decreases items.len(),
{
    if items.len() == 0 {
        None
    } else if has_prefix(items.last(), "## "@) {
        Some(items.last())
    } else {
        last_branch_line(items.drop_last())
    }
}

fn push_entry(out: &mut Vec<GitFileEntry>, e: GitFileEntry)
    ensures
        entries_v(final(out)@) == entries_v(old(out)@).push(entry_v(e)),
{
    out.push(e);
    assert(entries_v(out@) =~= entries_v(old(out)@).push(entry_v(e)));
}

impl GitState {
    /// Clears what a refresh recomputes.
    pub fn refresh_start(&mut self)
        ensures
            final(self).repo_root is None,
            final(self).branch@ == Seq::<char>::empty(),
            final(self).ahead == 0 && final(self).behind == 0,
            final(self).entries@.len() == 0 && final(self).filtered@.len() == 0,
            final(self).list_selected is None,
            final(self).selected_paths@.len() == 0 && final(self).selection_anchor is None,
            final(self).diff_lines@.len() == 0,
            final(self).diff_scroll_y == 0 && final(self).diff_scroll_x == 0,
            final(self).diff_generation == 0 && final(self).diff_request_id == 0,
            final(self).flat_tree@ == old(self).flat_tree@,
            final(self).tree_selected == old(self).tree_selected,
            final(self).section == old(self).section,
    {
        self.repo_root = None;
        self.branch = String::new();
        self.ahead = 0;
        self.behind = 0;
        self.entries = Vec::new();
        self.filtered = Vec::new();
        self.list_selected = None;
        self.selected_paths = Vec::new();
        self.selection_anchor = None;
        self.diff_lines = Vec::new();
        self.diff_scroll_y = 0;
        self.diff_scroll_x = 0;
        self.diff_generation = 0;
        self.diff_request_id = 0;
    }

    /// Reads `git status --porcelain=v1 -z -b` items: the branch line sets
    /// the branch and its counts, and the entries are returned (untracked
    /// directories as they are listed).
    pub fn status_entries(&mut self, items: &Vec<String>) -> (r: Vec<GitFileEntry>)
        ensures
            entries_v(r@) == status_from(strs(items@), 0),
            match last_branch_line(strs(items@)) {
                Some(l) => (final(self).branch@, final(self).ahead, final(self).behind)
                    == branch_line_spec(l),
                None => final(self).branch@ == old(self).branch@ && final(self).ahead
                    == old(self).ahead && final(self).behind == old(self).behind,
            },
            final(self).entries@ == old(self).entries@,
            final(self).flat_tree@ == old(self).flat_tree@,
            final(self).tree_selected == old(self).tree_selected,
    {
        let ghost is = strs(items@);
        let mut out: Vec<GitFileEntry> = Vec::new();
        let mut i: usize = 0;
        proof {
            assert(entries_v(out@) == Seq::<EntryView>::empty());
        }
        while i < items.len()
            invariant
                i <= items.len(),
                is == strs(items@),
                entries_v(out@) + status_from(is, i as nat) == status_from(is, 0),
                self.entries@ == old(self).entries@,
                self.flat_tree@ == old(self).flat_tree@,
                self.tree_selected == old(self).tree_selected,
            decreases items.len() - i,
        {
            let ghost before = entries_v(out@);
            let s = &items[i];
            let v = chars_of(s.as_str());
            assert(is[i as int] == s@);
            if crate::text::str_starts_with(s.as_str(), "## ") || v.len() < 3 {
                assert(status_item(is, i as nat).0 is None);
                i = i + 1;
            } else {
                let x = v[0];
                let y = v[1];
                let rest = string_from(&v, 3, v.len());
                assert(v@.subrange(3, v@.len() as int) == s@.skip(3));
                if x == '?' && y == '?' {
                    let e = GitFileEntry {
                        path: rest,
                        x: '?',
                        y: '?',
                        is_untracked: true,
                        is_conflict: false,
                        renamed_from: None,
                    };
                    let ghost ev = entry_v(e);
                    push_entry(&mut out, e);
                    assert(status_item(is, i as nat) == (Some(ev), 1nat));
                    i = i + 1;
                } else if x == 'R' || x == 'C' {
                    let to = if i + 1 < items.len() {
                        items[i + 1].clone()
                    } else {
                        String::new()
                    };
                    let path = if to.as_str().is_empty() {
                        rest.clone()
                    } else {
                        to
                    };
                    let e = GitFileEntry {
                        path,
                        x,
                        y,
                        is_untracked: false,
                        is_conflict: is_conflict_status(x, y),
                        renamed_from: Some(rest),
                    };
                    proof {
                        if i + 1 < items.len() {
                            assert(is[i + 1] == items@[i + 1]@);
                        }
                    }
                    let ghost sp = is[i as int];
                    let ghost from = sp.skip(3);
                    let ghost tov = if i + 1 < is.len() { is[i + 1] } else { Seq::<char>::empty() };
                    assert(e.path@ == (if tov.len() == 0 { from } else { tov }));
                    assert(e.x == sp[0] && e.y == sp[1]);
                    assert(entry_v(e) == EntryView {
                        path: if tov.len() == 0 { from } else { tov },
                        x: sp[0],
                        y: sp[1],
                        is_untracked: false,
                        is_conflict: conflict_pair(sp[0], sp[1]),
                        renamed_from: Some(from),
                    });
                    let ghost ev = entry_v(e);
                    push_entry(&mut out, e);
                    assert(status_item(is, i as nat) == (Some(ev), 2nat));
                    if i + 1 < items.len() {
                        i = i + 2;
                    } else {
                        i = items.len();
                    }
                } else {
                    let e = GitFileEntry {
                        path: rest,
                        x,
                        y,
                        is_untracked: false,
                        is_conflict: is_conflict_status(x, y),
                        renamed_from: None,
                    };
                    let ghost ev = entry_v(e);
                    push_entry(&mut out, e);
                    assert(status_item(is, i as nat) == (Some(ev), 1nat));
                    i = i + 1;
                }
            }
        }
        let mut k: usize = 0;
        let mut last: Option<usize> = None;
        while k < items.len()
            invariant
                k <= items.len(),
                is == strs(items@),
                match last {
                    Some(j) => j < k && last_branch_line(is.take(k as int)) == Some(is[j as int]),
                    None => last_branch_line(is.take(k as int)) is None,
                },
            decreases items.len() - k,
        {
            assert(is.take(k + 1).drop_last() == is.take(k as int));
            assert(is.take(k + 1).last() == items@[k as int]@);
            if crate::text::str_starts_with(items[k].as_str(), "## ") {
                last = Some(k);
            }
            k = k + 1;
        }
        assert(is.take(is.len() as int) == is);
        match last {
            Some(j) => {
                assert(is[j as int] == items@[j as int]@);
                self.parse_status_v1_branch_line(items[j].as_str());
            },
            None => {},
        }
        out
    }
}

// ---------------------------------------------------------------------------
// The file tree
// ---------------------------------------------------------------------------

/// A node of the section tree.
pub enum TreeNode {
    Section { kind: GitSection, expanded: bool, children: Vec<TreeNode> },
    Directory { name: String, path: String, expanded: bool, children: Vec<TreeNode> },
    File { name: String, entry_idx: usize },
}

/// An entry placed in the tree: the path components still to place, and the
/// entry's index.
pub type PathItem = (Seq<Seq<char>>, usize);

pub open spec fn total_len(items: Seq<PathItem>) -> nat
    decreases items.len(),
{
    if items.len() == 0 {
        0
    } else {
        total_len(items.drop_last()) + items.last().0.len()
    }
}

/// `names` (sorted, without repeats) with `d` added in its place.
pub open spec fn insert_name(names: Seq<Seq<char>>, d: Seq<char>) -> Seq<Seq<char>>
    decreases names.len(),
{
    if names.len() == 0 {
        seq![d]
    } else if names[0] == d {
        names
    } else if text_lt(d, names[0]) {
        seq![d] + names
    } else {
        seq![names[0]] + insert_name(names.drop_first(), d)
    }
}

/// The sorted names of the directories directly under this level: the
/// first components of the items that have more than one left.
pub open spec fn dir_names(items: Seq<PathItem>) -> Seq<Seq<char>>
    decreases items.len(),
{
    if items.len() == 0 {
        Seq::empty()
    } else {
        let r = dir_names(items.drop_last());
        let it = items.last();
        if it.0.len() >= 2 {
            insert_name(r, it.0[0])
        } else {
            r
        }
    }
}

/// The items under directory `d`, one component shorter, in order.
pub open spec fn sub_items(items: Seq<PathItem>, d: Seq<char>) -> Seq<PathItem>
    decreases items.len(),
{
    if items.len() == 0 {
        Seq::empty()
    } else {
        let r = sub_items(items.drop_last(), d);
        let it = items.last();
        if it.0.len() >= 2 && it.0[0] == d {
            r.push((it.0.drop_first(), it.1))
        } else {
            r
        }
    }
}

/// `fs` (sorted by name) with file `f` placed after the files whose names do
/// not sort after it.
pub open spec fn insert_file(fs: Seq<(Seq<char>, usize)>, f: (Seq<char>, usize)) -> Seq<
    (Seq<char>, usize),
>
    decreases fs.len(),
{
    if fs.len() == 0 {
        seq![f]
    } else if text_lt(f.0, fs[0].0) {
        seq![f] + fs
    } else {
        seq![fs[0]] + insert_file(fs.drop_first(), f)
    }
}

/// The files of this level (items with one component left) sorted by name;
/// files of the same name keep their order.
pub open spec fn file_items(items: Seq<PathItem>) -> Seq<(Seq<char>, usize)>
    decreases items.len(),
{
    if items.len() == 0 {
        Seq::empty()
    } else {
        let r = file_items(items.drop_last());
        let it = items.last();
        if it.0.len() == 1 {
            insert_file(r, (it.0[0], it.1))
        } else {
            r
        }
    }
}

pub open spec fn join_path(prefix: Seq<char>, name: Seq<char>) -> Seq<char> {
    if prefix.len() == 0 {
        name
    } else {
        prefix + seq!['/'] + name
    }
}

pub open spec fn section_name(s: GitSection) -> Seq<char> {
    match s {
        GitSection::Staged => "Staged"@,
        GitSection::Working => "Working"@,
        GitSection::Untracked => "Untracked"@,
        GitSection::Conflicts => "Conflicts"@,
    }
}

/// The key under which a directory's collapsed state is kept.
pub open spec fn dir_key(sec: GitSection, path: Seq<char>) -> Seq<char> {
    section_name(sec) + seq![':'] + path
}

/// `nodes` is the level built from `items`: the directories (sorted, each
/// collapsed when its key is listed) with their own levels, then the files
/// sorted by name.
pub open spec fn built_level(
    nodes: Seq<TreeNode>,
    items: Seq<PathItem>,
    prefix: Seq<char>,
    sec: GitSection,
    collapsed: Seq<Seq<char>>,
) -> bool
    decreases total_len(items),
{
    let names = dir_names(items);
    let files = file_items(items);
    &&& nodes.len() == names.len() + files.len()
    &&& forall|k: int|
        0 <= k < names.len() ==> {
            let path = join_path(prefix, names[k]);
            let sub = sub_items(items, names[k]);
            &&& (#[trigger] nodes[k]) is Directory
            &&& nodes[k]->Directory_name@ == names[k]
            &&& nodes[k]->Directory_path@ == path
            &&& nodes[k]->Directory_expanded == !collapsed.contains(dir_key(sec, path))
            &&& (total_len(sub) < total_len(items) ==> built_level(
                nodes[k]->Directory_children@,
                sub,
                path,
                sec,
                collapsed,
            ))
        }
    &&& forall|j: int|
        0 <= j < files.len() ==> {
            &&& (#[trigger] nodes[names.len() + j]) is File
            &&& nodes[names.len() + j]->File_name@ == files[j].0
            &&& nodes[names.len() + j]->entry_idx == files[j].1
        }
}

proof fn lemma_insert_name_has(names: Seq<Seq<char>>, d: Seq<char>, x: Seq<char>)
    ensures
        insert_name(names, d).contains(x) ==> (x == d || names.contains(x)),
    decreases names.len(),
{
    if names.len() > 0 && names[0] != d && !text_lt(d, names[0]) {
        lemma_insert_name_has(names.drop_first(), d, x);
        if insert_name(names, d).contains(x) {
            let i = choose|i: int|
                0 <= i < insert_name(names, d).len() && insert_name(names, d)[i] == x;
            if i > 0 {
                assert(insert_name(names.drop_first(), d)[i - 1] == x);
                if names.drop_first().contains(x) {
                    let j = choose|j: int| 0 <= j < names.drop_first().len() && names.drop_first()[j] == x;
                    assert(names[j + 1] == x);
                }
            } else {
                assert(names[0] == x);
            }
        }
    } else if names.len() > 0 && names[0] != d && text_lt(d, names[0]) {
        if insert_name(names, d).contains(x) {
            let i = choose|i: int| 0 <= i < insert_name(names, d).len() && insert_name(names, d)[i] == x;
            if i > 0 {
                assert(names[i - 1] == x);
            }
        }
    }
}

proof fn lemma_dir_name_source(items: Seq<PathItem>, d: Seq<char>)
    requires
        dir_names(items).contains(d),
    ensures
        total_len(sub_items(items, d)) < total_len(items),
    decreases items.len(),
{
    let it = items.last();
    let r = dir_names(items.drop_last());
    if it.0.len() >= 2 {
        lemma_insert_name_has(r, it.0[0], d);
    }
    if it.0.len() >= 2 && it.0[0] == d {
        lemma_sub_le(items.drop_last(), d);
        lemma_total_len_push(sub_items(items.drop_last(), d), (it.0.drop_first(), it.1));
    } else {
        lemma_dir_name_source(items.drop_last(), d);
    }
}

proof fn lemma_sub_le(items: Seq<PathItem>, d: Seq<char>)
    ensures
        total_len(sub_items(items, d)) <= total_len(items),
    decreases items.len(),
{
    if items.len() > 0 {
        lemma_sub_le(items.drop_last(), d);
        let it = items.last();
        if it.0.len() >= 2 && it.0[0] == d {
            lemma_total_len_push(sub_items(items.drop_last(), d), (it.0.drop_first(), it.1));
        }
    }
}

proof fn lemma_total_len_push(s: Seq<PathItem>, x: PathItem)
    ensures
        total_len(s.push(x)) == total_len(s) + x.0.len(),
{
    assert(s.push(x).drop_last() == s);
}

pub open spec fn rows_of(v: Seq<Vec<char>>) -> Seq<Seq<char>> {
    v.map_values(|x: Vec<char>| x@)
}

pub open spec fn items_v(v: Seq<(Vec<Vec<char>>, usize)>) -> Seq<PathItem> {
    v.map_values(|x: (Vec<Vec<char>>, usize)| (rows_of(x.0@), x.1))
}

pub open spec fn files_v(v: Seq<(Vec<char>, usize)>) -> Seq<(Seq<char>, usize)> {
    v.map_values(|x: (Vec<char>, usize)| (x.0@, x.1))
}

pub proof fn lemma_insert_name_at(names: Seq<Seq<char>>, d: Seq<char>, p: int)
    requires
        0 <= p <= names.len(),
        forall|j: int| 0 <= j < p ==> names[j] != d && !text_lt(d, #[trigger] names[j]),
        p < names.len() ==> (names[p] == d || text_lt(d, names[p])),
    ensures
        insert_name(names, d) == (if p < names.len() && names[p] == d {
            names
        } else {
            names.take(p) + seq![d] + names.skip(p)
        }),
    decreases p,
{
    if p > 0 {
        lemma_insert_name_at(names.drop_first(), d, p - 1);
        assert(names.drop_first().take(p - 1) == names.take(p).drop_first());
        assert(names.drop_first().skip(p - 1) == names.skip(p));
        if p < names.len() && names[p] == d {
            assert(seq![names[0]] + names.drop_first() == names);
        } else {
            assert(seq![names[0]] + (names.drop_first().take(p - 1) + seq![d] + names.drop_first().skip(
                p - 1,
            )) == names.take(p) + seq![d] + names.skip(p));
        }
    } else {
        assert(names.take(0) + seq![d] + names.skip(0) == seq![d] + names);
    }
}

fn chars_clone(v: &Vec<char>) -> (r: Vec<char>)
    ensures
        r@ == v@,
{
    let r = crate::text::sub_chars(v, 0, v.len());
    assert(v@.subrange(0, v@.len() as int) == v@);
    r
}

fn insert_name_exec(names: &mut Vec<Vec<char>>, d: &Vec<char>)
    ensures
        rows_of(final(names)@) == insert_name(rows_of(old(names)@), d@),
{
    let ghost ns = rows_of(names@);
    let mut p: usize = 0;
    while p < names.len() && !crate::text::chars_eq(&names[p], d) && !crate::text::chars_lt(
        d,
        &names[p],
    )
        invariant
            p <= names.len(),
            names@ == old(names)@,
            ns == rows_of(names@),
            forall|j: int| 0 <= j < p ==> ns[j] != d@ && !text_lt(d@, #[trigger] ns[j]),
        decreases names.len() - p,
    {
        p = p + 1;
    }
    proof {
        lemma_insert_name_at(ns, d@, p as int);
    }
    if p < names.len() && crate::text::chars_eq(&names[p], d) {
        return ;
    }
    names.insert(p, chars_clone(d));
    assert(rows_of(names@) =~= ns.take(p as int) + seq![d@] + ns.skip(p as int));
}

proof fn lemma_insert_file_at(fs: Seq<(Seq<char>, usize)>, f: (Seq<char>, usize), p: int)
    requires
        0 <= p <= fs.len(),
        forall|j: int| 0 <= j < p ==> !text_lt(f.0, #[trigger] fs[j].0),
        p < fs.len() ==> text_lt(f.0, fs[p].0),
    ensures
        insert_file(fs, f) == fs.take(p) + seq![f] + fs.skip(p),
    decreases p,
{
    if p > 0 {
        lemma_insert_file_at(fs.drop_first(), f, p - 1);
        assert(seq![fs[0]] + (fs.drop_first().take(p - 1) + seq![f] + fs.drop_first().skip(p - 1))
            == fs.take(p) + seq![f] + fs.skip(p));
    } else {
        assert(fs.take(0) + seq![f] + fs.skip(0) == seq![f] + fs);
    }
}

fn insert_file_exec(fs: &mut Vec<(Vec<char>, usize)>, name: &Vec<char>, idx: usize)
    ensures
        files_v(final(fs)@) == insert_file(files_v(old(fs)@), (name@, idx)),
{
    let ghost fv = files_v(fs@);
    let mut p: usize = 0;
    while p < fs.len() && !crate::text::chars_lt(name, &fs[p].0)
        invariant
            p <= fs.len(),
            fs@ == old(fs)@,
            fv == files_v(fs@),
            forall|j: int| 0 <= j < p ==> !text_lt(name@, #[trigger] fv[j].0),
        decreases fs.len() - p,
    {
        p = p + 1;
    }
    proof {
        lemma_insert_file_at(fv, (name@, idx), p as int);
    }
    fs.insert(p, (chars_clone(name), idx));
    assert(files_v(fs@) =~= fv.take(p as int) + seq![(name@, idx)] + fv.skip(p as int));
}

fn collect_dir_names(items: &Vec<(Vec<Vec<char>>, usize)>) -> (r: Vec<Vec<char>>)
    ensures
        rows_of(r@) == dir_names(items_v(items@)),
{
    let ghost iv = items_v(items@);
    let mut names: Vec<Vec<char>> = Vec::new();
    let mut i: usize = 0;
    assert(rows_of(names@) == Seq::<Seq<char>>::empty());
    while i < items.len()
        invariant
            i <= items.len(),
            iv == items_v(items@),
            rows_of(names@) == dir_names(iv.take(i as int)),
        decreases items.len() - i,
    {
        assert(iv.take(i + 1).drop_last() == iv.take(i as int));
        assert(iv.take(i + 1).last() == iv[i as int]);
        let comps = &items[i].0;
        if comps.len() >= 2 {
            insert_name_exec(&mut names, &comps[0]);
        }
        i = i + 1;
    }
    assert(iv.take(iv.len() as int) == iv);
    names
}

fn collect_files(items: &Vec<(Vec<Vec<char>>, usize)>) -> (r: Vec<(Vec<char>, usize)>)
    ensures
        files_v(r@) == file_items(items_v(items@)),
{
    let ghost iv = items_v(items@);
    let mut fs: Vec<(Vec<char>, usize)> = Vec::new();
    let mut i: usize = 0;
    assert(files_v(fs@) == Seq::<(Seq<char>, usize)>::empty());
    while i < items.len()
        invariant
            i <= items.len(),
            iv == items_v(items@),
            files_v(fs@) == file_items(iv.take(i as int)),
        decreases items.len() - i,
    {
        assert(iv.take(i + 1).drop_last() == iv.take(i as int));
        assert(iv.take(i + 1).last() == iv[i as int]);
        let comps = &items[i].0;
        if comps.len() == 1 {
            insert_file_exec(&mut fs, &comps[0], items[i].1);
        }
        i = i + 1;
    }
    assert(iv.take(iv.len() as int) == iv);
    fs
}

fn rows_tail(v: &Vec<Vec<char>>) -> (r: Vec<Vec<char>>)
    requires
        v.len() >= 1,
    ensures
        rows_of(r@) == rows_of(v@).drop_first(),
{
    let mut r: Vec<Vec<char>> = Vec::new();
    let mut i: usize = 1;
    while i < v.len()
        invariant
            1 <= i <= v.len(),
            rows_of(r@) == rows_of(v@).subrange(1, i as int),
        decreases v.len() - i,
    {
        let c = chars_clone(&v[i]);
        let ghost before = r@;
        r.push(c);
        assert(rows_of(r@) == rows_of(before).push(c@));
        assert(rows_of(v@).subrange(1, i + 1) == rows_of(v@).subrange(1, i as int).push(v@[i as int]@));
        i = i + 1;
    }
    assert(rows_of(v@).subrange(1, v@.len() as int) == rows_of(v@).drop_first());
    r
}

fn collect_sub(items: &Vec<(Vec<Vec<char>>, usize)>, d: &Vec<char>) -> (r: Vec<(Vec<Vec<char>>, usize)>)
    ensures
        items_v(r@) == sub_items(items_v(items@), d@),
{
    let ghost iv = items_v(items@);
    let mut out: Vec<(Vec<Vec<char>>, usize)> = Vec::new();
    let mut i: usize = 0;
    assert(items_v(out@) == Seq::<PathItem>::empty());
    while i < items.len()
        invariant
            i <= items.len(),
            iv == items_v(items@),
            items_v(out@) == sub_items(iv.take(i as int), d@),
        decreases items.len() - i,
    {
        assert(iv.take(i + 1).drop_last() == iv.take(i as int));
        assert(iv.take(i + 1).last() == iv[i as int]);
        let comps = &items[i].0;
        if comps.len() >= 2 && crate::text::chars_eq(&comps[0], d) {
            let rest = rows_tail(comps);
            let ghost before = out@;
            out.push((rest, items[i].1));
            assert(items_v(out@) == items_v(before).push((rows_of(rest@), items@[i as int].1)));
        }
        i = i + 1;
    }
    assert(iv.take(iv.len() as int) == iv);
    out
}

fn join_path_exec(prefix: &Vec<char>, name: &Vec<char>) -> (r: Vec<char>)
    ensures
        r@ == join_path(prefix@, name@),
{
    let mut r = chars_clone(prefix);
    if prefix.len() > 0 {
        r.push('/');
    }
    let mut i: usize = 0;
    let ghost start = r@;
    while i < name.len()
        invariant
            i <= name.len(),
            r@ == start + name@.take(i as int),
        decreases name.len() - i,
    {
        r.push(name[i]);
        assert(name@.take(i + 1) == name@.take(i as int).push(name@[i as int]));
        i = i + 1;
    }
    assert(name@.take(name@.len() as int) == name@);
    r
}

fn section_name_exec(s: GitSection) -> (r: String)
    ensures
        r@ == section_name(s),
{
    match s {
        GitSection::Staged => "Staged".to_owned(),
        GitSection::Working => "Working".to_owned(),
        GitSection::Untracked => "Untracked".to_owned(),
        GitSection::Conflicts => "Conflicts".to_owned(),
    }
}

fn dir_key_exec(sec: GitSection, path: &Vec<char>) -> (r: String)
    ensures
        r@ == dir_key(sec, path@),
{
    let mut k = section_name_exec(sec);
    k.push(':');
    push_chars(&mut k, path);
    k
}

fn contains_string(v: &Vec<String>, s: &String) -> (r: bool)
    ensures
        r == strs(v@).contains(s@),
{
    let mut i: usize = 0;
    while i < v.len()
        invariant
            i <= v.len(),
            forall|j: int| 0 <= j < i ==> strs(v@)[j] != s@,
        decreases v.len() - i,
    {
        if v[i] == *s {
            assert(strs(v@)[i as int] == s@);
            return true;
        }
        i = i + 1;
    }
    false
}

/// Builds the level of the tree for `items` under directory `prefix`.
fn build_level(
    items: &Vec<(Vec<Vec<char>>, usize)>,
    prefix: &Vec<char>,
    sec: GitSection,
    collapsed: &Vec<String>,
) -> (r: Vec<TreeNode>)
    ensures
        built_level(r@, items_v(items@), prefix@, sec, strs(collapsed@)),
    decreases total_len(items_v(items@)),
{
    let ghost iv = items_v(items@);
    let names = collect_dir_names(items);
    let files = collect_files(items);
    let ghost nv = rows_of(names@);
    let ghost fv = files_v(files@);
    let mut out: Vec<TreeNode> = Vec::new();
    let mut k: usize = 0;
    while k < names.len()
        invariant
            k <= names.len(),
            iv == items_v(items@),
            nv == rows_of(names@),
            nv == dir_names(iv),
            out@.len() == k,
            forall|j: int|
                0 <= j < k ==> {
                    let path = join_path(prefix@, nv[j]);
                    let sub = sub_items(iv, nv[j]);
                    &&& (#[trigger] out@[j]) is Directory
                    &&& out@[j]->Directory_name@ == nv[j]
                    &&& out@[j]->Directory_path@ == path
                    &&& out@[j]->Directory_expanded == !strs(collapsed@).contains(dir_key(sec, path))
                    &&& built_level(out@[j]->Directory_children@, sub, path, sec, strs(collapsed@))
                },
        decreases names.len() - k,
    {
        let d = &names[k];
        assert(nv[k as int] == d@);
        let path = join_path_exec(prefix, d);
        let sub = collect_sub(items, d);
        proof {
            assert(nv.contains(d@));
            lemma_dir_name_source(iv, d@);
        }
        let children = build_level(&sub, &path, sec, collapsed);
        let key = dir_key_exec(sec, &path);
        let expanded = !contains_string(collapsed, &key);
        let node = TreeNode::Directory {
            name: string_of(d),
            path: string_of(&path),
            expanded,
            children,
        };
        out.push(node);
        k = k + 1;
    }
    let mut j: usize = 0;
    while j < files.len()
        invariant
            j <= files.len(),
            iv == items_v(items@),
            nv == dir_names(iv),
            nv.len() == names.len(),
            fv == files_v(files@),
            fv == file_items(iv),
            out@.len() == names.len() + j,
            forall|m: int|
                0 <= m < names.len() ==> {
                    let path = join_path(prefix@, nv[m]);
                    let sub = sub_items(iv, nv[m]);
                    &&& (#[trigger] out@[m]) is Directory
                    &&& out@[m]->Directory_name@ == nv[m]
                    &&& out@[m]->Directory_path@ == path
                    &&& out@[m]->Directory_expanded == !strs(collapsed@).contains(dir_key(sec, path))
                    &&& built_level(out@[m]->Directory_children@, sub, path, sec, strs(collapsed@))
                },
            forall|m: int|
                0 <= m < j ==> {
                    &&& (#[trigger] out@[names.len() + m]) is File
                    &&& out@[names.len() + m]->File_name@ == fv[m].0
                    &&& out@[names.len() + m]->entry_idx == fv[m].1
                },
        decreases files.len() - j,
    {
        let node = TreeNode::File { name: string_of(&files[j].0), entry_idx: files[j].1 };
        out.push(node);
        j = j + 1;
    }
    out
}

/// Whether an entry is shown under section `sec` of the tree: conflicts,
/// then untracked files; other entries under Staged when staged and under
/// Changes when changed in the work tree (possibly both).
pub open spec fn tree_member(e: GitFileEntry, sec: GitSection) -> bool {
    match sec {
        GitSection::Conflicts => e.is_conflict,
        GitSection::Untracked => !e.is_conflict && e.is_untracked,
        GitSection::Staged => !e.is_conflict && !e.is_untracked && is_change(e.x),
        GitSection::Working => !e.is_conflict && !e.is_untracked && is_change(e.y),
    }
}

/// Indices below `k` of the entries shown under `sec`, in order.
pub open spec fn tree_indices(es: Seq<GitFileEntry>, sec: GitSection, k: nat) -> Seq<usize>
    decreases k,
{
    if k == 0 {
        Seq::empty()
    } else {
        let rest = tree_indices(es, sec, (k - 1) as nat);
        if tree_member(es[k - 1], sec) {
            rest.push((k - 1) as usize)
        } else {
            rest
        }
    }
}

/// The entries `idxs` placed at the top of a section: their path components.
pub open spec fn path_items(es: Seq<GitFileEntry>, idxs: Seq<usize>) -> Seq<PathItem> {
    idxs.map_values(|i: usize| (split_char(es[i as int].path@, '/'), i))
}

/// Section `k` in display order: Staged, Changes, Untracked, Conflicts.
pub open spec fn section_at(k: int) -> GitSection {
    if k == 0 {
        GitSection::Staged
    } else if k == 1 {
        GitSection::Working
    } else if k == 2 {
        GitSection::Untracked
    } else {
        GitSection::Conflicts
    }
}

/// The sections among the first `k` (in display order) that have entries.
pub open spec fn present_upto(es: Seq<GitFileEntry>, k: int) -> Seq<GitSection>
    decreases k,
{
    if k <= 0 {
        Seq::empty()
    } else {
        let r = present_upto(es, k - 1);
        if tree_indices(es, section_at(k - 1), es.len()).len() > 0 {
            r.push(section_at(k - 1))
        } else {
            r
        }
    }
}

/// The sections shown, in order: those with at least one entry.
pub open spec fn present_sections(es: Seq<GitFileEntry>) -> Seq<GitSection> {
    present_upto(es, 4)
}

/// `tree` is the tree of `es`: a node per present section (expanded as
/// `expanded` says), each holding the level built from its entries.
pub open spec fn tree_built(
    tree: Seq<TreeNode>,
    es: Seq<GitFileEntry>,
    expanded: Seq<bool>,
    collapsed: Seq<Seq<char>>,
) -> bool {
    let secs = present_sections(es);
    &&& tree.len() == secs.len()
    &&& forall|t: int|
        0 <= t < secs.len() ==> {
            &&& (#[trigger] tree[t]) is Section
            &&& tree[t]->kind == secs[t]
            &&& tree[t]->Section_expanded == expanded[section_index(secs[t])]
            &&& built_level(
                tree[t]->Section_children@,
                path_items(es, tree_indices(es, secs[t], es.len())),
                Seq::empty(),
                secs[t],
                collapsed,
            )
        }
}

fn section_list(es: &Vec<GitFileEntry>, sec: GitSection) -> (r: Vec<usize>)
    ensures
        r@ == tree_indices(es@, sec, es@.len()),
        forall|i: int| 0 <= i < r@.len() ==> r@[i] < es@.len(),
{
    let mut r: Vec<usize> = Vec::new();
    let mut i: usize = 0;
    while i < es.len()
        invariant
            i <= es.len(),
            r@ == tree_indices(es@, sec, i as nat),
            forall|j: int| 0 <= j < r@.len() ==> r@[j] < i,
        decreases es.len() - i,
    {
        let e = &es[i];
        let staged = e.x != ' ' && e.x != '?';
        let unstaged = e.y != ' ' && e.y != '?';
        let member = match sec {
            GitSection::Conflicts => e.is_conflict,
            GitSection::Untracked => !e.is_conflict && e.is_untracked,
            GitSection::Staged => !e.is_conflict && !e.is_untracked && staged,
            GitSection::Working => !e.is_conflict && !e.is_untracked && unstaged,
        };
        if member {
            r.push(i);
        }
        i = i + 1;
    }
    r
}

fn path_items_exec(es: &Vec<GitFileEntry>, idxs: &Vec<usize>) -> (r: Vec<(Vec<Vec<char>>, usize)>)
    requires
        forall|i: int| 0 <= i < idxs@.len() ==> idxs@[i] < es@.len(),
    ensures
        items_v(r@) == path_items(es@, idxs@),
{
    let mut r: Vec<(Vec<Vec<char>>, usize)> = Vec::new();
    let mut k: usize = 0;
    while k < idxs.len()
        invariant
            k <= idxs.len(),
            forall|i: int| 0 <= i < idxs@.len() ==> idxs@[i] < es@.len(),
            items_v(r@) == path_items(es@, idxs@).take(k as int),
        decreases idxs.len() - k,
    {
        let i = idxs[k];
        let v = chars_of(es[i].path.as_str());
        let comps = crate::text::split_chars(&v, '/', 0);
        let ghost before = r@;
        r.push((comps, i));
        assert(items_v(r@) == items_v(before).push((rows_of(comps@), i)));
        assert(path_items(es@, idxs@).take(k + 1) == path_items(es@, idxs@).take(k as int).push(
            path_items(es@, idxs@)[k as int],
        ));
        k = k + 1;
    }
    assert(path_items(es@, idxs@).take(idxs@.len() as int) == path_items(es@, idxs@));
    r
}

fn build_sections(es: &Vec<GitFileEntry>, expanded: &[bool; 4], collapsed: &Vec<String>) -> (r: Vec<
    TreeNode,
>)
    ensures
        tree_built(r@, es@, expanded@, strs(collapsed@)),
{
    let ghost secs = present_sections(es@);
    let mut tree: Vec<TreeNode> = Vec::new();
    let order = [GitSection::Staged, GitSection::Working, GitSection::Untracked, GitSection::Conflicts];
    assert(order@ == seq![section_at(0), section_at(1), section_at(2), section_at(3)]);
    let mut s: usize = 0;
    let ghost mut shown: Seq<GitSection> = Seq::empty();
    while s < 4
        invariant
            s <= 4,
            order@ == seq![section_at(0), section_at(1), section_at(2), section_at(3)],
            shown == present_upto(es@, s as int),
            tree@.len() == shown.len(),
            forall|t: int|
                0 <= t < shown.len() ==> {
                    &&& (#[trigger] tree@[t]) is Section
                    &&& tree@[t]->kind == shown[t]
                    &&& tree@[t]->Section_expanded == expanded@[section_index(shown[t])]
                    &&& built_level(
                        tree@[t]->Section_children@,
                        path_items(es@, tree_indices(es@, shown[t], es@.len())),
                        Seq::empty(),
                        shown[t],
                        strs(collapsed@),
                    )
                },
        decreases 4 - s,
    {
        let sec = order[s];
        assert(sec == section_at(s as int));
        let list = section_list(es, sec);
        if list.len() > 0 {
            let items = path_items_exec(es, &list);
            let root: Vec<char> = Vec::new();
            let children = build_level(&items, &root, sec, collapsed);
            let idx: usize = match sec {
                GitSection::Staged => 0,
                GitSection::Working => 1,
                GitSection::Untracked => 2,
                GitSection::Conflicts => 3,
            };
            let node = TreeNode::Section { kind: sec, expanded: expanded[idx], children };
            tree.push(node);
            proof {
                shown = shown.push(sec);
            }
        }
        s = s + 1;
    }
    tree
}

/// What a flattened tree item holds.
pub struct FlatV {
    pub depth: nat,
    pub node_type: FlatNodeType,
    pub expanded: bool,
    pub entry_idx: Option<usize>,
    pub name: Seq<char>,
    pub path: Seq<char>,
    pub section: GitSection,
}

pub open spec fn flat_v(i: FlatTreeItem) -> FlatV {
    FlatV {
        depth: i.depth as nat,
        node_type: i.node_type,
        expanded: i.expanded,
        entry_idx: i.entry_idx,
        name: i.name@,
        path: i.path@,
        section: i.section,
    }
}

pub open spec fn flats_v(v: Seq<FlatTreeItem>) -> Seq<FlatV> {
    v.map_values(|i: FlatTreeItem| flat_v(i))
}

pub open spec fn section_label(s: GitSection) -> Seq<char> {
    match s {
        GitSection::Staged => "Staged Changes"@,
        GitSection::Working => "Changes"@,
        GitSection::Untracked => "Untracked"@,
        GitSection::Conflicts => "Conflicts"@,
    }
}

/// The visible items of nodes `k..` of `ns` at depth `depth` in section
/// `sec`: each node, then (when it is an expanded section or directory) its
/// children one level deeper; a section node sets the section of what is
/// under it.
pub open spec fn flat_from(ns: Seq<TreeNode>, k: int, depth: nat, sec: GitSection) -> Seq<FlatV>
    decreases ns, ns.len() - k,
{
    if k < 0 || k >= ns.len() {
        Seq::empty()
    } else {
        let here = match ns[k] {
            TreeNode::Section { kind, expanded, children } => seq![
                FlatV {
                    depth,
                    node_type: FlatNodeType::Section,
                    expanded,
                    entry_idx: None,
                    name: section_label(kind),
                    path: Seq::empty(),
                    section: kind,
                },
            ] + (if expanded {
                flat_from(children@, 0, depth + 1, kind)
            } else {
                Seq::empty()
            }),
            TreeNode::Directory { name, path, expanded, children } => seq![
                FlatV {
                    depth,
                    node_type: FlatNodeType::Directory,
                    expanded,
                    entry_idx: None,
                    name: name@,
                    path: path@,
                    section: sec,
                },
            ] + (if expanded {
                flat_from(children@, 0, depth + 1, sec)
            } else {
                Seq::empty()
            }),
            TreeNode::File { name, entry_idx } => seq![
                FlatV {
                    depth,
                    node_type: FlatNodeType::File,
                    expanded: false,
                    entry_idx: Some(entry_idx),
                    name: name@,
                    path: Seq::empty(),
                    section: sec,
                },
            ],
        };
        here + flat_from(ns, k + 1, depth, sec)
    }
}

fn push_flat(out: &mut Vec<FlatTreeItem>, item: FlatTreeItem)
    ensures
        flats_v(final(out)@) == flats_v(old(out)@).push(flat_v(item)),
        final(out)@.len() == old(out)@.len() + 1,
{
    out.push(item);
    assert(flats_v(out@) =~= flats_v(old(out)@).push(flat_v(item)));
}

/// Appends the visible items of `ns` (at depth `depth`, in section `sec`).
#[verifier::rlimit(40)]
fn flatten_nodes(ns: &Vec<TreeNode>, depth: usize, sec: GitSection, out: &mut Vec<FlatTreeItem>)
    requires
        depth <= old(out)@.len(),
    ensures
        flats_v(final(out)@) == flats_v(old(out)@) + flat_from(ns@, 0, depth as nat, sec),
        final(out)@.len() >= old(out)@.len(),
    decreases ns@,
{
    let ghost start = flats_v(out@);
    let mut k: usize = 0;
    while k < ns.len()
        invariant
            k <= ns.len(),
            depth <= out@.len(),
            out@.len() >= old(out)@.len(),
            start == flats_v(old(out)@),
            flats_v(out@) + flat_from(ns@, k as int, depth as nat, sec) == start + flat_from(
                ns@,
                0,
                depth as nat,
                sec,
            ),
        decreases ns.len() - k,
    {
        let ghost before = flats_v(out@);
        let ghost rest = flat_from(ns@, k + 1, depth as nat, sec);
        match &ns[k] {
            TreeNode::Section { kind, expanded, children } => {
                let item = FlatTreeItem {
                    depth,
                    node_type: FlatNodeType::Section,
                    expanded: *expanded,
                    entry_idx: None,
                    name: match kind {
                        GitSection::Staged => "Staged Changes".to_owned(),
                        GitSection::Working => "Changes".to_owned(),
                        GitSection::Untracked => "Untracked".to_owned(),
                        GitSection::Conflicts => "Conflicts".to_owned(),
                    },
                    path: String::new(),
                    section: *kind,
                };
                push_flat(out, item);
                let ghost mid = flats_v(out@);
                let n = out.len();
                if *expanded {
                    proof {
                        assert(decreases_to!(ns@ => ns@[k as int]));
                    }
                    flatten_nodes(children, depth + 1, *kind, out);
                    assert(flats_v(out@) == mid + flat_from(children@, 0, (depth + 1) as nat, *kind));
                }
            },
            TreeNode::Directory { name, path, expanded, children } => {
                let item = FlatTreeItem {
                    depth,
                    node_type: FlatNodeType::Directory,
                    expanded: *expanded,
                    entry_idx: None,
                    name: name.clone(),
                    path: path.clone(),
                    section: sec,
                };
                push_flat(out, item);
                let ghost mid = flats_v(out@);
                let n = out.len();
                if *expanded {
                    proof {
                        assert(decreases_to!(ns@ => ns@[k as int]));
                    }
                    flatten_nodes(children, depth + 1, sec, out);
                    assert(flats_v(out@) == mid + flat_from(children@, 0, (depth + 1) as nat, sec));
                }
            },
            TreeNode::File { name, entry_idx } => {
                let item = FlatTreeItem {
                    depth,
                    node_type: FlatNodeType::File,
                    expanded: false,
                    entry_idx: Some(*entry_idx),
                    name: name.clone(),
                    path: String::new(),
                    section: sec,
                };
                push_flat(out, item);
            },
        }
        proof {
            let here = flats_v(out@).subrange(before.len() as int, flats_v(out@).len() as int);
            assert(flats_v(out@) == before + here);
            assert(flat_from(ns@, k as int, depth as nat, sec) == here + rest);
            assert(before + (here + rest) == flats_v(out@) + rest);
        }
        k = k + 1;
    }
    assert(flats_v(out@) + Seq::<FlatV>::empty() == flats_v(out@));
}

/// `b` is `a` with every section's and directory's expanded state read
/// again: a section from `expanded`, a directory from whether its key (in
/// the section that holds it; `sec` at this level) is in `collapsed`.
pub open spec fn refreshed(
    a: Seq<TreeNode>,
    b: Seq<TreeNode>,
    expanded: Seq<bool>,
    collapsed: Seq<Seq<char>>,
    sec: GitSection,
) -> bool
    decreases a,
{
    &&& a.len() == b.len()
    &&& forall|k: int|
        0 <= k < a.len() ==> match (#[trigger] a[k], b[k]) {
            (
                TreeNode::Section { kind: k1, expanded: _, children: c1 },
                TreeNode::Section { kind: k2, expanded: e2, children: c2 },
            ) => k1 == k2 && e2 == expanded[section_index(k1)] && refreshed(
                c1@,
                c2@,
                expanded,
                collapsed,
                k1,
            ),
            (
                TreeNode::Directory { name: n1, path: p1, expanded: _, children: c1 },
                TreeNode::Directory { name: n2, path: p2, expanded: e2, children: c2 },
            ) => n1@ == n2@ && p1@ == p2@ && e2 == !collapsed.contains(dir_key(sec, p1@))
                && refreshed(c1@, c2@, expanded, collapsed, sec),
            (
                TreeNode::File { name: n1, entry_idx: i1 },
                TreeNode::File { name: n2, entry_idx: i2 },
            ) => n1@ == n2@ && i1 == i2,
            _ => false,
        }
}

/// A copy of `ns` with every expanded state read again.
fn refresh_nodes(ns: &Vec<TreeNode>, expanded: &[bool; 4], collapsed: &Vec<String>, sec: GitSection) -> (r: Vec<
    TreeNode,
>)
    ensures
        refreshed(ns@, r@, expanded@, strs(collapsed@), sec),
    decreases ns@,
{
    let mut out: Vec<TreeNode> = Vec::new();
    let mut k: usize = 0;
    while k < ns.len()
        invariant
            k <= ns.len(),
            out@.len() == k,
            forall|j: int|
                0 <= j < k ==> match (#[trigger] ns@[j], out@[j]) {
                    (
                        TreeNode::Section { kind: k1, expanded: _, children: c1 },
                        TreeNode::Section { kind: k2, expanded: e2, children: c2 },
                    ) => k1 == k2 && e2 == expanded@[section_index(k1)] && refreshed(
                        c1@,
                        c2@,
                        expanded@,
                        strs(collapsed@),
                        k1,
                    ),
                    (
                        TreeNode::Directory { name: n1, path: p1, expanded: _, children: c1 },
                        TreeNode::Directory { name: n2, path: p2, expanded: e2, children: c2 },
                    ) => n1@ == n2@ && p1@ == p2@ && e2 == !strs(collapsed@).contains(
                        dir_key(sec, p1@),
                    ) && refreshed(c1@, c2@, expanded@, strs(collapsed@), sec),
                    (
                        TreeNode::File { name: n1, entry_idx: i1 },
                        TreeNode::File { name: n2, entry_idx: i2 },
                    ) => n1@ == n2@ && i1 == i2,
                    _ => false,
                },
        decreases ns.len() - k,
    {
        proof {
            assert(decreases_to!(ns@ => ns@[k as int]));
        }
        let node = match &ns[k] {
            TreeNode::Section { kind, expanded: _, children } => {
                let idx: usize = match kind {
                    GitSection::Staged => 0,
                    GitSection::Working => 1,
                    GitSection::Untracked => 2,
                    GitSection::Conflicts => 3,
                };
                let c = refresh_nodes(children, expanded, collapsed, *kind);
                TreeNode::Section { kind: *kind, expanded: expanded[idx], children: c }
            },
            TreeNode::Directory { name, path, expanded: _, children } => {
                let c = refresh_nodes(children, expanded, collapsed, sec);
                let pv = chars_of(path.as_str());
                let key = dir_key_exec(sec, &pv);
                let collapsed_now = contains_string(collapsed, &key);
                TreeNode::Directory {
                    name: name.clone(),
                    path: path.clone(),
                    expanded: !collapsed_now,
                    children: c,
                }
            },
            TreeNode::File { name, entry_idx } => TreeNode::File {
                name: name.clone(),
                entry_idx: *entry_idx,
            },
        };
        out.push(node);
        k = k + 1;
    }
    out
}

/// The index of the first file item, if any.
pub open spec fn first_file(items: Seq<FlatV>) -> Option<nat>
    decreases items.len(),
{
    if items.len() == 0 {
        None
    } else if items[0].node_type == FlatNodeType::File {
        Some(0)
    } else {
        match first_file(items.drop_first()) {
            Some(i) => Some(i + 1),
            None => None,
        }
    }
}

/// The tree selection after the tree was flattened again: none for an
/// empty tree; a selection past the end moves to the last item; with no
/// selection, the first file is selected when there is one.
pub open spec fn tree_selection(sel: Option<usize>, items: Seq<FlatV>) -> Option<usize> {
    if items.len() == 0 {
        None
    } else {
        match sel {
            Some(s) => if s >= items.len() {
                Some((items.len() - 1) as usize)
            } else {
                Some(s)
            },
            None => match first_file(items) {
                Some(i) => Some(i as usize),
                None => None,
            },
        }
    }
}

fn first_file_index(items: &Vec<FlatTreeItem>) -> (r: Option<usize>)
    ensures
        r == (match first_file(flats_v(items@)) {
            Some(i) => Some(i as usize),
            None => None,
        }),
{
    let ghost fv = flats_v(items@);
    let mut i: usize = 0;
    assert(fv.skip(0) == fv);
    while i < items.len()
        invariant
            i <= items.len(),
            fv == flats_v(items@),
            first_file(fv) == match first_file(fv.skip(i as int)) {
                Some(j) => Some((j + i) as nat),
                None => None,
            },
        decreases items.len() - i,
    {
        assert(fv.skip(i as int)[0] == flat_v(items@[i as int]));
        assert(fv.skip(i as int).drop_first() == fv.skip(i + 1));
        if items[i].node_type == FlatNodeType::File {
            return Some(i);
        }
        i = i + 1;
    }
    assert(fv.skip(i as int).len() == 0);
    None
}

impl GitState {
    /// The section tree (sections, directories and files).
    pub open spec fn tree_nodes(&self) -> Seq<TreeNode> {
        self.tree@
    }

    /// Flattens the tree into its visible items and keeps the selection on
    /// one of them.
    pub fn flatten_tree(&mut self)
        ensures
            flats_v(final(self).flat_tree@) == flat_from(
                old(self).tree_nodes(),
                0,
                0,
                GitSection::Working,
            ),
            final(self).tree_selected == tree_selection(
                old(self).tree_selected,
                flats_v(final(self).flat_tree@),
            ),
            final(self).tree_nodes() == old(self).tree_nodes(),
            final(self).entries@ == old(self).entries@,
            final(self).filtered@ == old(self).filtered@,
            final(self).list_selected == old(self).list_selected,
            final(self).section_expanded == old(self).section_expanded,
            final(self).dir_collapsed@ == old(self).dir_collapsed@,
            final(self).selected_paths@ == old(self).selected_paths@,
            final(self).selection_anchor == old(self).selection_anchor,
    {
        let mut flat: Vec<FlatTreeItem> = Vec::new();
        assert(flats_v(flat@) == Seq::<FlatV>::empty());
        flatten_nodes(&self.tree, 0, GitSection::Working, &mut flat);
        self.flat_tree = flat;
        let ghost fv = flats_v(self.flat_tree@);
        if self.flat_tree.len() == 0 {
            self.tree_selected = None;
            return ;
        }
        match self.tree_selected {
            Some(sel) => {
                if sel >= self.flat_tree.len() {
                    self.tree_selected = Some(self.flat_tree.len() - 1);
                }
            },
            None => {
                self.tree_selected = first_file_index(&self.flat_tree);
            },
        }
    }

    /// Builds the section tree from the entries and flattens it.
    pub fn build_tree(&mut self)
        ensures
            tree_built(
                final(self).tree_nodes(),
                old(self).entries@,
                old(self).section_expanded@,
                strs(old(self).dir_collapsed@),
            ),
            flats_v(final(self).flat_tree@) == flat_from(
                final(self).tree_nodes(),
                0,
                0,
                GitSection::Working,
            ),
            final(self).tree_selected == tree_selection(
                old(self).tree_selected,
                flats_v(final(self).flat_tree@),
            ),
            final(self).entries@ == old(self).entries@,
            final(self).filtered@ == old(self).filtered@,
            final(self).list_selected == old(self).list_selected,
            final(self).section_expanded == old(self).section_expanded,
            final(self).dir_collapsed@ == old(self).dir_collapsed@,
    {
        let tree = build_sections(&self.entries, &self.section_expanded, &self.dir_collapsed);
        self.tree = tree;
        self.flatten_tree();
    }

    /// Reads every expanded state of the tree again and flattens it.
    fn rebuild_tree_structure(&mut self)
        ensures
            refreshed(
                old(self).tree_nodes(),
                final(self).tree_nodes(),
                old(self).section_expanded@,
                strs(old(self).dir_collapsed@),
                GitSection::Working,
            ),
            flats_v(final(self).flat_tree@) == flat_from(
                final(self).tree_nodes(),
                0,
                0,
                GitSection::Working,
            ),
            final(self).tree_selected == tree_selection(
                old(self).tree_selected,
                flats_v(final(self).flat_tree@),
            ),
            final(self).entries@ == old(self).entries@,
            final(self).section_expanded == old(self).section_expanded,
            final(self).dir_collapsed@ == old(self).dir_collapsed@,
            final(self).selected_paths@ == old(self).selected_paths@,
            final(self).selection_anchor == old(self).selection_anchor,
    {
        let tree = refresh_nodes(&self.tree, &self.section_expanded, &self.dir_collapsed, GitSection::Working);
        self.tree = tree;
        self.flatten_tree();
    }

    /// Takes the entries found by a refresh: lists the current section and
    /// builds the tree.
    pub fn refresh_finish(&mut self, entries: Vec<GitFileEntry>)
        ensures
            final(self).entries@ == entries@,
            final(self).filtered@ == sort_indices(
                section_indices(entries@, old(self).section, entries@.len()),
                entries@,
            ),
            tree_built(
                final(self).tree_nodes(),
                entries@,
                old(self).section_expanded@,
                strs(old(self).dir_collapsed@),
            ),
            flats_v(final(self).flat_tree@) == flat_from(
                final(self).tree_nodes(),
                0,
                0,
                GitSection::Working,
            ),
    {
        self.entries = entries;
        self.update_filtered();
        self.build_tree();
    }
}

/// The texts of `v`, sorted and without repeats.
pub open spec fn sorted_unique(v: Seq<Seq<char>>) -> Seq<Seq<char>>
    decreases v.len(),
{
    if v.len() == 0 {
        Seq::empty()
    } else {
        insert_name(sorted_unique(v.drop_last()), v.last())
    }
}

/// The keys of all directories in `ns` (those under a section node keyed by
/// that section, others by `sec`), in tree order.
pub open spec fn dir_keys_from(ns: Seq<TreeNode>, k: int, sec: GitSection) -> Seq<Seq<char>>
    decreases ns, ns.len() - k,
{
    if k < 0 || k >= ns.len() {
        Seq::empty()
    } else {
        let here = match ns[k] {
            TreeNode::Section { kind, expanded: _, children } => dir_keys_from(children@, 0, kind),
            TreeNode::Directory { name: _, path, expanded: _, children } => seq![
                dir_key(sec, path@),
            ] + dir_keys_from(children@, 0, sec),
            TreeNode::File { .. } => Seq::empty(),
        };
        here + dir_keys_from(ns, k + 1, sec)
    }
}

fn collect_dir_keys(ns: &Vec<TreeNode>, sec: GitSection, out: &mut Vec<String>)
    ensures
        strs(final(out)@) == strs(old(out)@) + dir_keys_from(ns@, 0, sec),
    decreases ns@,
{
    let ghost start = strs(out@);
    let mut k: usize = 0;
    while k < ns.len()
        invariant
            k <= ns.len(),
            start == strs(old(out)@),
            strs(out@) + dir_keys_from(ns@, k as int, sec) == start + dir_keys_from(ns@, 0, sec),
        decreases ns.len() - k,
    {
        proof {
            assert(decreases_to!(ns@ => ns@[k as int]));
        }
        let ghost before = strs(out@);
        let ghost rest = dir_keys_from(ns@, k + 1, sec);
        match &ns[k] {
            TreeNode::Section { kind, expanded: _, children } => {
                collect_dir_keys(children, *kind, out);
            },
            TreeNode::Directory { name: _, path, expanded: _, children } => {
                let pv = chars_of(path.as_str());
                let key = dir_key_exec(sec, &pv);
                let ghost b0 = out@;
                out.push(key);
                assert(strs(out@) == strs(b0).push(key@));
                collect_dir_keys(children, sec, out);
            },
            TreeNode::File { .. } => {},
        }
        proof {
            let here = strs(out@).subrange(before.len() as int, strs(out@).len() as int);
            assert(strs(out@) == before + here);
            assert(dir_keys_from(ns@, k as int, sec) == here + rest);
            assert(before + (here + rest) == strs(out@) + rest);
        }
        k = k + 1;
    }
    assert(strs(out@) + Seq::<Seq<char>>::empty() == strs(out@));
}

proof fn lemma_push_contains<A>(s: Seq<A>, a: A)
    ensures
        forall|x: A| s.push(a).contains(x) <==> (s.contains(x) || x == a),
{
    assert forall|x: A| s.push(a).contains(x) implies (s.contains(x) || x == a) by {
        let i = choose|i: int| 0 <= i < s.push(a).len() && s.push(a)[i] == x;
        if i < s.len() {
            assert(s[i] == x);
        }
    }
    assert forall|x: A| (s.contains(x) || x == a) implies s.push(a).contains(x) by {
        if s.contains(x) {
            let i = choose|i: int| 0 <= i < s.len() && s[i] == x;
            assert(s.push(a)[i] == x);
        } else {
            assert(s.push(a)[s.len() as int] == x);
        }
    }
}

fn remove_key(v: &mut Vec<String>, key: &String)
    ensures
        forall|x: Seq<char>|
            strs(final(v)@).contains(x) <==> (strs(old(v)@).contains(x) && x != key@),
{
    let mut out: Vec<String> = Vec::new();
    let mut i: usize = 0;
    while i < v.len()
        invariant
            i <= v.len(),
            v@ == old(v)@,
            forall|x: Seq<char>|
                strs(out@).contains(x) <==> (strs(v@).take(i as int).contains(x) && x != key@),
        decreases v.len() - i,
    {
        let ghost before = strs(out@);
        let ghost t0 = strs(v@).take(i as int);
        let ghost vi = v@[i as int]@;
        assert(strs(v@).take(i + 1) == t0.push(vi));
        proof {
            lemma_push_contains(t0, vi);
        }
        let same = v[i] == *key;
        if !same {
            let c = v[i].clone();
            out.push(c);
            assert(strs(out@) == before.push(c@));
            proof {
                lemma_push_contains(before, c@);
            }
        }
        proof {
            assert forall|x: Seq<char>|
                strs(out@).contains(x) <==> (t0.push(vi).contains(x) && x != key@) by {
                assert(before.contains(x) <==> (t0.contains(x) && x != key@));
                assert(t0.push(vi).contains(x) <==> (t0.contains(x) || x == vi));
                if same {
                    assert(strs(out@) == before);
                    assert(vi == key@);
                } else {
                    assert(vi != key@);
                    assert(strs(out@).contains(x) <==> (before.contains(x) || x == vi));
                }
            }
        }
        i = i + 1;
    }
    assert(strs(v@).take(v@.len() as int) == strs(v@));
    *v = out;
}

fn insert_key(v: &mut Vec<String>, key: String)
    ensures
        forall|x: Seq<char>|
            strs(final(v)@).contains(x) <==> (strs(old(v)@).contains(x) || x == key@),
{
    let ghost kv = key@;
    let ghost before = strs(v@);
    v.push(key);
    assert(strs(v@) == before.push(kv));
    proof {
        lemma_push_contains(before, kv);
    }
}

impl GitState {
    /// Toggles the selected section or directory between expanded and
    /// collapsed; files are left alone.
    pub fn toggle_tree_expand(&mut self)
        ensures
            ({
                let sel = old(self).tree_selected;
                match sel {
                    Some(i) => if i < old(self).flat_tree@.len() {
                        let item = old(self).flat_tree@[i as int];
                        match item.node_type {
                            FlatNodeType::Section => final(self).section_expanded@ == old(
                                self,
                            ).section_expanded@.update(
                                section_index(item.section),
                                !old(self).section_expanded@[section_index(item.section)],
                            ) && final(self).dir_collapsed@ == old(self).dir_collapsed@,
                            FlatNodeType::Directory => final(self).section_expanded
                                == old(self).section_expanded && forall|x: Seq<char>|
                                strs(final(self).dir_collapsed@).contains(x) <==> (if strs(
                                    old(self).dir_collapsed@,
                                ).contains(dir_key(item.section, item.path@)) {
                                    strs(old(self).dir_collapsed@).contains(x) && x != dir_key(
                                        item.section,
                                        item.path@,
                                    )
                                } else {
                                    strs(old(self).dir_collapsed@).contains(x) || x == dir_key(
                                        item.section,
                                        item.path@,
                                    )
                                }),
                            FlatNodeType::File => final(self).section_expanded
                                == old(self).section_expanded && final(self).dir_collapsed@
                                == old(self).dir_collapsed@,
                        }
                    } else {
                        final(self).section_expanded == old(self).section_expanded
                            && final(self).dir_collapsed@ == old(self).dir_collapsed@
                    },
                    None => final(self).section_expanded == old(self).section_expanded
                        && final(self).dir_collapsed@ == old(self).dir_collapsed@,
                }
            }),
            final(self).entries@ == old(self).entries@,
            final(self).selected_paths@ == old(self).selected_paths@,
            final(self).selection_anchor == old(self).selection_anchor,
    {
        let sel = match self.tree_selected {
            Some(s) => s,
            None => {
                return ;
            },
        };
        if sel >= self.flat_tree.len() {
            return ;
        }
        let node_type = self.flat_tree[sel].node_type;
        let section = self.flat_tree[sel].section;
        match node_type {
            FlatNodeType::Section => {
                let idx: usize = match section {
                    GitSection::Staged => 0,
                    GitSection::Working => 1,
                    GitSection::Untracked => 2,
                    GitSection::Conflicts => 3,
                };
                let cur = self.section_expanded[idx];
                self.section_expanded.set(idx, !cur);
                self.rebuild_tree_structure();
            },
            FlatNodeType::Directory => {
                let pv = chars_of(self.flat_tree[sel].path.as_str());
                let key = dir_key_exec(section, &pv);
                if contains_string(&self.dir_collapsed, &key) {
                    remove_key(&mut self.dir_collapsed, &key);
                } else {
                    insert_key(&mut self.dir_collapsed, key);
                }
                self.rebuild_tree_structure();
            },
            FlatNodeType::File => {},
        }
    }

    /// Expands the selected section or directory when it is collapsed.
    pub fn expand_tree_item(&mut self)
        ensures
            ({
                match old(self).tree_selected {
                    Some(i) => if i < old(self).flat_tree@.len() {
                        let item = old(self).flat_tree@[i as int];
                        match item.node_type {
                            FlatNodeType::Section => final(self).section_expanded@ == old(
                                self,
                            ).section_expanded@.update(section_index(item.section), true)
                                && final(self).dir_collapsed@ == old(self).dir_collapsed@,
                            FlatNodeType::Directory => final(self).section_expanded
                                == old(self).section_expanded && forall|x: Seq<char>|
                                strs(final(self).dir_collapsed@).contains(x) <==> (strs(
                                    old(self).dir_collapsed@,
                                ).contains(x) && x != dir_key(item.section, item.path@)),
                            FlatNodeType::File => final(self).section_expanded
                                == old(self).section_expanded && final(self).dir_collapsed@
                                == old(self).dir_collapsed@,
                        }
                    } else {
                        final(self).section_expanded == old(self).section_expanded
                            && final(self).dir_collapsed@ == old(self).dir_collapsed@
                    },
                    None => final(self).section_expanded == old(self).section_expanded
                        && final(self).dir_collapsed@ == old(self).dir_collapsed@,
                }
            }),
            final(self).entries@ == old(self).entries@,
    {
        let sel = match self.tree_selected {
            Some(s) => s,
            None => {
                return ;
            },
        };
        if sel >= self.flat_tree.len() {
            return ;
        }
        let node_type = self.flat_tree[sel].node_type;
        let section = self.flat_tree[sel].section;
        match node_type {
            FlatNodeType::Section => {
                let idx: usize = match section {
                    GitSection::Staged => 0,
                    GitSection::Working => 1,
                    GitSection::Untracked => 2,
                    GitSection::Conflicts => 3,
                };
                if !self.section_expanded[idx] {
                    self.section_expanded.set(idx, true);
                    self.rebuild_tree_structure();
                } else {
                    assert(self.section_expanded@ =~= self.section_expanded@.update(
                        idx as int,
                        true,
                    ));
                }
            },
            FlatNodeType::Directory => {
                let pv = chars_of(self.flat_tree[sel].path.as_str());
                let key = dir_key_exec(section, &pv);
                if contains_string(&self.dir_collapsed, &key) {
                    remove_key(&mut self.dir_collapsed, &key);
                    self.rebuild_tree_structure();
                }
            },
            FlatNodeType::File => {},
        }
    }

    /// Collapses the selected section or directory when it is expanded; on
    /// a file below the top level, selects the nearest directory above it.
    pub fn collapse_tree_item(&mut self)
        ensures
            ({
                match old(self).tree_selected {
                    Some(i) => if i < old(self).flat_tree@.len() {
                        let item = old(self).flat_tree@[i as int];
                        match item.node_type {
                            FlatNodeType::Section => final(self).section_expanded@ == old(
                                self,
                            ).section_expanded@.update(section_index(item.section), false)
                                && final(self).dir_collapsed@ == old(self).dir_collapsed@,
                            FlatNodeType::Directory => final(self).section_expanded
                                == old(self).section_expanded && forall|x: Seq<char>|
                                strs(final(self).dir_collapsed@).contains(x) <==> (strs(
                                    old(self).dir_collapsed@,
                                ).contains(x) || x == dir_key(item.section, item.path@)),
                            FlatNodeType::File => {
                                &&& final(self).section_expanded == old(self).section_expanded
                                &&& final(self).dir_collapsed@ == old(self).dir_collapsed@
                                &&& final(self).flat_tree@ == old(self).flat_tree@
                                &&& final(self).tree_selected == (if item.depth > 1
                                    && parent_dir(old(self).flat_tree@, i as int, item.depth as nat)
                                    is Some {
                                    Some(
                                        parent_dir(
                                            old(self).flat_tree@,
                                            i as int,
                                            item.depth as nat,
                                        )->0 as usize,
                                    )
                                } else {
                                    old(self).tree_selected
                                })
                            },
                        }
                    } else {
                        final(self).section_expanded == old(self).section_expanded
                            && final(self).dir_collapsed@ == old(self).dir_collapsed@
                    },
                    None => final(self).section_expanded == old(self).section_expanded
                        && final(self).dir_collapsed@ == old(self).dir_collapsed@,
                }
            }),
            final(self).entries@ == old(self).entries@,
    {
        let sel = match self.tree_selected {
            Some(s) => s,
            None => {
                return ;
            },
        };
        if sel >= self.flat_tree.len() {
            return ;
        }
        let node_type = self.flat_tree[sel].node_type;
        let section = self.flat_tree[sel].section;
        let depth = self.flat_tree[sel].depth;
        match node_type {
            FlatNodeType::Section => {
                let idx: usize = match section {
                    GitSection::Staged => 0,
                    GitSection::Working => 1,
                    GitSection::Untracked => 2,
                    GitSection::Conflicts => 3,
                };
                if self.section_expanded[idx] {
                    self.section_expanded.set(idx, false);
                    self.rebuild_tree_structure();
                } else {
                    assert(self.section_expanded@ =~= self.section_expanded@.update(
                        idx as int,
                        false,
                    ));
                }
            },
            FlatNodeType::Directory => {
                let pv = chars_of(self.flat_tree[sel].path.as_str());
                let key = dir_key_exec(section, &pv);
                if !contains_string(&self.dir_collapsed, &key) {
                    insert_key(&mut self.dir_collapsed, key);
                    self.rebuild_tree_structure();
                }
            },
            FlatNodeType::File => {
                if depth > 1 {
                    match find_parent_dir(&self.flat_tree, sel, depth) {
                        Some(p) => {
                            self.tree_selected = Some(p);
                        },
                        None => {},
                    }
                }
            },
        }
    }

    /// Expands every section and directory.
    pub fn expand_all(&mut self)
        ensures
            final(self).section_expanded@ == seq![true, true, true, true],
            final(self).dir_collapsed@.len() == 0,
            refreshed(
                old(self).tree_nodes(),
                final(self).tree_nodes(),
                seq![true, true, true, true],
                Seq::empty(),
                GitSection::Working,
            ),
            final(self).entries@ == old(self).entries@,
    {
        self.section_expanded = [true, true, true, true];
        self.dir_collapsed = Vec::new();
        assert(self.section_expanded@ =~= seq![true, true, true, true]);
        assert(strs(self.dir_collapsed@) =~= Seq::<Seq<char>>::empty());
        self.rebuild_tree_structure();
    }

    /// Collapses every directory of the tree (sections keep their state).
    pub fn collapse_all(&mut self)
        ensures
            strs(final(self).dir_collapsed@) == dir_keys_from(
                old(self).tree_nodes(),
                0,
                GitSection::Working,
            ),
            final(self).section_expanded == old(self).section_expanded,
            refreshed(
                old(self).tree_nodes(),
                final(self).tree_nodes(),
                old(self).section_expanded@,
                dir_keys_from(old(self).tree_nodes(), 0, GitSection::Working),
                GitSection::Working,
            ),
            final(self).entries@ == old(self).entries@,
    {
        let mut keys: Vec<String> = Vec::new();
        assert(strs(keys@) == Seq::<Seq<char>>::empty());
        collect_dir_keys(&self.tree, GitSection::Working, &mut keys);
        self.dir_collapsed = keys;
        self.rebuild_tree_structure();
    }

    /// The section of an entry, as selections count it.
    pub fn entry_section(entry: &GitFileEntry) -> (r: GitSection)
        ensures
            r == entry_section_of(*entry),
    {
        section_of_entry(entry)
    }

    /// The paths a tree action applies to: the marked paths when there are
    /// any (sorted, without repeats); else the selected file's path, the
    /// paths of the files the selected directory holds in its section, or
    /// the paths of all files listed in the selected section, in entry
    /// order.
    pub fn selected_tree_paths(&self) -> (r: Vec<String>)
        ensures
            strs(r@) == selected_paths_spec(
                self.selected_paths@,
                self.tree_selected,
                self.flat_tree@,
                self.entries@,
            ),
    {
        if self.selected_paths.len() > 0 {
            let mut names: Vec<Vec<char>> = Vec::new();
            let mut i: usize = 0;
            assert(rows_of(names@) == sorted_unique(strs(self.selected_paths@).take(0)));
            while i < self.selected_paths.len()
                invariant
                    i <= self.selected_paths.len(),
                    rows_of(names@) == sorted_unique(strs(self.selected_paths@).take(i as int)),
                decreases self.selected_paths.len() - i,
            {
                let ghost sp = strs(self.selected_paths@);
                assert(sp.take(i + 1).drop_last() == sp.take(i as int));
                assert(sp.take(i + 1).last() == self.selected_paths@[i as int]@);
                let v = chars_of(self.selected_paths[i].as_str());
                insert_name_exec(&mut names, &v);
                i = i + 1;
            }
            assert(strs(self.selected_paths@).take(self.selected_paths@.len() as int) == strs(
                self.selected_paths@,
            ));
            let mut out: Vec<String> = Vec::new();
            let mut k: usize = 0;
            while k < names.len()
                invariant
                    k <= names.len(),
                    strs(out@) == rows_of(names@).take(k as int),
                decreases names.len() - k,
            {
                let s = string_of(&names[k]);
                let ghost before = out@;
                out.push(s);
                assert(strs(out@) == strs(before).push(s@));
                assert(rows_of(names@).take(k + 1) == rows_of(names@).take(k as int).push(
                    names@[k as int]@,
                ));
                k = k + 1;
            }
            assert(rows_of(names@).take(names@.len() as int) == rows_of(names@));
            return out;
        }
        let sel = match self.tree_selected {
            Some(s) => s,
            None => {
                let r: Vec<String> = Vec::new();
                assert(strs(r@) =~= Seq::<Seq<char>>::empty());
                return r;
            },
        };
        if sel >= self.flat_tree.len() {
            let r: Vec<String> = Vec::new();
            assert(strs(r@) =~= Seq::<Seq<char>>::empty());
            return r;
        }
        let item = &self.flat_tree[sel];
        match item.node_type {
            FlatNodeType::File => {
                let mut r: Vec<String> = Vec::new();
                match item.entry_idx {
                    Some(idx) => {
                        if idx < self.entries.len() {
                            r.push(self.entries[idx].path.clone());
                        }
                    },
                    None => {},
                }
                assert(strs(r@) =~= selected_paths_spec(
                    self.selected_paths@,
                    self.tree_selected,
                    self.flat_tree@,
                    self.entries@,
                ));
                r
            },
            _ => {
                let dir = item.node_type == FlatNodeType::Directory;
                let mut prefix = item.path.clone();
                prefix.push('/');
                let mut r: Vec<String> = Vec::new();
                let mut i: usize = 0;
                while i < self.entries.len()
                    invariant
                        i <= self.entries.len(),
                        prefix@ == item.path@ + seq!['/'],
                        dir == (item.node_type == FlatNodeType::Directory),
                        strs(r@) == keep_paths(self.entries@.take(i as int), item.section, dir, item.path@),
                    decreases self.entries.len() - i,
                {
                    let e = &self.entries[i];
                    assert(self.entries@.take(i + 1).drop_last() == self.entries@.take(i as int));
                    assert(self.entries@.take(i + 1).last() == *e);
                    let keep = listed_in(e, item.section) && (!dir || str_starts_with(
                        e.path.as_str(),
                        prefix.as_str(),
                    ) || e.path == item.path);
                    if keep {
                        let ghost before = r@;
                        r.push(e.path.clone());
                        assert(strs(r@) == strs(before).push(e.path@));
                    }
                    i = i + 1;
                }
                assert(self.entries@.take(self.entries@.len() as int) == self.entries@);
                r
            },
        }
    }
}

/// Paths of the entries of `es` listed in section `sec` (and, for a
/// directory, under or at `path`), in order.
pub open spec fn keep_paths(es: Seq<GitFileEntry>, sec: GitSection, dir: bool, path: Seq<char>) -> Seq<
    Seq<char>,
>
    decreases es.len(),
{
    if es.len() == 0 {
        Seq::empty()
    } else {
        let r = keep_paths(es.drop_last(), sec, dir, path);
        let e = es.last();
        if in_section(e, sec) && (!dir || has_prefix(e.path@, path + seq!['/']) || e.path@
            == path) {
            r.push(e.path@)
        } else {
            r
        }
    }
}

pub open spec fn selected_paths_spec(
    marked: Seq<String>,
    sel: Option<usize>,
    flat: Seq<FlatTreeItem>,
    es: Seq<GitFileEntry>,
) -> Seq<Seq<char>> {
    if marked.len() > 0 {
        sorted_unique(strs(marked))
    } else {
        match sel {
            Some(i) => if i < flat.len() {
                let item = flat[i as int];
                match item.node_type {
                    FlatNodeType::File => match item.entry_idx {
                        Some(e) => if e < es.len() {
                            seq![es[e as int].path@]
                        } else {
                            Seq::empty()
                        },
                        None => Seq::empty(),
                    },
                    FlatNodeType::Directory => keep_paths(es, item.section, true, item.path@),
                    FlatNodeType::Section => keep_paths(es, item.section, false, item.path@),
                }
            } else {
                Seq::empty()
            },
            None => Seq::empty(),
        }
    }
}

/// The nearest directory item before item `i` that is shallower than
/// `depth`, scanning back from `i - 1`.
pub open spec fn parent_dir(flat: Seq<FlatTreeItem>, i: int, depth: nat) -> Option<nat>
    decreases i,
{
    if i <= 0 {
        None
    } else if flat[i - 1].depth < depth && flat[i - 1].node_type == FlatNodeType::Directory {
        Some((i - 1) as nat)
    } else {
        parent_dir(flat, i - 1, depth)
    }
}

fn find_parent_dir(flat: &Vec<FlatTreeItem>, sel: usize, depth: usize) -> (r: Option<usize>)
    requires
        sel <= flat.len(),
    ensures
        (match r {
            Some(p) => Some(p as nat),
            None => None,
        }) == parent_dir(flat@, sel as int, depth as nat),
{
    let mut i = sel;
    while i > 0
        invariant
            i <= sel <= flat.len(),
            parent_dir(flat@, sel as int, depth as nat) == parent_dir(flat@, i as int, depth as nat),
        decreases i,
    {
        if flat[i - 1].depth < depth && flat[i - 1].node_type == FlatNodeType::Directory {
            return Some(i - 1);
        }
        i = i - 1;
    }
    None
}

} // verus!
