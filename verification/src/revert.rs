//! Reverting changes in the working tree: the new text of a file once a
//! change block is put back to its old lines, the patch that reverts a
//! hunk, and the undo/redo history of such edits.
use vstd::prelude::*;
use crate::git::{ChangeBlock, DiffHunk};
use crate::text::{chars_of, lines_of, lines_vec, push_chars, push_str, string_from, strs};

verus! {

broadcast use vstd::string::group_string_axioms;

// ---------------------------------------------------------------------------
// The reverted text of a file
// ---------------------------------------------------------------------------

/// Each line followed by a newline.
pub open spec fn terminated(ls: Seq<Seq<char>>) -> Seq<char>
    decreases ls.len(),
{
    if ls.len() == 0 {
        Seq::empty()
    } else {
        terminated(ls.drop_last()) + ls.last() + seq!['\n']
    }
}

/// The index of the first line a block covers: its 1-based start, less one
/// (a start of 0 counts as 1).
pub open spec fn first_index(new_start: u32) -> nat {
    if new_start == 0 {
        0
    } else {
        (new_start - 1) as nat
    }
}

/// The text of a file whose lines `[start, start + new_len)` (as `str::lines`
/// splits it) are replaced by `old_lines`, each line ending in a newline but
/// the last when the file did not end in one; `None` when the block reaches
/// past the file's last line.
pub open spec fn revert_spec(content: Seq<char>, new_start: u32, new_len: nat, old_lines: Seq<
    Seq<char>,
>) -> Option<Seq<char>> {
    let ls = lines_of(content);
    let start = first_index(new_start);
    let end = start + new_len;
    if end > ls.len() {
        None
    } else {
        let body = terminated(ls.take(start as int) + old_lines + ls.skip(end as int));
        let ends_in_newline = content.len() > 0 && content.last() == '\n';
        if !ends_in_newline && body.len() > 0 && body.last() == '\n' {
            Some(body.drop_last())
        } else {
            Some(body)
        }
    }
}

proof fn lemma_terminated_push(ls: Seq<Seq<char>>, x: Seq<char>)
    ensures
        terminated(ls.push(x)) == terminated(ls) + x + seq!['\n'],
{
    assert(ls.push(x).drop_last() == ls);
}

/// Appends `line` and a newline to `s`, keeping `s == terminated(all.take(k))`.
fn push_line(s: &mut String, line: &Vec<char>, Ghost(all): Ghost<Seq<Seq<char>>>, Ghost(k): Ghost<int>)
    requires
        0 <= k < all.len(),
        all[k] == line@,
        old(s)@ == terminated(all.take(k)),
    ensures
        final(s)@ == terminated(all.take(k + 1)),
{
    push_chars(s, line);
    s.push('\n');
    proof {
        assert(all.take(k + 1) == all.take(k).push(line@));
        lemma_terminated_push(all.take(k), line@);
    }
}

/// The text of the file `content` once `block` is reverted: the block's new
/// lines give way to its old lines. `None` when the block reaches past the
/// end of the file.
pub fn reverted_content(content: &str, block: &ChangeBlock) -> (r: Option<String>)
    ensures
        match r {
            Some(s) => revert_spec(content@, block.new_start, block.new_lines@.len(), strs(
                block.old_lines@,
            )) == Some(s@),
            None => revert_spec(
                content@,
                block.new_start,
                block.new_lines@.len(),
                strs(block.old_lines@),
            ) is None,
        },
{
    let lines = lines_vec(content);
    let ghost ls = lines_of(content@);
    assert(lines@.len() == ls.len());
    let start: usize = if block.new_start == 0 {
        0
    } else {
        (block.new_start - 1) as usize
    };
    let new_len = block.new_lines.len();
    if start > lines.len() || new_len > lines.len() - start {
        return None;
    }
    let end = start + new_len;
    let ghost old_ls = strs(block.old_lines@);
    let ghost all = ls.take(start as int) + old_ls + ls.skip(end as int);
    let mut s = String::new();
    let mut i: usize = 0;
    while i < start
        invariant
            0 <= i <= start <= end <= lines@.len(),
            lines@.len() == ls.len(),
            forall|q: int| 0 <= q < ls.len() ==> (#[trigger] lines@[q])@ == ls[q],
            all == ls.take(start as int) + old_ls + ls.skip(end as int),
            s@ == terminated(all.take(i as int)),
        decreases start - i,
    {
        push_line(&mut s, &lines[i], Ghost(all), Ghost(i as int));
        i = i + 1;
    }
    let mut j: usize = 0;
    while j < block.old_lines.len()
        invariant
            0 <= j <= block.old_lines@.len(),
            start <= end <= ls.len(),
            old_ls == strs(block.old_lines@),
            all == ls.take(start as int) + old_ls + ls.skip(end as int),
            s@ == terminated(all.take(start + j)),
        decreases block.old_lines.len() - j,
    {
        let line = chars_of(block.old_lines[j].as_str());
        assert(all[start + j] == old_ls[j as int]);
        push_line(&mut s, &line, Ghost(all), Ghost(start + j));
        j = j + 1;
    }
    let mut i: usize = end;
    while i < lines.len()
        invariant
            start <= end <= i <= lines@.len(),
            lines@.len() == ls.len(),
            forall|q: int| 0 <= q < ls.len() ==> (#[trigger] lines@[q])@ == ls[q],
            old_ls == strs(block.old_lines@),
            all == ls.take(start as int) + old_ls + ls.skip(end as int),
            s@ == terminated(all.take(start + old_ls.len() + (i - end))),
        decreases lines.len() - i,
    {
        assert(all[start + old_ls.len() + (i - end)] == ls[i as int]);
        push_line(&mut s, &lines[i], Ghost(all), Ghost(start + old_ls.len() + (i - end)));
        i = i + 1;
    }
    assert(all.take(all.len() as int) == all);
    let v = chars_of(content);
    let ends_in_newline = v.len() > 0 && v[v.len() - 1] == '\n';
    let out = chars_of(s.as_str());
    if !ends_in_newline && out.len() > 0 && out[out.len() - 1] == '\n' {
        let cut = string_from(&out, 0, out.len() - 1);
        assert(out@.subrange(0, out@.len() - 1) == out@.drop_last());
        Some(cut)
    } else {
        Some(s)
    }
}

/// The edit that reverts `block` in the file at `file_path` (as the
/// repository root joined with the block's path), whose text is `content`:
/// described as "Revert change in" and the block's path, from `content` to
/// `reverted_content`. `None` when the block reaches past the end of the
/// file.
pub fn revert_entry(file_path: String, content: String, block: &ChangeBlock) -> (r: Option<UndoEntry>)
    ensures
        match r {
            Some(e) => {
                &&& revert_spec(content@, block.new_start, block.new_lines@.len(), strs(
                    block.old_lines@,
                )) == Some(e.new_content@)
                &&& e.old_content@ == content@
                &&& e.file_path@ == file_path@
                &&& e.description@ == "Revert change in "@ + block.file_path@
            },
            None => revert_spec(
                content@,
                block.new_start,
                block.new_lines@.len(),
                strs(block.old_lines@),
            ) is None,
        },
{
    match reverted_content(content.as_str(), block) {
        None => None,
        Some(new_content) => {
            let mut description = String::new();
            push_str(&mut description, "Revert change in ");
            push_str(&mut description, block.file_path.as_str());
            Some(UndoEntry { description, file_path, old_content: content, new_content })
        },
    }
}

/// The lines of `ls` joined with newlines, and a final newline (so no
/// lines give a lone newline).
pub open spec fn patch_text(ls: Seq<Seq<char>>) -> Seq<char> {
    if ls.len() == 0 {
        seq!['\n']
    } else {
        terminated(ls)
    }
}

/// The patch that reverts `hunk`: its lines (file header, then the hunk's
/// own lines) joined with newlines, with a final newline.
pub fn hunk_patch(hunk: &DiffHunk) -> (r: String)
    ensures
        r@ == patch_text(strs(hunk.lines@)),
{
    let ghost all = strs(hunk.lines@);
    let mut s = String::new();
    let mut i: usize = 0;
    while i < hunk.lines.len()
        invariant
            0 <= i <= hunk.lines@.len(),
            all == strs(hunk.lines@),
            s@ == terminated(all.take(i as int)),
        decreases hunk.lines.len() - i,
    {
        let line = chars_of(hunk.lines[i].as_str());
        push_line(&mut s, &line, Ghost(all), Ghost(i as int));
        i = i + 1;
    }
    assert(all.take(all.len() as int) == all);
    if hunk.lines.len() == 0 {
        s.push('\n');
    }
    s
}

// ---------------------------------------------------------------------------
// Undo and redo
// ---------------------------------------------------------------------------

/// How many edits the history keeps.
pub const UNDO_LIMIT: usize = 50;

/// One edit of a file, as the history keeps it.
pub struct UndoEntry {
    /// What the edit did, for the status line.
    pub description: String,
    /// The file edited.
    pub file_path: String,
    /// The file's text before the edit.
    pub old_content: String,
    /// The file's text after the edit.
    pub new_content: String,
}

/// The edits that can be undone (the latest last) and those that can be
/// redone (the latest undone last).
pub struct UndoHistory {
    pub undo_stack: Vec<UndoEntry>,
    pub redo_stack: Vec<UndoEntry>,
}

/// The two stacks of a history.
pub struct HistoryV {
    pub undo: Seq<UndoEntry>,
    pub redo: Seq<UndoEntry>,
}

impl View for UndoHistory {
    type V = HistoryV;

    open spec fn view(&self) -> HistoryV {
        HistoryV { undo: self.undo_stack@, redo: self.redo_stack@ }
    }
}

/// Together the two stacks hold at most `UNDO_LIMIT` edits.
pub open spec fn history_ok(h: HistoryV) -> bool {
    h.undo.len() + h.redo.len() <= UNDO_LIMIT
}

/// `s` without its oldest entry when it holds more than `UNDO_LIMIT`.
pub open spec fn capped(s: Seq<UndoEntry>) -> Seq<UndoEntry> {
    if s.len() > UNDO_LIMIT {
        s.skip(1)
    } else {
        s
    }
}

/// The history once `e` is recorded: `e` tops the undo stack (the oldest
/// edit falls off past the limit) and nothing can be redone.
pub open spec fn recorded(h: HistoryV, e: UndoEntry) -> HistoryV {
    HistoryV { undo: capped(h.undo.push(e)), redo: Seq::empty() }
}

/// The history once the latest record is dropped again (its write failed).
pub open spec fn forgotten(h: HistoryV) -> HistoryV {
    if h.undo.len() == 0 {
        h
    } else {
        HistoryV { undo: h.undo.drop_last(), redo: h.redo }
    }
}

/// The top of the undo stack, taken off it.
pub open spec fn undo_taken(h: HistoryV) -> (HistoryV, Option<UndoEntry>) {
    if h.undo.len() == 0 {
        (h, None)
    } else {
        (HistoryV { undo: h.undo.drop_last(), redo: h.redo }, Some(h.undo.last()))
    }
}

/// The history once the undo of `e` wrote the file (`written`) or not: a
/// written undo goes onto the redo stack, a failed one back where it was.
pub open spec fn undo_settled(h: HistoryV, e: UndoEntry, written: bool) -> HistoryV {
    if written {
        HistoryV { undo: h.undo, redo: capped(h.redo.push(e)) }
    } else {
        HistoryV { undo: h.undo.push(e), redo: h.redo }
    }
}

/// The top of the redo stack, taken off it.
pub open spec fn redo_taken(h: HistoryV) -> (HistoryV, Option<UndoEntry>) {
    if h.redo.len() == 0 {
        (h, None)
    } else {
        (HistoryV { undo: h.undo, redo: h.redo.drop_last() }, Some(h.redo.last()))
    }
}

/// The history once the redo of `e` wrote the file (`written`) or not: a
/// written redo goes back onto the undo stack, a failed one back where it
/// was.
pub open spec fn redo_settled(h: HistoryV, e: UndoEntry, written: bool) -> HistoryV {
    if written {
        HistoryV { undo: h.undo.push(e), redo: h.redo }
    } else {
        HistoryV { undo: h.undo, redo: h.redo.push(e) }
    }
}

/// Drops the oldest entry of `v` when it holds more than `UNDO_LIMIT`.
fn cap_stack(v: &mut Vec<UndoEntry>)
    ensures
        final(v)@ == capped(old(v)@),
{
    if v.len() > UNDO_LIMIT {
        v.remove(0);
        assert(old(v)@.remove(0) == old(v)@.skip(1));
    }
}

impl UndoHistory {
    /// An empty history.
    pub fn new() -> (r: UndoHistory)
        ensures
            r@.undo.len() == 0,
            r@.redo.len() == 0,
    {
        UndoHistory { undo_stack: Vec::new(), redo_stack: Vec::new() }
    }

    /// Records an edit just made: it can be undone next, and what was undone
    /// before can no longer be redone.
    pub fn record(&mut self, entry: UndoEntry)
        ensures
            final(self)@ == recorded(old(self)@, entry),
    {
        self.undo_stack.push(entry);
        self.redo_stack = Vec::new();
        cap_stack(&mut self.undo_stack);
        assert(self.redo_stack@ == Seq::<UndoEntry>::empty());
    }

    /// Drops the latest record, for an edit whose write failed.
    pub fn forget_latest(&mut self)
        ensures
            final(self)@ == forgotten(old(self)@),
    {
        let _ = self.undo_stack.pop();
    }

    /// Takes the latest edit off the undo stack; the caller writes its old
    /// text back and settles it with `settle_undo`.
    pub fn take_undo(&mut self) -> (r: Option<UndoEntry>)
        ensures
            (final(self)@, r) == undo_taken(old(self)@),
    {
        self.undo_stack.pop()
    }

    /// Settles an undo taken with `take_undo`: once written it can be
    /// redone, else it stays to be undone.
    pub fn settle_undo(&mut self, entry: UndoEntry, written: bool)
        ensures
            final(self)@ == undo_settled(old(self)@, entry, written),
    {
        if written {
            self.redo_stack.push(entry);
            cap_stack(&mut self.redo_stack);
        } else {
            self.undo_stack.push(entry);
        }
    }

    /// Takes the latest undone edit off the redo stack; the caller writes
    /// its new text again and settles it with `settle_redo`.
    pub fn take_redo(&mut self) -> (r: Option<UndoEntry>)
        ensures
            (final(self)@, r) == redo_taken(old(self)@),
    {
        self.redo_stack.pop()
    }

    /// Settles a redo taken with `take_redo`: once written it can be undone
    /// again, else it stays to be redone.
    pub fn settle_redo(&mut self, entry: UndoEntry, written: bool)
        ensures
            final(self)@ == redo_settled(old(self)@, entry, written),
    {
        if written {
            self.undo_stack.push(entry);
        } else {
            self.redo_stack.push(entry);
        }
    }
}

/// The edit undone next is the one recorded last.
pub proof fn law_undo_takes_latest_record(h: HistoryV, e: UndoEntry)
    ensures
        undo_taken(recorded(h, e)).1 == Some(e),
{
    let s = h.undo.push(e);
    if s.len() > UNDO_LIMIT {
        assert(s.skip(1).last() == e);
    }
}

/// An undo or redo whose write failed leaves the history as it was.
pub proof fn law_failed_write_keeps_history(h: HistoryV)
    ensures
        undo_taken(h).1 matches Some(e) ==> undo_settled(undo_taken(h).0, e, false) == h,
        redo_taken(h).1 matches Some(e) ==> redo_settled(redo_taken(h).0, e, false) == h,
{
    if h.undo.len() > 0 {
        assert(h.undo.drop_last().push(h.undo.last()) == h.undo);
    }
    if h.redo.len() > 0 {
        assert(h.redo.drop_last().push(h.redo.last()) == h.redo);
    }
}

/// Undoing an edit and redoing it gives back the history as it was, and
/// the redo brings back the very edit that was undone.
pub proof fn law_redo_undoes_undo(h: HistoryV)
    requires
        history_ok(h),
        h.undo.len() > 0,
    ensures
        ({
            let (h1, e) = undo_taken(h);
            let h2 = undo_settled(h1, e.unwrap(), true);
            let (h3, e2) = redo_taken(h2);
            e2 == e && redo_settled(h3, e2.unwrap(), true) == h
        }),
{
    let e = h.undo.last();
    assert(h.redo.push(e).len() <= UNDO_LIMIT);
    assert(h.redo.push(e).drop_last() == h.redo);
    assert(h.undo.drop_last().push(e) == h.undo);
}

/// Every step keeps the history within `UNDO_LIMIT` edits.
pub proof fn law_history_stays_bounded(h: HistoryV, e: UndoEntry, written: bool)
    requires
        history_ok(h),
    ensures
        history_ok(recorded(h, e)),
        history_ok(forgotten(h)),
        undo_taken(h).1 matches Some(x) ==> history_ok(undo_settled(undo_taken(h).0, x, written)),
        redo_taken(h).1 matches Some(x) ==> history_ok(redo_settled(redo_taken(h).0, x, written)),
{
}

} // verus!
