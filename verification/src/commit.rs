//! The commit-message editor: a text buffer with a character cursor.
//!
//! The message is modelled by its characters (`message@`), the cursor by a
//! character index. Every edit is stated as an operation on `Seq<char>`.
use vstd::prelude::*;
use crate::text::{chars_of, lines_of, lines_vec, push_chars, string_from, sub_chars};

verus! {

broadcast use vstd::string::group_string_axioms;

#[derive(Clone, Copy, Debug, PartialEq, Eq, Structural)]
pub enum CommitFocus {
    Message,
}

#[derive(Clone, Debug)]
pub struct CommitState {
    pub open: bool,
    pub focus: CommitFocus,
    pub message: String,
    pub cursor: usize,
    pub scroll_y: u16,
    pub status: Option<String>,
    pub busy: bool,
}

// ---------------------------------------------------------------------------
// Model
// ---------------------------------------------------------------------------

/// Line and column reached after reading `p`: the number of newlines in `p`
/// and the number of characters after the last of them.
pub open spec fn line_col_of(p: Seq<char>) -> (nat, nat)
    decreases p.len(),
{
    if p.len() == 0 {
        (0, 0)
    } else {
        let lc = line_col_of(p.drop_last());
        if p.last() == '\n' {
            (lc.0 + 1, 0)
        } else {
            (lc.0, lc.1 + 1)
        }
    }
}

/// Line and column of the cursor; a cursor past the end counts as the end.
pub open spec fn cursor_pos(s: Seq<char>, cursor: nat) -> (nat, nat) {
    line_col_of(s.take(clamp(cursor, s.len()) as int))
}

pub open spec fn clamp(i: nat, n: nat) -> nat {
    if i <= n {
        i
    } else {
        n
    }
}

/// Character index of column `tc` on line `tl`: characters before line `tl`
/// are passed over; on line `tl` the walk stops at column `tc` or at the line's
/// newline, whichever comes first. Past the last line it is the text's length.
pub open spec fn index_in_line(s: Seq<char>, tl: nat, tc: nat) -> nat
    decreases s.len(),
{
    if s.len() == 0 {
        0
    } else if tl == 0 {
        if tc == 0 || s[0] == '\n' {
            0
        } else {
            1 + index_in_line(s.drop_first(), 0, (tc - 1) as nat)
        }
    } else if s[0] == '\n' {
        1 + index_in_line(s.drop_first(), (tl - 1) as nat, tc)
    } else {
        1 + index_in_line(s.drop_first(), tl, tc)
    }
}

/// Length in characters of line `k` (as `str::lines` splits it), or 0.
pub open spec fn line_length_of(s: Seq<char>, k: nat) -> nat {
    if k < lines_of(s).len() {
        lines_of(s)[k as int].len()
    } else {
        0
    }
}

/// `s` with `ch` inserted before character `i`.
pub open spec fn insert_at(s: Seq<char>, i: nat, ch: char) -> Seq<char> {
    s.take(i as int) + seq![ch] + s.skip(i as int)
}

/// `s` without character `i`.
pub open spec fn remove_at(s: Seq<char>, i: nat) -> Seq<char> {
    s.take(i as int) + s.skip(i + 1 as int)
}

/// Cursor after a step to the left.
pub open spec fn step_left(cursor: nat) -> nat {
    if cursor == 0 {
        0
    } else {
        (cursor - 1) as nat
    }
}

/// Cursor after a step to the right; it does not pass the end of `s`.
pub open spec fn step_right(s: Seq<char>, cursor: nat) -> nat {
    if cursor < s.len() {
        cursor + 1
    } else {
        cursor
    }
}

/// Message and cursor after typing `ch`.
pub open spec fn typed(s: Seq<char>, cursor: nat, ch: char) -> (Seq<char>, nat) {
    (insert_at(s, clamp(cursor, s.len()), ch), cursor + 1)
}

/// Message and cursor after a backspace: the character before the cursor goes
/// and the cursor steps back; nothing happens at the start or past the end.
pub open spec fn backspaced(s: Seq<char>, cursor: nat) -> (Seq<char>, nat) {
    if 0 < cursor && cursor - 1 < s.len() {
        (remove_at(s, (cursor - 1) as nat), (cursor - 1) as nat)
    } else {
        (s, cursor)
    }
}

/// Message after a forward delete: the character under the cursor goes.
pub open spec fn deleted(s: Seq<char>, cursor: nat) -> Seq<char> {
    if cursor < s.len() {
        remove_at(s, cursor)
    } else {
        s
    }
}

/// First line shown once line `line` is scrolled into a view of `height` rows
/// whose first line is `top` (kept as `u16`, as the state stores it).
pub open spec fn scrolled_top(line: int, top: int, height: int) -> u16 {
    if line < top {
        line as u16
    } else if line > top + height - 1 {
        (line - (height - 1)) as u16
    } else {
        top as u16
    }
}

impl CommitState {
    /// The cursor lies within the message (at most at its end).
    pub open spec fn cursor_in_message(&self) -> bool {
        self.cursor <= self.message@.len()
    }

    /// Everything but the message and the cursor is as in `other`.
    pub open spec fn same_but_text(&self, other: &Self) -> bool {
        &&& self.open == other.open
        &&& self.focus == other.focus
        &&& self.scroll_y == other.scroll_y
        &&& self.status == other.status
        &&& self.busy == other.busy
    }

    pub fn new() -> (r: Self)
        ensures
            !r.open,
            r.focus == CommitFocus::Message,
            r.message@ == Seq::<char>::empty(),
            r.cursor == 0,
            r.scroll_y == 0,
            r.status is None,
            !r.busy,
    {
        Self {
            open: false,
            focus: CommitFocus::Message,
            message: String::new(),
            cursor: 0,
            scroll_y: 0,
            status: None,
            busy: false,
        }
    }

    pub fn set_status(&mut self, msg: String)
        ensures
            final(self).status == Some(msg),
            final(self).message@ == old(self).message@,
            final(self).cursor == old(self).cursor,
            final(self).open == old(self).open,
            final(self).focus == old(self).focus,
            final(self).scroll_y == old(self).scroll_y,
            final(self).busy == old(self).busy,
    {
        self.status = Some(msg);
    }

    pub fn move_left(&mut self)
        ensures
            final(self).cursor == step_left(old(self).cursor as nat),
            final(self).message@ == old(self).message@,
            final(self).same_but_text(&*old(self)),
            old(self).cursor_in_message() ==> final(self).cursor_in_message(),
    {
        self.cursor = self.cursor.saturating_sub(1);
    }

    pub fn move_right(&mut self)
        ensures
            final(self).cursor == step_right(old(self).message@, old(self).cursor as nat),
            final(self).message@ == old(self).message@,
            final(self).same_but_text(&*old(self)),
            old(self).cursor_in_message() ==> final(self).cursor_in_message(),
    {
        let len = chars_of(self.message.as_str()).len();
        if self.cursor < len {
            self.cursor = self.cursor + 1;
        }
    }

    /// Moves the cursor to the start of its line.
    pub fn move_home(&mut self)
        ensures
            final(self).cursor == index_in_line(
                old(self).message@,
                cursor_pos(old(self).message@, old(self).cursor as nat).0,
                0,
            ),
            final(self).message@ == old(self).message@,
            final(self).same_but_text(&*old(self)),
            final(self).cursor_in_message(),
    {
        let (line, _col) = cursor_line_col(self.message.as_str(), self.cursor);
        self.cursor = cursor_to_index_in_line(self.message.as_str(), line, 0);
    }

    /// Moves the cursor to the end of its line.
    pub fn move_end(&mut self)
        ensures
            final(self).cursor == ({
                let line = cursor_pos(old(self).message@, old(self).cursor as nat).0;
                index_in_line(old(self).message@, line, line_length_of(old(self).message@, line))
            }),
            final(self).message@ == old(self).message@,
            final(self).same_but_text(&*old(self)),
            final(self).cursor_in_message(),
    {
        let (line, _col) = cursor_line_col(self.message.as_str(), self.cursor);
        let line_len = line_length(self.message.as_str(), line);
        self.cursor = cursor_to_index_in_line(self.message.as_str(), line, line_len);
    }

    pub fn insert_char(&mut self, ch: char)
        requires
            old(self).cursor < usize::MAX,
        ensures
            (final(self).message@, final(self).cursor as nat) == typed(
                old(self).message@,
                old(self).cursor as nat,
                ch,
            ),
            final(self).same_but_text(&*old(self)),
            old(self).cursor_in_message() ==> final(self).cursor_in_message(),
    {
        let v = chars_of(self.message.as_str());
        let k = if self.cursor < v.len() {
            self.cursor
        } else {
            v.len()
        };
        let mut m = string_from(&v, 0, k);
        m.push(ch);
        let tail = sub_chars(&v, k, v.len());
        push_chars(&mut m, &tail);
        assert(v@.subrange(0, k as int) == v@.take(k as int));
        assert(v@.subrange(k as int, v@.len() as int) == v@.skip(k as int));
        self.message = m;
        self.cursor = self.cursor + 1;
    }

    pub fn backspace(&mut self)
        ensures
            (final(self).message@, final(self).cursor as nat) == backspaced(
                old(self).message@,
                old(self).cursor as nat,
            ),
            final(self).same_but_text(&*old(self)),
            old(self).cursor_in_message() ==> final(self).cursor_in_message(),
    {
        if self.cursor == 0 {
            return ;
        }
        let v = chars_of(self.message.as_str());
        let idx = self.cursor - 1;
        if idx < v.len() {
            let mut m = string_from(&v, 0, idx);
            let tail = sub_chars(&v, self.cursor, v.len());
            push_chars(&mut m, &tail);
            assert(v@.subrange(0, idx as int) == v@.take(idx as int));
            assert(v@.subrange(self.cursor as int, v@.len() as int) == v@.skip(idx + 1));
            self.message = m;
            self.cursor = idx;
        }
    }

    pub fn delete(&mut self)
        ensures
            final(self).message@ == deleted(old(self).message@, old(self).cursor as nat),
            final(self).cursor == old(self).cursor,
            final(self).same_but_text(&*old(self)),
            old(self).cursor_in_message() ==> final(self).cursor_in_message(),
    {
        let v = chars_of(self.message.as_str());
        if self.cursor >= v.len() {
            return ;
        }
        let mut m = string_from(&v, 0, self.cursor);
        let tail = sub_chars(&v, self.cursor + 1, v.len());
        push_chars(&mut m, &tail);
        assert(v@.subrange(0, self.cursor as int) == v@.take(self.cursor as int));
        assert(v@.subrange(self.cursor + 1, v@.len() as int) == v@.skip(self.cursor + 1));
        self.message = m;
    }

    pub fn cursor_line_col(&self) -> (r: (usize, usize))
        ensures
            (r.0 as nat, r.1 as nat) == cursor_pos(self.message@, self.cursor as nat),
    {
        cursor_line_col(self.message.as_str(), self.cursor)
    }

    /// Scrolls so that the cursor's line lies within `view_height` rows.
    pub fn ensure_cursor_visible(&mut self, view_height: usize)
        requires
            old(self).message@.len() <= i64::MAX,
            view_height == 0 || old(self).scroll_y + view_height <= i64::MAX,
        ensures
            final(self).scroll_y == (if view_height == 0 {
                old(self).scroll_y
            } else {
                scrolled_top(
                    cursor_pos(old(self).message@, old(self).cursor as nat).0 as int,
                    old(self).scroll_y as int,
                    view_height as int,
                )
            }),
            final(self).message@ == old(self).message@,
            final(self).cursor == old(self).cursor,
            final(self).open == old(self).open,
            final(self).focus == old(self).focus,
            final(self).status == old(self).status,
            final(self).busy == old(self).busy,
    {
        if view_height == 0 {
            return ;
        }
        let (line, _col) = self.cursor_line_col();
        let top = self.scroll_y as usize;
        if line < top {
            self.scroll_y = line as u16;
        } else if line - top > view_height - 1 {
            self.scroll_y = (line - (view_height - 1)) as u16;
        }
    }
}

// ---------------------------------------------------------------------------
// Cursor arithmetic
// ---------------------------------------------------------------------------

proof fn lemma_line_col_bound(p: Seq<char>)
    ensures
        line_col_of(p).0 <= p.len(),
        line_col_of(p).1 <= p.len(),
    decreases p.len(),
{
    if p.len() > 0 {
        lemma_line_col_bound(p.drop_last());
    }
}

/// Line and column of the character cursor `cursor` in `s`.
fn cursor_line_col(s: &str, cursor: usize) -> (r: (usize, usize))
    ensures
        (r.0 as nat, r.1 as nat) == cursor_pos(s@, cursor as nat),
{
    let v = chars_of(s);
    let mut line: usize = 0;
    let mut col: usize = 0;
    let mut i: usize = 0;
    while i < v.len() && i < cursor
        invariant
            i <= v.len(),
            i <= cursor,
            v@ == s@,
            (line as nat, col as nat) == line_col_of(v@.take(i as int)),
        decreases v.len() - i,
    {
        proof {
            assert(v@.take(i + 1).drop_last() == v@.take(i as int));
            lemma_line_col_bound(v@.take(i as int));
        }
        if v[i] == '\n' {
            line = line + 1;
            col = 0;
        } else {
            col = col + 1;
        }
        i = i + 1;
    }
    (line, col)
}

/// Length in characters of line `line_index` of `s`, or 0 past the last line.
fn line_length(s: &str, line_index: usize) -> (r: usize)
    ensures
        r == line_length_of(s@, line_index as nat),
{
    let lines = lines_vec(s);
    proof {
        assert(lines@.map_values(|x: Vec<char>| x@).len() == lines@.len());
    }
    if line_index < lines.len() {
        proof {
            assert(lines@.map_values(|x: Vec<char>| x@)[line_index as int] == lines@[line_index as int]@);
        }
        lines[line_index].len()
    } else {
        0
    }
}

proof fn lemma_index_in_line_bound(s: Seq<char>, tl: nat, tc: nat)
    ensures
        index_in_line(s, tl, tc) <= s.len(),
    decreases s.len(),
{
    if s.len() > 0 {
        if tl == 0 {
            if tc > 0 && s[0] != '\n' {
                lemma_index_in_line_bound(s.drop_first(), 0, (tc - 1) as nat);
            }
        } else if s[0] == '\n' {
            lemma_index_in_line_bound(s.drop_first(), (tl - 1) as nat, tc);
        } else {
            lemma_index_in_line_bound(s.drop_first(), tl, tc);
        }
    }
}

/// Character index of column `target_col` on line `target_line` of `s`.
fn cursor_to_index_in_line(s: &str, target_line: usize, target_col: usize) -> (r: usize)
    ensures
        r == index_in_line(s@, target_line as nat, target_col as nat),
        r <= s@.len(),
{
    let v = chars_of(s);
    let mut idx: usize = 0;
    let mut line: usize = 0;
    let mut col: usize = 0;
    proof {
        assert(v@.skip(0) == v@);
        lemma_index_in_line_bound(s@, target_line as nat, target_col as nat);
    }
    while idx < v.len()
        invariant
            idx <= v.len(),
            v@ == s@,
            line <= target_line,
            col <= target_col,
            line < target_line ==> col == 0,
            index_in_line(s@, target_line as nat, target_col as nat) == idx + index_in_line(
                v@.skip(idx as int),
                (target_line - line) as nat,
                (target_col - col) as nat,
            ),
        decreases v.len() - idx,
    {
        let ghost rest = v@.skip(idx as int);
        proof {
            assert(rest[0] == v@[idx as int]);
            assert(rest.drop_first() == v@.skip(idx + 1));
        }
        if line == target_line && col == target_col {
            return idx;
        }
        if v[idx] == '\n' {
            if line == target_line {
                return idx;
            }
            line = line + 1;
            col = 0;
            idx = idx + 1;
        } else {
            if line == target_line {
                col = col + 1;
            }
            idx = idx + 1;
        }
    }
    proof {
        assert(v@.skip(idx as int).len() == 0);
    }
    idx
}

impl CommitState {
    /// After a commit went through: the editor closes and empties, its
    /// status says so.
    pub fn finish_commit(&mut self)
        ensures
            !final(self).open,
            final(self).message@.len() == 0,
            final(self).cursor == 0,
            final(self).scroll_y == 0,
            final(self).status matches Some(s) && s@ == "Committed"@,
            final(self).focus == old(self).focus,
            final(self).busy == old(self).busy,
    {
        self.open = false;
        self.message = String::new();
        self.cursor = 0;
        self.scroll_y = 0;
        self.set_status("Committed".to_owned());
    }

    /// Takes the outcome of asking for a generated message: the message
    /// replaces the text, with the cursor at its end; a failure becomes the
    /// status. Either way the editor is no longer busy.
    pub fn apply_generated(&mut self, result: Result<String, String>)
        ensures
            !final(self).busy,
            match result {
                Ok(m) => final(self).message@ == m@ && final(self).cursor == m@.len()
                    && final(self).scroll_y == 0 && (final(self).status matches Some(s) && s@
                    == "AI message generated"@),
                Err(e) => final(self).message@ == old(self).message@ && final(self).cursor == old(
                    self,
                ).cursor && final(self).status == Some(e),
            },
            final(self).open == old(self).open,
            final(self).focus == old(self).focus,
    {
        self.busy = false;
        match result {
            Ok(m) => {
                let n = chars_of(m.as_str()).len();
                self.message = m;
                self.cursor = n;
                self.scroll_y = 0;
                self.set_status("AI message generated".to_owned());
            },
            Err(e) => {
                self.set_status(e);
            },
        }
    }
}

// ---------------------------------------------------------------------------
// Laws
// ---------------------------------------------------------------------------

/// Typing a character and then pressing backspace gives back the message and
/// the cursor, wherever the cursor stood within the message.
pub proof fn law_type_then_backspace(s: Seq<char>, cursor: nat, ch: char)
    requires
        cursor <= s.len(),
    ensures
        ({
            let t = typed(s, cursor, ch);
            backspaced(t.0, t.1)
        }) == (s, cursor),
{
    let t = typed(s, cursor, ch);
    assert(t.0.len() == s.len() + 1);
    assert(remove_at(t.0, cursor) =~= s);
}

/// Stepping right and then left gives back the cursor when it was not at the
/// end of the message.
pub proof fn law_right_then_left(s: Seq<char>, cursor: nat)
    requires
        cursor < s.len(),
    ensures
        step_left(step_right(s, cursor)) == cursor,
{
}

/// A forward delete at the cursor removes exactly one character when the
/// cursor is within the message, and keeps the characters around it.
pub proof fn law_delete_removes_one(s: Seq<char>, cursor: nat)
    requires
        cursor < s.len(),
    ensures
        deleted(s, cursor).len() + 1 == s.len(),
        deleted(s, cursor).take(cursor as int) == s.take(cursor as int),
        deleted(s, cursor).skip(cursor as int) == s.skip(cursor + 1 as int),
{
    assert(deleted(s, cursor).take(cursor as int) =~= s.take(cursor as int));
    assert(deleted(s, cursor).skip(cursor as int) =~= s.skip(cursor + 1 as int));
}

} // verus!
