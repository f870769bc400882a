//! The theme picker and the command palette: their fixed lists, and
//! moving through them (the selection wraps around at either end).
use vstd::prelude::*;
use crate::theme::Theme;
use crate::text::push_str;

verus! {

broadcast use vstd::string::group_string_axioms;

// ---------------------------------------------------------------------------
// Wrapping lists
// ---------------------------------------------------------------------------

/// The row `delta` rows on from `sel` (the first row without one) in a
/// list of `len` rows, wrapping around; `None` for an empty list.
pub open spec fn wrapped(len: nat, sel: Option<usize>, delta: int) -> Option<usize> {
    if len == 0 {
        None
    } else {
        let cur: int = match sel {
            Some(s) => s as int,
            None => 0,
        };
        Some(((cur + delta) % (len as int)) as usize)
    }
}

/// The row `delta` rows on from `sel`, wrapping (see `wrapped`).
pub fn wrap_step(len: usize, sel: Option<usize>, delta: i32) -> (r: Option<usize>)
    requires
        len <= i32::MAX,
        match sel {
            Some(s) => s <= i32::MAX && i32::MIN <= s + delta <= i32::MAX,
            None => true,
        },
    ensures
        r == wrapped(len as nat, sel, delta as int),
        r matches Some(k) ==> k < len,
{
    if len == 0 {
        return None;
    }
    let cur: i64 = match sel {
        Some(s) => s as i64,
        None => 0,
    };
    let x: i64 = cur + delta as i64;
    let n: i64 = len as i64;
    let m: i64 = if x >= 0 {
        x % n
    } else {
        let r = (-x) % n;
        if r == 0 {
            0
        } else {
            n - r
        }
    };
    proof {
        lemma_euclid_mod(x as int, n as int, m as int);
    }
    Some(m as usize)
}

proof fn lemma_euclid_mod(x: int, n: int, m: int)
    requires
        n > 0,
        x >= 0 ==> m == x % n,
        x < 0 ==> m == (if (-x) % n == 0 {
            0
        } else {
            n - (-x) % n
        }),
    ensures
        m == x % n,
        0 <= m < n,
{
    if x < 0 {
        let r = (-x) % n;
        let q = (-x) / n;
        assert(-x == q * n + r && 0 <= r < n) by (nonlinear_arith)
            requires
                n > 0,
                r == (-x) % n,
                q == (-x) / n,
        ;
        if r == 0 {
            assert(x == (-q) * n + 0) by (nonlinear_arith)
                requires
                    -x == q * n + r,
                    r == 0,
            ;
            vstd::arithmetic::div_mod::lemma_fundamental_div_mod_converse(x, n, -q, 0);
        } else {
            assert(x == (-q - 1) * n + (n - r)) by (nonlinear_arith)
                requires
                    -x == q * n + r,
            ;
            vstd::arithmetic::div_mod::lemma_fundamental_div_mod_converse(x, n, -q - 1, n - r);
        }
    }
}

/// Moving back by the step just taken gives the row that was selected.
pub proof fn law_wrap_step_undone(len: nat, s: usize, delta: int)
    requires
        s < len <= usize::MAX,
    ensures
        wrapped(len, wrapped(len, Some(s), delta), -delta) == Some(s),
{
    let n = len as int;
    let x = s + delta;
    let m = x % n;
    let q = x / n;
    assert(x == q * n + m && 0 <= m < n) by (nonlinear_arith)
        requires
            n > 0,
            m == x % n,
            q == x / n,
    ;
    assert(m - delta == (-q) * n + s) by (nonlinear_arith)
        requires
            x == q * n + m,
            x == s + delta,
    ;
    vstd::arithmetic::div_mod::lemma_fundamental_div_mod_converse(m - delta, n, -q, s as int);
    assert(wrapped(len, Some(s), delta) == Some(m as usize));
    assert((m as usize) as int == m);
}

// ---------------------------------------------------------------------------
// The theme picker
// ---------------------------------------------------------------------------

/// The themes in the order the picker lists them.
pub open spec fn theme_order() -> Seq<Theme> {
    seq![
        Theme::Terminal,
        Theme::Mocha,
        Theme::TokyoNightStorm,
        Theme::GruvboxDarkHard,
        Theme::Nord,
        Theme::Dracula,
    ]
}

/// How many themes the picker lists.
pub const THEME_COUNT: usize = 6;

/// The theme on row `i` of the picker.
pub fn theme_at(i: usize) -> (r: Option<Theme>)
    ensures
        r == (if i < theme_order().len() {
            Some(theme_order()[i as int])
        } else {
            None
        }),
{
    match i {
        0 => Some(Theme::Terminal),
        1 => Some(Theme::Mocha),
        2 => Some(Theme::TokyoNightStorm),
        3 => Some(Theme::GruvboxDarkHard),
        4 => Some(Theme::Nord),
        5 => Some(Theme::Dracula),
        _ => None,
    }
}

/// The picker's row for `t`.
pub fn theme_row(t: Theme) -> (r: usize)
    ensures
        r < theme_order().len(),
        theme_order()[r as int] == t,
{
    match t {
        Theme::Terminal => 0,
        Theme::Mocha => 1,
        Theme::TokyoNightStorm => 2,
        Theme::GruvboxDarkHard => 3,
        Theme::Nord => 4,
        Theme::Dracula => 5,
    }
}

/// The status after choosing theme `t`: "Theme: " and its name.
pub fn theme_status(t: Theme) -> (r: String)
    ensures
        r@ == "Theme: "@ + t.label_spec(),
{
    let mut s = String::new();
    push_str(&mut s, "Theme: ");
    push_str(&mut s, t.label());
    s
}

/// The theme picker.
pub struct ThemePickerUi {
    pub open: bool,
    pub selected: Option<usize>,
}

impl ThemePickerUi {
    /// A closed picker.
    pub fn new() -> (r: ThemePickerUi)
        ensures
            !r.open,
            r.selected is None,
    {
        ThemePickerUi { open: false, selected: None }
    }

    /// Opens the picker on the row of the current theme, or closes it when
    /// it is open.
    pub fn toggle(&mut self, current: Theme)
        ensures
            final(self).open == !old(self).open,
            final(self).open ==> (final(self).selected matches Some(i) && theme_order()[i as int]
                == current),
            !final(self).open ==> final(self).selected == old(self).selected,
    {
        if self.open {
            self.open = false;
            return;
        }
        self.open = true;
        self.selected = Some(theme_row(current));
    }

    /// Moves the selection by `delta` rows, wrapping around.
    pub fn move_selection(&mut self, delta: i32)
        requires
            match old(self).selected {
                Some(s) => s <= i32::MAX && i32::MIN <= s + delta <= i32::MAX,
                None => true,
            },
        ensures
            final(self).selected == wrapped(THEME_COUNT as nat, old(self).selected, delta as int),
            final(self).open == old(self).open,
    {
        self.selected = wrap_step(THEME_COUNT, self.selected, delta);
    }

    /// The theme on the selected row.
    pub fn chosen(&self) -> (r: Option<Theme>)
        ensures
            r == match self.selected {
                Some(i) => if i < theme_order().len() {
                    Some(theme_order()[i as int])
                } else {
                    None
                },
                None => None,
            },
    {
        match self.selected {
            Some(i) => theme_at(i),
            None => None,
        }
    }
}

// ---------------------------------------------------------------------------
// The command palette
// ---------------------------------------------------------------------------

/// The commands the palette offers.
#[derive(Clone, Copy, Debug, PartialEq, Eq, Structural)]
pub enum CommandId {
    ToggleHidden,
    ToggleWrapDiff,
    ToggleSyntaxHighlight,
    SelectTheme,
    RefreshGit,
    GitFetch,
    GitPullRebase,
    GitPush,
    OpenBranchPicker,
    NewBranch,
    OpenAuthorPicker,
    OpenStashPicker,
    ClearGitLog,
    QuickStash,
    CheckUpdate,
    Quit,
}

/// The palette's commands in the order it lists them.
pub open spec fn palette_order() -> Seq<CommandId> {
    seq![
        CommandId::ToggleHidden,
        CommandId::ToggleWrapDiff,
        CommandId::ToggleSyntaxHighlight,
        CommandId::SelectTheme,
        CommandId::RefreshGit,
        CommandId::OpenBranchPicker,
        CommandId::NewBranch,
        CommandId::OpenAuthorPicker,
        CommandId::OpenStashPicker,
        CommandId::GitFetch,
        CommandId::GitPullRebase,
        CommandId::GitPush,
        CommandId::ClearGitLog,
        CommandId::QuickStash,
        CommandId::CheckUpdate,
        CommandId::Quit,
    ]
}

/// How many commands the palette lists.
pub const PALETTE_COUNT: usize = 16;

/// The command on row `i` of the palette, with its title.
pub fn palette_item(i: usize) -> (r: Option<(CommandId, &'static str)>)
    ensures
        match r {
            Some((c, _)) => i < palette_order().len() && c == palette_order()[i as int],
            None => i >= palette_order().len(),
        },
{
    match i {
        0 => Some((CommandId::ToggleHidden, "Toggle hidden files")),
        1 => Some((CommandId::ToggleWrapDiff, "Toggle diff wrap")),
        2 => Some((CommandId::ToggleSyntaxHighlight, "Toggle syntax highlight")),
        3 => Some((CommandId::SelectTheme, "Select theme…")),
        4 => Some((CommandId::RefreshGit, "Git: refresh status")),
        5 => Some((CommandId::OpenBranchPicker, "Checkout branch…")),
        6 => Some((CommandId::NewBranch, "Git: new branch…")),
        7 => Some((CommandId::OpenAuthorPicker, "Filter by author…")),
        8 => Some((CommandId::OpenStashPicker, "Stash…")),
        9 => Some((CommandId::GitFetch, "Git: fetch --prune")),
        10 => Some((CommandId::GitPullRebase, "Git: pull --rebase")),
        11 => Some((CommandId::GitPush, "Git: push")),
        12 => Some((CommandId::ClearGitLog, "Clear git command log")),
        13 => Some((CommandId::QuickStash, "Git: stash changes")),
        14 => Some((CommandId::CheckUpdate, "Check for updates")),
        15 => Some((CommandId::Quit, "Quit")),
        _ => None,
    }
}

/// The command palette.
pub struct CommandPaletteUi {
    pub open: bool,
    pub selected: Option<usize>,
}

impl CommandPaletteUi {
    /// A closed palette.
    pub fn new() -> (r: CommandPaletteUi)
        ensures
            !r.open,
            r.selected is None,
    {
        CommandPaletteUi { open: false, selected: None }
    }

    /// Opens the palette on its first row, or closes it when it is open.
    pub fn toggle(&mut self)
        ensures
            final(self).open == !old(self).open,
            final(self).open ==> final(self).selected == Some(0usize),
            !final(self).open ==> final(self).selected == old(self).selected,
    {
        if self.open {
            self.open = false;
            return;
        }
        self.open = true;
        self.selected = Some(0);
    }

    /// Moves the selection by `delta` rows, wrapping around.
    pub fn move_selection(&mut self, delta: i32)
        requires
            match old(self).selected {
                Some(s) => s <= i32::MAX && i32::MIN <= s + delta <= i32::MAX,
                None => true,
            },
        ensures
            final(self).selected == wrapped(PALETTE_COUNT as nat, old(self).selected, delta as int),
            final(self).open == old(self).open,
    {
        self.selected = wrap_step(PALETTE_COUNT, self.selected, delta);
    }

    /// Closes the palette and hands back the command on the selected row.
    pub fn take_selected(&mut self) -> (r: Option<CommandId>)
        ensures
            r == match old(self).selected {
                Some(i) => if i < palette_order().len() {
                    Some(palette_order()[i as int])
                } else {
                    None
                },
                None => None,
            },
            r is Some ==> !final(self).open,
            r is None ==> final(self).open == old(self).open,
            final(self).selected == old(self).selected,
    {
        let i = match self.selected {
            Some(i) => i,
            None => {
                return None;
            },
        };
        match palette_item(i) {
            Some((c, _)) => {
                self.open = false;
                Some(c)
            },
            None => None,
        }
    }
}

// ---------------------------------------------------------------------------
// Clicks on the pop-up lists
// ---------------------------------------------------------------------------

/// A rectangle of terminal cells.
#[derive(Clone, Copy, Debug, PartialEq, Eq, Structural)]
pub struct Rect {
    pub x: u16,
    pub y: u16,
    pub width: u16,
    pub height: u16,
}

/// Whether cell (`col`, `row`) lies in `r`.
pub open spec fn in_rect(r: Rect, col: u16, row: u16) -> bool {
    r.x <= col < r.x + r.width && r.y <= row < r.y + r.height
}

/// A box of `w` by `h` cells centred in a terminal of `tw` by `th`.
pub open spec fn centered(tw: u16, th: u16, w: u16, h: u16) -> Rect {
    Rect {
        x: (if tw >= w { (tw - w) / 2 } else { 0 }) as u16,
        y: (if th >= h { (th - h) / 2 } else { 0 }) as u16,
        width: w,
        height: h,
    }
}

fn centered_rect(tw: u16, th: u16, w: u16, h: u16) -> (r: Rect)
    ensures
        r == centered(tw, th, w, h),
{
    Rect { x: tw.saturating_sub(w) / 2, y: th.saturating_sub(h) / 2, width: w, height: h }
}

pub open spec fn min_u16(a: int, b: int) -> int {
    if a <= b { a } else { b }
}

pub open spec fn max_u16(a: int, b: int) -> int {
    if a >= b { a } else { b }
}

pub open spec fn sat_sub_u16(a: u16, b: u16) -> int {
    if a >= b { a - b } else { 0 }
}

/// The command palette's box in a `tw` by `th` terminal: at most 56 columns
/// less two (at least 32), as tall as its rows and six more, up to the
/// height less two (at least 10), centred.
pub open spec fn palette_box(tw: u16, th: u16) -> Rect {
    let w = max_u16(sat_sub_u16(min_u16(tw as int, 56) as u16, 2), 32);
    let h = max_u16(min_u16(PALETTE_COUNT + 6, sat_sub_u16(th, 2)), 10);
    centered(tw, th, w as u16, h as u16)
}

/// The theme picker's box in a `tw` by `th` terminal: 35 columns, up to the
/// width less two (at least 30); 11 rows, up to the height less two (at
/// least 9); centred.
pub open spec fn theme_box(tw: u16, th: u16) -> Rect {
    let w = max_u16(min_u16(35, sat_sub_u16(tw, 2)), 30);
    let h = max_u16(min_u16(11, sat_sub_u16(th, 2)), 9);
    centered(tw, th, w as u16, h as u16)
}

/// The command palette's box (see `palette_box`).
pub fn palette_modal(tw: u16, th: u16) -> (r: Rect)
    ensures
        r == palette_box(tw, th),
{
    let w0 = if tw < 56 { tw } else { 56 };
    let w1 = w0.saturating_sub(2);
    let w = if w1 > 32 { w1 } else { 32 };
    let desired: u16 = 22;
    let h0 = th.saturating_sub(2);
    let h1 = if desired < h0 { desired } else { h0 };
    let h = if h1 > 10 { h1 } else { 10 };
    centered_rect(tw, th, w, h)
}

/// The theme picker's box (see `theme_box`).
pub fn theme_modal(tw: u16, th: u16) -> (r: Rect)
    ensures
        r == theme_box(tw, th),
{
    let w0 = tw.saturating_sub(2);
    let w1 = if 35 < w0 { 35 } else { w0 };
    let w = if w1 > 30 { w1 } else { 30 };
    let h0 = th.saturating_sub(2);
    let h1 = if 11 < h0 { 11 } else { h0 };
    let h = if h1 > 9 { h1 } else { 9 };
    centered_rect(tw, th, w, h)
}

/// What a click on a pop-up list does.
#[derive(Clone, Copy, Debug, PartialEq, Eq, Structural)]
pub enum ListClick {
    /// Outside the pop-up: it closes.
    Close,
    /// Inside, off the rows: nothing.
    Ignore,
    /// On a row not yet selected: it is selected.
    Select(usize),
    /// On the selected row: its item is carried out.
    Activate(usize),
}

/// What a click at (`col`, `row`) does to a pop-up `modal` whose list shows
/// `len` items from item `offset` on, on the rows `list_top` to `list_top +
/// list_height`, with `selected` selected.
pub open spec fn list_click_spec(
    modal: Rect,
    list_top: u16,
    list_height: u16,
    offset: usize,
    len: usize,
    selected: Option<usize>,
    col: u16,
    row: u16,
) -> ListClick {
    if !in_rect(modal, col, row) {
        ListClick::Close
    } else if list_top <= row < list_top + list_height && offset + (row - list_top) < len {
        let idx = (offset + (row - list_top)) as usize;
        if selected == Some(idx) {
            ListClick::Activate(idx)
        } else {
            ListClick::Select(idx)
        }
    } else {
        ListClick::Ignore
    }
}

/// What a click does to a pop-up list (see `list_click_spec`).
pub fn list_click(
    modal: Rect,
    list_top: u16,
    list_height: u16,
    offset: usize,
    len: usize,
    selected: Option<usize>,
    col: u16,
    row: u16,
) -> (r: ListClick)
    ensures
        r == list_click_spec(modal, list_top, list_height, offset, len, selected, col, row),
{
    let mx = modal.x as u32;
    let my = modal.y as u32;
    let c = col as u32;
    let rw = row as u32;
    if c < mx || c >= mx + modal.width as u32 || rw < my || rw >= my + modal.height as u32 {
        return ListClick::Close;
    }
    let top = list_top as u32;
    if rw < top || rw >= top + list_height as u32 {
        return ListClick::Ignore;
    }
    let d = (row - list_top) as usize;
    if offset >= len || d >= len - offset {
        return ListClick::Ignore;
    }
    let idx = offset + d;
    if selected == Some(idx) {
        ListClick::Activate(idx)
    } else {
        ListClick::Select(idx)
    }
}

impl CommandPaletteUi {
    /// A click while the palette is open (see `list_click`): outside it
    /// closes; on a row it selects it, or hands back the row's command when
    /// it was already selected (the palette then closes).
    pub fn click(&mut self, modal: Rect, list_top: u16, list_height: u16, offset: usize, col: u16, row: u16) -> (r: Option<CommandId>)
        ensures
            ({
                let c = list_click_spec(modal, list_top, list_height, offset, PALETTE_COUNT, old(self).selected, col, row);
                match c {
                    ListClick::Close => r is None && !final(self).open && final(self).selected == old(self).selected,
                    ListClick::Ignore => r is None && final(self).open == old(self).open && final(self).selected == old(self).selected,
                    ListClick::Select(i) => r is None && final(self).open == old(self).open && final(self).selected == Some(i),
                    ListClick::Activate(i) => r == Some(palette_order()[i as int]) && !final(self).open && final(self).selected == Some(i),
                }
            }),
    {
        match list_click(modal, list_top, list_height, offset, PALETTE_COUNT, self.selected, col, row) {
            ListClick::Close => {
                self.open = false;
                None
            },
            ListClick::Ignore => None,
            ListClick::Select(i) => {
                self.selected = Some(i);
                None
            },
            ListClick::Activate(i) => {
                assert(palette_order().len() == PALETTE_COUNT);
                self.selected = Some(i);
                self.take_selected()
            },
        }
    }
}

impl ThemePickerUi {
    /// A click while the picker is open (see `list_click`): outside it
    /// closes; on a row it selects it, or hands back the row's theme when
    /// it was already selected (to apply).
    pub fn click(&mut self, modal: Rect, list_top: u16, list_height: u16, offset: usize, col: u16, row: u16) -> (r: Option<Theme>)
        ensures
            ({
                let c = list_click_spec(modal, list_top, list_height, offset, THEME_COUNT, old(self).selected, col, row);
                match c {
                    ListClick::Close => r is None && !final(self).open && final(self).selected == old(self).selected,
                    ListClick::Ignore => r is None && final(self).open == old(self).open && final(self).selected == old(self).selected,
                    ListClick::Select(i) => r is None && final(self).open == old(self).open && final(self).selected == Some(i),
                    ListClick::Activate(i) => r == Some(theme_order()[i as int]) && final(self).open == old(self).open && final(self).selected == Some(i),
                }
            }),
    {
        match list_click(modal, list_top, list_height, offset, THEME_COUNT, self.selected, col, row) {
            ListClick::Close => {
                self.open = false;
                None
            },
            ListClick::Ignore => None,
            ListClick::Select(i) => {
                self.selected = Some(i);
                None
            },
            ListClick::Activate(i) => {
                self.selected = Some(i);
                self.chosen()
            },
        }
    }
}

} // verus!
