//! Moving about the log view: switching sub-tabs, selecting rows and files,
//! zooming, cycling the focus, widening the list, paging in more entries,
//! and the log of git commands run.
use vstd::prelude::*;
use crate::log_view::{LogDetailMode, LogPaneFocus, LogSubTab, LogUi, LogZoom, commit_scores, log_tokens, reflog_scores, stash_scores};
use crate::ranking::{entry_at, keep_selection, move_in_list, moved_selection, rank_scores};
use crate::text::{trim, trim_string};

verus! {

// ---------------------------------------------------------------------------
// The log of git commands
// ---------------------------------------------------------------------------

/// How many commands the log keeps.
pub const GIT_LOG_LIMIT: usize = 200;

/// A git command that was run, and how it ended.
pub struct GitLogEntry {
    /// When it ran, as the caller's clock reads (seconds).
    pub when: u64,
    pub cmd: String,
    pub ok: bool,
    /// The error, for a command that failed.
    pub detail: Option<String>,
}

/// The log with `e` in front, cut to its newest `GIT_LOG_LIMIT` entries.
pub open spec fn logged(log: Seq<GitLogEntry>, e: GitLogEntry) -> Seq<GitLogEntry> {
    let s = seq![e] + log;
    if s.len() > GIT_LOG_LIMIT {
        s.take(GIT_LOG_LIMIT as int)
    } else {
        s
    }
}

/// Logs the command `cmd`, run at `when`, with its `result` in front of
/// `log` (newest first; the oldest fall off past `GIT_LOG_LIMIT`). When the
/// view shows the commands and none is selected, the first is selected and
/// the result is `true`: the detail pane must be refreshed.
pub fn push_git_log(
    log: &mut Vec<GitLogEntry>,
    ui: &mut LogUi,
    cmd: String,
    result: Result<(), String>,
    when: u64,
) -> (refresh: bool)
    ensures
        final(log)@.len() >= 1,
        final(log)@ == logged(old(log)@, final(log)@[0]),
        final(log)@[0].cmd@ == cmd@,
        final(log)@[0].when == when,
        final(log)@[0].ok == result.is_ok(),
        final(log)@[0].detail == match result {
            Ok(_) => None::<String>,
            Err(e) => Some(e),
        },
        refresh == (old(ui).subtab == LogSubTab::Commands && old(ui).command_selected is None),
        final(ui).command_selected == (if refresh {
            Some(0usize)
        } else {
            old(ui).command_selected
        }),
        final(ui).subtab == old(ui).subtab,
{
    let ok = result.is_ok();
    let detail = match result {
        Ok(_) => None,
        Err(e) => Some(e),
    };
    let entry = GitLogEntry { when, cmd, ok, detail };
    let ghost e = entry;
    log.insert(0, entry);
    assert(log@ == seq![e] + old(log)@);
    log.truncate(GIT_LOG_LIMIT);
    let refresh = match ui.subtab {
        LogSubTab::Commands => ui.command_selected.is_none(),
        _ => false,
    };
    if refresh {
        ui.command_selected = Some(0);
    }
    refresh
}

/// The log keeps at most `GIT_LOG_LIMIT` commands, the newest first.
pub proof fn law_command_log_bounded(log: Seq<GitLogEntry>, e: GitLogEntry)
    requires
        log.len() <= GIT_LOG_LIMIT,
    ensures
        logged(log, e).len() == if log.len() == GIT_LOG_LIMIT {
            log.len()
        } else {
            log.len() + 1
        },
        logged(log, e)[0] == e,
        forall|i: int| 1 <= i < logged(log, e).len() ==> #[trigger] logged(log, e)[i] == log[i - 1],
{
}

// ---------------------------------------------------------------------------
// Rows of the current sub-tab
// ---------------------------------------------------------------------------

/// How many rows the current sub-tab lists (`commands` is the number of
/// logged commands).
pub open spec fn active_len_spec(ui: LogUi, commands: nat) -> nat {
    match ui.subtab {
        LogSubTab::History => ui.history_filtered@.len(),
        LogSubTab::Reflog => ui.reflog_filtered@.len(),
        LogSubTab::Stash => ui.stash_filtered@.len(),
        LogSubTab::Commands => commands,
    }
}

/// The selected row of the current sub-tab.
pub open spec fn active_sel(ui: LogUi) -> Option<usize> {
    match ui.subtab {
        LogSubTab::History => ui.history_selected,
        LogSubTab::Reflog => ui.reflog_selected,
        LogSubTab::Stash => ui.stash_selected,
        LogSubTab::Commands => ui.command_selected,
    }
}

/// `sel`, or the first row when `sel` is off a non-empty list of `len` rows.
pub open spec fn first_if_off(sel: Option<usize>, len: nat) -> Option<usize> {
    if len > 0 && (sel is None || sel.unwrap() >= len) {
        Some(0)
    } else {
        sel
    }
}

/// The selections of the three filtered lists are the same as in `b`, and
/// `a` and `b` agree on everything a selection move leaves alone.
pub open spec fn same_lists(a: LogUi, b: LogUi) -> bool {
    &&& a.subtab == b.subtab
    &&& a.history_filtered@ == b.history_filtered@
    &&& a.reflog_filtered@ == b.reflog_filtered@
    &&& a.stash_filtered@ == b.stash_filtered@
    &&& a.detail_mode == b.detail_mode
    &&& a.zoom == b.zoom
    &&& a.files@ == b.files@
}

/// What selecting a row did.
#[derive(Clone, Copy, Debug, PartialEq, Eq, Structural)]
pub enum LogSelect {
    /// The row is not listed: nothing changed.
    Ignored,
    /// The row was already selected; more entries may be due.
    Kept,
    /// The row is now selected: the detail pane is due a refresh, and more
    /// entries may be due.
    Moved,
}

impl LogUi {
    /// How many rows the current sub-tab lists.
    pub fn active_len(&self, commands: usize) -> (r: usize)
        ensures
            r == active_len_spec(*self, commands as nat),
    {
        match self.subtab {
            LogSubTab::History => self.history_filtered.len(),
            LogSubTab::Reflog => self.reflog_filtered.len(),
            LogSubTab::Stash => self.stash_filtered.len(),
            LogSubTab::Commands => commands,
        }
    }

    /// Switches to `subtab` as the view does: the inspect pop-up closes; the
    /// reflog opens zoomed on its list; the commands list selects its first
    /// row when its selection is off the list (none when no command was
    /// run); the other lists are filtered again, and the history and reflog
    /// select their first row when their selection is off the list.
    pub fn switch_subtab(&mut self, subtab: LogSubTab, commands: usize)
        ensures
            final(self).subtab == subtab,
            !final(self).inspect.open,
            old(self).subtab != subtab ==> final(self).diff_scroll_y == 0
                && final(self).diff_scroll_x == 0,
            old(self).subtab == subtab ==> final(self).diff_scroll_y == old(self).diff_scroll_y
                && final(self).diff_scroll_x == old(self).diff_scroll_x,
            final(self).zoom == (if subtab == LogSubTab::Reflog {
                LogZoom::List
            } else {
                old(self).zoom
            }),
            final(self).focus == (if subtab == LogSubTab::Reflog || old(self).subtab != subtab {
                LogPaneFocus::Commits
            } else {
                old(self).focus
            }),
            subtab == LogSubTab::Commands ==> {
                &&& final(self).command_selected == (if commands == 0 {
                    None
                } else if old(self).subtab != subtab {
                    Some(0usize)
                } else {
                    first_if_off(old(self).command_selected, commands as nat)
                })
                &&& final(self).history_filtered@ == old(self).history_filtered@
                &&& final(self).reflog_filtered@ == old(self).reflog_filtered@
                &&& final(self).stash_filtered@ == old(self).stash_filtered@
                &&& final(self).history_selected == old(self).history_selected
                &&& final(self).reflog_selected == old(self).reflog_selected
                &&& final(self).stash_selected == old(self).stash_selected
            },
            subtab != LogSubTab::Commands ==> {
                let t = log_tokens(old(self).filter_query@);
                let hf = rank_scores(commit_scores(old(self).history@, t));
                let rf = rank_scores(reflog_scores(old(self).reflog@, t));
                let sf = rank_scores(stash_scores(old(self).stash@, t));
                let hs = keep_selection(hf, entry_at(old(self).history_filtered@, old(self).history_selected));
                let rs = keep_selection(rf, entry_at(old(self).reflog_filtered@, old(self).reflog_selected));
                &&& final(self).history_filtered@ == hf
                &&& final(self).reflog_filtered@ == rf
                &&& final(self).stash_filtered@ == sf
                &&& final(self).history_selected == (if subtab == LogSubTab::History {
                    first_if_off(hs, hf.len())
                } else {
                    hs
                })
                &&& final(self).reflog_selected == (if subtab == LogSubTab::Reflog {
                    first_if_off(rs, rf.len())
                } else {
                    rs
                })
                &&& final(self).stash_selected == keep_selection(
                    sf,
                    entry_at(old(self).stash_filtered@, old(self).stash_selected),
                )
                &&& final(self).command_selected == old(self).command_selected
            },
            final(self).history@ == old(self).history@,
            final(self).reflog@ == old(self).reflog@,
            final(self).stash@ == old(self).stash@,
            final(self).detail_mode == old(self).detail_mode,
    {
        self.inspect.close();
        self.set_subtab(subtab);
        match self.subtab {
            LogSubTab::Reflog => {
                self.zoom = LogZoom::List;
                self.focus = LogPaneFocus::Commits;
            },
            _ => {},
        }
        match self.subtab {
            LogSubTab::Commands => {
                if commands == 0 {
                    self.command_selected = None;
                } else {
                    let off = match self.command_selected {
                        Some(i) => i >= commands,
                        None => true,
                    };
                    if off {
                        self.command_selected = Some(0);
                    }
                }
            },
            _ => {
                self.update_filtered();
                match self.subtab {
                    LogSubTab::History => {
                        let len = self.history_filtered.len();
                        let off = match self.history_selected {
                            Some(i) => i >= len,
                            None => true,
                        };
                        if len > 0 && off {
                            self.history_selected = Some(0);
                        }
                    },
                    LogSubTab::Reflog => {
                        let len = self.reflog_filtered.len();
                        let off = match self.reflog_selected {
                            Some(i) => i >= len,
                            None => true,
                        };
                        if len > 0 && off {
                            self.reflog_selected = Some(0);
                        }
                    },
                    _ => {},
                }
            },
        }
    }

    /// Selects row `idx` of the current sub-tab: a row not listed is
    /// ignored; a new row takes the focus to the list and scrolls the
    /// detail back to the top.
    pub fn select_item(&mut self, idx: usize, commands: usize) -> (r: LogSelect)
        ensures
            r == (if idx >= active_len_spec(*old(self), commands as nat) {
                LogSelect::Ignored
            } else if active_sel(*old(self)) == Some(idx) {
                LogSelect::Kept
            } else {
                LogSelect::Moved
            }),
            r == LogSelect::Moved ==> {
                &&& active_sel(*final(self)) == Some(idx)
                &&& final(self).focus == LogPaneFocus::Commits
                &&& final(self).diff_scroll_y == 0
                &&& final(self).diff_scroll_x == 0
            },
            r != LogSelect::Moved ==> active_sel(*final(self)) == active_sel(*old(self))
                && final(self).focus == old(self).focus
                && final(self).diff_scroll_y == old(self).diff_scroll_y,
            same_lists(*final(self), *old(self)),
    {
        if idx >= self.active_len(commands) {
            return LogSelect::Ignored;
        }
        if self.active_selection() == Some(idx) {
            return LogSelect::Kept;
        }
        self.select_active(Some(idx));
        self.focus = LogPaneFocus::Commits;
        self.diff_scroll_y = 0;
        self.diff_scroll_x = 0;
        LogSelect::Moved
    }

    /// Moves the selection of the current sub-tab by `delta` rows, stopping
    /// at either end; an empty list loses its selection.
    pub fn move_selection(&mut self, delta: i32, commands: usize) -> (r: LogSelect)
        requires
            active_len_spec(*old(self), commands as nat) <= 0x8000_0000,
            ({
                let cur: int = match active_sel(*old(self)) {
                    Some(s) => s as int,
                    None => 0,
                };
                cur <= i32::MAX && i32::MIN <= cur + delta <= i32::MAX
            }),
        ensures
            ({
                let len = active_len_spec(*old(self), commands as nat);
                let cur: int = match active_sel(*old(self)) {
                    Some(s) => s as int,
                    None => 0,
                };
                let next = moved_selection(len, active_sel(*old(self)), delta as int);
                &&& len == 0 ==> r == LogSelect::Ignored && active_sel(*final(self)) is None
                &&& len > 0 && next.unwrap() == cur ==> r == LogSelect::Kept && active_sel(
                    *final(self),
                ) == active_sel(*old(self))
                &&& len > 0 && next.unwrap() != cur ==> r == LogSelect::Moved && active_sel(
                    *final(self),
                ) == next && final(self).focus == LogPaneFocus::Commits
                    && final(self).diff_scroll_y == 0
            }),
            same_lists(*final(self), *old(self)),
    {
        let len = self.active_len(commands);
        if len == 0 {
            self.select_active(None);
            return LogSelect::Ignored;
        }
        let cur: usize = match self.active_selection() {
            Some(s) => s,
            None => 0,
        };
        let next = move_in_list(len, self.active_selection(), delta);
        let n = match next {
            Some(n) => n,
            None => 0,
        };
        if n == cur {
            return LogSelect::Kept;
        }
        self.select_item(n, commands)
    }

    /// Selects file `idx` of the commit shown: the files pane takes the
    /// focus and the diff scrolls back to the top. `false` (and nothing
    /// changes) when there is no such file.
    pub fn select_file(&mut self, idx: usize) -> (r: bool)
        ensures
            r == (idx < old(self).files@.len()),
            r ==> final(self).files_selected == Some(idx) && final(self).focus
                == LogPaneFocus::Files && final(self).diff_scroll_y == 0
                && final(self).diff_scroll_x == 0,
            !r ==> final(self).files_selected == old(self).files_selected && final(self).focus
                == old(self).focus,
            final(self).files@ == old(self).files@,
            same_lists(*final(self), *old(self)),
            active_sel(*final(self)) == active_sel(*old(self)),
    {
        if idx >= self.files.len() {
            return false;
        }
        self.files_selected = Some(idx);
        self.focus = LogPaneFocus::Files;
        self.diff_scroll_y = 0;
        self.diff_scroll_x = 0;
        true
    }

    /// Moves the file selection by `delta`, stopping at either end; with no
    /// files nothing is selected. `true` when a file was selected (the
    /// detail pane is due a refresh).
    pub fn move_file_selection(&mut self, delta: i32) -> (r: bool)
        requires
            old(self).files@.len() <= 0x8000_0000,
            ({
                let cur: int = match old(self).files_selected {
                    Some(s) => s as int,
                    None => 0,
                };
                cur <= i32::MAX && i32::MIN <= cur + delta <= i32::MAX
            }),
        ensures
            r == (old(self).files@.len() > 0),
            final(self).files_selected == moved_selection(
                old(self).files@.len(),
                old(self).files_selected,
                delta as int,
            ),
            r ==> final(self).focus == LogPaneFocus::Files && final(self).diff_scroll_y == 0,
            final(self).files@ == old(self).files@,
            same_lists(*final(self), *old(self)),
    {
        let len = self.files.len();
        if len == 0 {
            self.files_selected = None;
            return false;
        }
        let next = move_in_list(len, self.files_selected, delta);
        match next {
            Some(n) => self.select_file(n),
            None => false,
        }
    }

    /// Zooms in turn on the diff, on the list, and back out: zooming on the
    /// diff focuses it, zooming on the list focuses it and closes the
    /// inspect pop-up.
    pub fn toggle_zoom(&mut self)
        ensures
            final(self).zoom == next_zoom(old(self).zoom),
            final(self).focus == match final(self).zoom {
                LogZoom::Diff => LogPaneFocus::Diff,
                LogZoom::List => LogPaneFocus::Commits,
                LogZoom::Unzoomed => old(self).focus,
            },
            final(self).zoom == LogZoom::List ==> !final(self).inspect.open,
            final(self).zoom != LogZoom::List ==> final(self).inspect == old(self).inspect,
            same_lists_but_zoom(*final(self), *old(self)),
    {
        let next = match self.zoom {
            LogZoom::Unzoomed => LogZoom::Diff,
            LogZoom::Diff => LogZoom::List,
            LogZoom::List => LogZoom::Unzoomed,
        };
        self.zoom = next;
        match next {
            LogZoom::Diff => {
                self.focus = LogPaneFocus::Diff;
            },
            LogZoom::List => {
                self.focus = LogPaneFocus::Commits;
                self.inspect.close();
            },
            LogZoom::Unzoomed => {},
        }
    }

    /// Moves the focus to the next pane shown: with the list zoomed only
    /// the list; with the diff zoomed the diff (or, with a commit's files
    /// shown, files and diff in turn); unzoomed the list and the diff (or
    /// list, files and diff) in turn.
    pub fn cycle_focus(&mut self)
        ensures
            final(self).focus == next_focus(
                old(self).zoom,
                old(self).detail_mode == LogDetailMode::Files && old(self).subtab
                    == LogSubTab::History,
                old(self).focus,
            ),
            same_lists(*final(self), *old(self)),
            active_sel(*final(self)) == active_sel(*old(self)),
    {
        let files_mode = self.detail_mode == LogDetailMode::Files && self.subtab
            == LogSubTab::History;
        let next = match self.zoom {
            LogZoom::List => LogPaneFocus::Commits,
            LogZoom::Diff => {
                if files_mode {
                    match self.focus {
                        LogPaneFocus::Files => LogPaneFocus::Diff,
                        _ => LogPaneFocus::Files,
                    }
                } else {
                    LogPaneFocus::Diff
                }
            },
            LogZoom::Unzoomed => {
                if files_mode {
                    match self.focus {
                        LogPaneFocus::Commits => LogPaneFocus::Files,
                        LogPaneFocus::Files => LogPaneFocus::Diff,
                        LogPaneFocus::Diff => LogPaneFocus::Commits,
                    }
                } else {
                    match self.focus {
                        LogPaneFocus::Diff => LogPaneFocus::Commits,
                        _ => LogPaneFocus::Diff,
                    }
                }
            },
        };
        self.focus = next;
    }

    /// Widens (or narrows) the list pane by `delta` columns, within 32 to 90.
    pub fn adjust_left_width(&mut self, delta: i16)
        requires
            old(self).left_width <= i16::MAX,
            i16::MIN <= old(self).left_width + delta <= i16::MAX,
        ensures
            final(self).left_width == adjusted_width_spec(old(self).left_width as int + delta),
            same_lists(*final(self), *old(self)),
    {
        self.left_width = adjusted_width(self.left_width, delta);
    }
}

/// The zoom after `z`: diff, then list, then none.
pub open spec fn next_zoom(z: LogZoom) -> LogZoom {
    match z {
        LogZoom::Unzoomed => LogZoom::Diff,
        LogZoom::Diff => LogZoom::List,
        LogZoom::List => LogZoom::Unzoomed,
    }
}

/// `a` and `b` agree on the lists and modes, the zoom aside.
pub open spec fn same_lists_but_zoom(a: LogUi, b: LogUi) -> bool {
    &&& a.subtab == b.subtab
    &&& a.history_filtered@ == b.history_filtered@
    &&& a.reflog_filtered@ == b.reflog_filtered@
    &&& a.stash_filtered@ == b.stash_filtered@
    &&& a.detail_mode == b.detail_mode
    &&& a.files@ == b.files@
    &&& active_sel(a) == active_sel(b)
}

/// The pane focused after `f`, under zoom `z`, with or without the files
/// pane shown.
pub open spec fn next_focus(z: LogZoom, files_mode: bool, f: LogPaneFocus) -> LogPaneFocus {
    match z {
        LogZoom::List => LogPaneFocus::Commits,
        LogZoom::Diff => if files_mode {
            match f {
                LogPaneFocus::Files => LogPaneFocus::Diff,
                _ => LogPaneFocus::Files,
            }
        } else {
            LogPaneFocus::Diff
        },
        LogZoom::Unzoomed => if files_mode {
            match f {
                LogPaneFocus::Commits => LogPaneFocus::Files,
                LogPaneFocus::Files => LogPaneFocus::Diff,
                LogPaneFocus::Diff => LogPaneFocus::Commits,
            }
        } else {
            match f {
                LogPaneFocus::Diff => LogPaneFocus::Commits,
                _ => LogPaneFocus::Diff,
            }
        },
    }
}

/// `w` held within 32 to 90.
pub open spec fn adjusted_width_spec(w: int) -> u16 {
    if w < 32 {
        32
    } else if w > 90 {
        90
    } else {
        w as u16
    }
}

/// A pane width `cur` changed by `delta`, held within 32 to 90 columns.
pub fn adjusted_width(cur: u16, delta: i16) -> (r: u16)
    requires
        cur <= i16::MAX,
        i16::MIN <= cur + delta <= i16::MAX,
    ensures
        r == adjusted_width_spec(cur + delta),
        32 <= r <= 90,
{
    let c: i16 = cur as i16;
    let next: i16 = c + delta;
    if next < 32 {
        32
    } else if next > 90 {
        90
    } else {
        next as u16
    }
}

/// Three zoom toggles come back to the zoom the view started with.
pub proof fn law_zoom_cycles(z: LogZoom)
    ensures
        next_zoom(next_zoom(next_zoom(z))) == z,
{
}

/// Unzoomed with the files shown, the focus visits list, files and diff in
/// turn and comes back; without them it alternates between list and diff.
pub proof fn law_focus_cycles(f: LogPaneFocus)
    ensures
        next_focus(LogZoom::Unzoomed, true, next_focus(
            LogZoom::Unzoomed,
            true,
            next_focus(LogZoom::Unzoomed, true, f),
        )) == f,
        f != LogPaneFocus::Files ==> next_focus(
            LogZoom::Unzoomed,
            false,
            next_focus(LogZoom::Unzoomed, false, f),
        ) == f,
{
}

impl LogUi {
    /// Esc in the log view: while the filter is typed on the log tab, a
    /// blank filter stops being typed and any other is emptied (the lists
    /// are filtered again and the result is `true`: the detail is due a
    /// refresh); otherwise the filter stops being typed. The inspect pop-up
    /// closes either way.
    pub fn escape(&mut self, on_log_tab: bool) -> (refresh: bool)
        ensures
            refresh == (on_log_tab && old(self).filter_edit && trim(old(self).filter_query@).len() > 0),
            refresh ==> {
                &&& final(self).filter_edit
                &&& final(self).filter_query@.len() == 0
                &&& final(self).history_filtered@ == rank_scores(
                    commit_scores(old(self).history@, log_tokens(Seq::empty())),
                )
                &&& final(self).reflog_filtered@ == rank_scores(
                    reflog_scores(old(self).reflog@, log_tokens(Seq::empty())),
                )
                &&& final(self).stash_filtered@ == rank_scores(
                    stash_scores(old(self).stash@, log_tokens(Seq::empty())),
                )
            },
            !refresh ==> !final(self).filter_edit && final(self).filter_query@ == old(
                self,
            ).filter_query@ && final(self).history_filtered@ == old(self).history_filtered@,
            !final(self).inspect.open,
            final(self).subtab == old(self).subtab,
    {
        let mut refresh = false;
        if on_log_tab && self.filter_edit {
            let t = trim_string(self.filter_query.as_str());
            if t.as_str().unicode_len() == 0 {
                self.filter_edit = false;
            } else {
                self.filter_query = String::new();
                assert(self.filter_query@ == Seq::<char>::empty());
                self.update_filtered();
                refresh = true;
            }
        } else {
            self.filter_edit = false;
        }
        self.inspect.close();
        refresh
    }
}

// ---------------------------------------------------------------------------
// Paging in more entries
// ---------------------------------------------------------------------------

/// What a request for more entries comes to.
#[derive(Clone, Copy, Debug, PartialEq, Eq, Structural)]
pub enum LoadMore {
    /// Another job runs.
    Busy,
    /// There is no repository.
    NotRepository,
    /// The commands list has nothing more to load.
    NothingMore,
    /// Load the sub-tab's list again with this many entries.
    Fetch(LogSubTab, usize),
}

/// Rows within this many of the end of a list ask for more entries.
pub const PREFETCH_ROWS: usize = 10;

/// How many more entries each page loads.
pub const PAGE: usize = 200;

impl LogUi {
    /// What "load more" does: busy or outside a repository nothing; the
    /// commands list has nothing more; another list is loaded again with
    /// `PAGE` more entries than its limit (saturating).
    pub fn load_more(&self, busy: bool, has_repo: bool) -> (r: LoadMore)
        ensures
            r == (if busy {
                LoadMore::Busy
            } else if !has_repo {
                LoadMore::NotRepository
            } else {
                match self.subtab {
                    LogSubTab::History => LoadMore::Fetch(
                        LogSubTab::History,
                        sat_add(self.history_limit, PAGE),
                    ),
                    LogSubTab::Reflog => LoadMore::Fetch(
                        LogSubTab::Reflog,
                        sat_add(self.reflog_limit, PAGE),
                    ),
                    LogSubTab::Stash => LoadMore::Fetch(
                        LogSubTab::Stash,
                        sat_add(self.stash_limit, PAGE),
                    ),
                    LogSubTab::Commands => LoadMore::NothingMore,
                }
            }),
    {
        if busy {
            return LoadMore::Busy;
        }
        if !has_repo {
            return LoadMore::NotRepository;
        }
        match self.subtab {
            LogSubTab::History => LoadMore::Fetch(
                LogSubTab::History,
                self.history_limit.saturating_add(PAGE),
            ),
            LogSubTab::Reflog => LoadMore::Fetch(
                LogSubTab::Reflog,
                self.reflog_limit.saturating_add(PAGE),
            ),
            LogSubTab::Stash => LoadMore::Fetch(LogSubTab::Stash, self.stash_limit.saturating_add(PAGE)),
            LogSubTab::Commands => LoadMore::NothingMore,
        }
    }

    /// Whether the view should load more entries by itself: no job runs,
    /// the selection is within `PREFETCH_ROWS` of the end of a non-empty
    /// list, and the sub-tab's list (not the commands) filled its limit.
    pub fn wants_more(&self, busy: bool, commands: usize) -> (r: bool)
        ensures
            r == ({
                let len = active_len_spec(*self, commands as nat);
                let sel: int = match active_sel(*self) {
                    Some(s) => s as int,
                    None => 0,
                };
                let start: int = if len >= PREFETCH_ROWS {
                    len - PREFETCH_ROWS
                } else {
                    0
                };
                &&& !busy
                &&& len > 0
                &&& sel >= start
                &&& match self.subtab {
                    LogSubTab::History => self.history@.len() > 0 && self.history@.len()
                        == self.history_limit,
                    LogSubTab::Reflog => self.reflog@.len() > 0 && self.reflog@.len()
                        == self.reflog_limit,
                    LogSubTab::Stash => self.stash@.len() > 0 && self.stash@.len()
                        == self.stash_limit,
                    LogSubTab::Commands => false,
                }
            }),
    {
        if busy {
            return false;
        }
        let sel: usize = match self.active_selection() {
            Some(s) => s,
            None => 0,
        };
        let len = self.active_len(commands);
        if len == 0 {
            return false;
        }
        let start = len.saturating_sub(PREFETCH_ROWS);
        if sel < start {
            return false;
        }
        match self.subtab {
            LogSubTab::History => self.history.len() > 0 && self.history.len() == self.history_limit,
            LogSubTab::Reflog => self.reflog.len() > 0 && self.reflog.len() == self.reflog_limit,
            LogSubTab::Stash => self.stash.len() > 0 && self.stash.len() == self.stash_limit,
            LogSubTab::Commands => false,
        }
    }
}

/// `a + b`, or `usize::MAX` past it.
pub open spec fn sat_add(a: usize, b: usize) -> usize {
    if a + b > usize::MAX {
        usize::MAX
    } else {
        (a + b) as usize
    }
}

} // verus!
