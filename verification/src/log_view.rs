//! The log view's lists: commits, reflog entries and stashes filtered by a
//! query, and the view's modes.
use vstd::prelude::*;
use crate::git::GitDiffMode;
use crate::git_ops::{CommitEntry, CommitFileChange, ReflogEntry, StashEntry};
use crate::ranking::{entry_at, entry_on_row, keep_selection, opt_view, rank_scores, ranked_by_score, reselect, score_text, text_score};
use crate::search::{log_filter, parse_log_filter_query};
use crate::text::{lowercase, strs, to_lowercase};

verus! {

#[derive(Clone, Copy, Debug, PartialEq, Eq, Structural)]
pub enum LogSubTab {
    History,
    Reflog,
    Stash,
    Commands,
}

#[derive(Clone, Copy, Debug, PartialEq, Eq, Structural)]
pub enum LogDetailMode {
    Diff,
    Files,
}

#[derive(Clone, Copy, Debug, PartialEq, Eq, Structural)]
pub enum LogPaneFocus {
    Commits,
    Files,
    Diff,
}

#[derive(Clone, Copy, Debug, PartialEq, Eq, Structural)]
pub enum LogZoom {
    Unzoomed,
    List,
    Diff,
}

/// The pop-up that shows a text in full.
pub struct InspectUi {
    pub open: bool,
    pub title: String,
    pub body: String,
    pub scroll_y: u16,
}

impl InspectUi {
    /// A closed, empty pop-up.
    pub fn new() -> (r: InspectUi)
        ensures
            !r.open,
            r.title@.len() == 0,
            r.body@.len() == 0,
            r.scroll_y == 0,
    {
        InspectUi { open: false, title: String::new(), body: String::new(), scroll_y: 0 }
    }

    /// Closes the pop-up and empties it.
    pub fn close(&mut self)
        ensures
            !final(self).open,
            final(self).title@.len() == 0,
            final(self).body@.len() == 0,
            final(self).scroll_y == 0,
    {
        self.open = false;
        self.title = String::new();
        self.body = String::new();
        self.scroll_y = 0;
    }
}

/// The log view: its sub-tab, filter, lists with their filtered rows and
/// selections, and the detail pane's state.
pub struct LogUi {
    pub status: Option<String>,
    pub history_ref: Option<String>,
    pub subtab: LogSubTab,
    pub filter_query: String,
    pub filter_edit: bool,
    pub focus: LogPaneFocus,
    pub history: Vec<CommitEntry>,
    pub reflog: Vec<ReflogEntry>,
    pub stash: Vec<StashEntry>,
    pub history_filtered: Vec<usize>,
    pub reflog_filtered: Vec<usize>,
    pub stash_filtered: Vec<usize>,
    pub detail_mode: LogDetailMode,
    pub diff_mode: GitDiffMode,
    pub zoom: LogZoom,
    pub diff_lines: Vec<String>,
    pub diff_scroll_y: u16,
    pub diff_scroll_x: u16,
    pub diff_generation: u64,
    pub diff_request_id: u64,
    pub files: Vec<CommitFileChange>,
    pub files_hash: Option<String>,
    pub history_limit: usize,
    pub reflog_limit: usize,
    pub stash_limit: usize,
    pub history_selected: Option<usize>,
    pub reflog_selected: Option<usize>,
    pub stash_selected: Option<usize>,
    pub command_selected: Option<usize>,
    pub left_width: u16,
    pub inspect: InspectUi,
    pub files_selected: Option<usize>,
}

// ---------------------------------------------------------------------------
// Filtering
// ---------------------------------------------------------------------------

/// The filter's tokens, lower-cased.
pub struct LogTokens {
    pub author: Seq<Seq<char>>,
    pub refs: Seq<Seq<char>>,
    pub tokens: Seq<Seq<char>>,
}

pub open spec fn lower_all(ts: Seq<Seq<char>>) -> Seq<Seq<char>> {
    ts.map_values(|t: Seq<char>| lowercase(t))
}

/// The tokens of a log filter query, lower-cased.
pub open spec fn log_tokens(query: Seq<char>) -> LogTokens {
    let f = log_filter(query);
    LogTokens { author: lower_all(f.author), refs: lower_all(f.refs), tokens: lower_all(f.tokens) }
}

pub open spec fn no_tokens(t: LogTokens) -> bool {
    t.author.len() == 0 && t.refs.len() == 0 && t.tokens.len() == 0
}

/// What the plain tokens search in a commit: its short hash, subject and
/// decoration.
pub open spec fn commit_text(e: CommitEntry) -> Seq<char> {
    e.short@ + seq![' '] + e.subject@ + seq![' '] + e.decoration@
}

/// What the plain tokens search in a reflog entry.
pub open spec fn reflog_text(e: ReflogEntry) -> Seq<char> {
    e.selector@ + seq![' '] + e.subject@ + seq![' '] + e.decoration@
}

/// What the plain tokens search in a stash.
pub open spec fn stash_text(e: StashEntry) -> Seq<char> {
    e.selector@ + seq![' '] + e.subject@
}

/// A commit's score: author tokens against its author, ref tokens against
/// its decoration, plain tokens against `commit_text`, summed; `None` when
/// a token does not match. Every commit scores 0 without tokens.
pub open spec fn commit_score(e: CommitEntry, t: LogTokens) -> Option<int> {
    if no_tokens(t) {
        Some(0)
    } else {
        match (
            text_score(e.author@, t.author),
            text_score(e.decoration@, t.refs),
            text_score(commit_text(e), t.tokens),
        ) {
            (Some(a), Some(b), Some(c)) => Some(a + b + c),
            _ => None,
        }
    }
}

/// A reflog entry's score: ref tokens against its decoration and plain
/// tokens against `reflog_text` (author tokens do not apply).
pub open spec fn reflog_score(e: ReflogEntry, t: LogTokens) -> Option<int> {
    if no_tokens(t) {
        Some(0)
    } else {
        match (text_score(e.decoration@, t.refs), text_score(reflog_text(e), t.tokens)) {
            (Some(b), Some(c)) => Some(b + c),
            _ => None,
        }
    }
}

/// A stash's score: no stash matches an author filter; plain tokens against
/// `stash_text` (ref tokens do not apply).
pub open spec fn stash_score(e: StashEntry, t: LogTokens) -> Option<int> {
    if no_tokens(t) {
        Some(0)
    } else if t.author.len() > 0 {
        None
    } else {
        text_score(stash_text(e), t.tokens)
    }
}

pub open spec fn commit_scores(es: Seq<CommitEntry>, t: LogTokens) -> Seq<Option<int>> {
    es.map_values(|e: CommitEntry| commit_score(e, t))
}

pub open spec fn reflog_scores(es: Seq<ReflogEntry>, t: LogTokens) -> Seq<Option<int>> {
    es.map_values(|e: ReflogEntry| reflog_score(e, t))
}

pub open spec fn stash_scores(es: Seq<StashEntry>, t: LogTokens) -> Seq<Option<int>> {
    es.map_values(|e: StashEntry| stash_score(e, t))
}

/// Each text lower-cased.
fn lower_each(v: &Vec<String>) -> (r: Vec<String>)
    ensures
        strs(r@) == lower_all(strs(v@)),
{
    let mut r: Vec<String> = Vec::new();
    let mut i: usize = 0;
    while i < v.len()
        invariant
            i <= v.len(),
            strs(r@) == lower_all(strs(v@)).take(i as int),
        decreases v.len() - i,
    {
        let ghost before = r@;
        r.push(to_lowercase(v[i].as_str()));
        assert(strs(r@) == strs(before).push(lowercase(v@[i as int]@)));
        i = i + 1;
        assert(lower_all(strs(v@)).take(i as int) == lower_all(strs(v@)).take(i - 1).push(
            lowercase(strs(v@)[i - 1]),
        ));
    }
    assert(lower_all(strs(v@)).take(v@.len() as int) == lower_all(strs(v@)));
    r
}

/// `a` and `b` joined by a space.
fn join_space(a: &String, b: &String) -> (r: String)
    ensures
        r@ == a@ + seq![' '] + b@,
{
    let mut t = a.clone();
    t.push(' ');
    crate::text::push_str(&mut t, b.as_str());
    t
}

/// Sum of three scores, each within 2^59.
fn add3(a: Option<i64>, b: Option<i64>, c: Option<i64>) -> (r: Option<i64>)
    requires
        a matches Some(x) ==> -0x800_0000_0000_0000 <= x <= 0x800_0000_0000_0000,
        b matches Some(x) ==> -0x800_0000_0000_0000 <= x <= 0x800_0000_0000_0000,
        c matches Some(x) ==> -0x800_0000_0000_0000 <= x <= 0x800_0000_0000_0000,
    ensures
        match (a, b, c) {
            (Some(x), Some(y), Some(z)) => r == Some((x + y + z) as i64),
            _ => r is None,
        },
{
    match (a, b, c) {
        (Some(x), Some(y), Some(z)) => Some(x + y + z),
        _ => None,
    }
}

impl LogUi {
    /// Filters the three lists by the query and keeps each selection on
    /// the same entry when it is still listed (else on the first row).
    pub fn update_filtered(&mut self)
        ensures
            final(self).history_filtered@ == rank_scores(
                commit_scores(old(self).history@, log_tokens(old(self).filter_query@)),
            ),
            final(self).reflog_filtered@ == rank_scores(
                reflog_scores(old(self).reflog@, log_tokens(old(self).filter_query@)),
            ),
            final(self).stash_filtered@ == rank_scores(
                stash_scores(old(self).stash@, log_tokens(old(self).filter_query@)),
            ),
            final(self).history_selected == keep_selection(
                final(self).history_filtered@,
                entry_at(old(self).history_filtered@, old(self).history_selected),
            ),
            final(self).reflog_selected == keep_selection(
                final(self).reflog_filtered@,
                entry_at(old(self).reflog_filtered@, old(self).reflog_selected),
            ),
            final(self).stash_selected == keep_selection(
                final(self).stash_filtered@,
                entry_at(old(self).stash_filtered@, old(self).stash_selected),
            ),
            final(self).history@ == old(self).history@,
            final(self).reflog@ == old(self).reflog@,
            final(self).stash@ == old(self).stash@,
            final(self).filter_query@ == old(self).filter_query@,
            final(self).subtab == old(self).subtab,
            final(self).focus == old(self).focus,
            final(self).command_selected == old(self).command_selected,
            final(self).files_selected == old(self).files_selected,
            final(self).status == old(self).status,
            final(self).history_limit == old(self).history_limit,
            final(self).reflog_limit == old(self).reflog_limit,
            final(self).stash_limit == old(self).stash_limit,
            final(self).detail_mode == old(self).detail_mode,
            final(self).files@ == old(self).files@,
            final(self).files_hash == old(self).files_hash,
            final(self).diff_request_id == old(self).diff_request_id,
            final(self).diff_generation == old(self).diff_generation,
            final(self).zoom == old(self).zoom,
            final(self).left_width == old(self).left_width,
            final(self).inspect == old(self).inspect,
            final(self).filter_edit == old(self).filter_edit,
            final(self).diff_scroll_y == old(self).diff_scroll_y,
            final(self).diff_scroll_x == old(self).diff_scroll_x,
    {
        let prev_hist = entry_on_row(&self.history_filtered, self.history_selected);
        let prev_reflog = entry_on_row(&self.reflog_filtered, self.reflog_selected);
        let prev_stash = entry_on_row(&self.stash_filtered, self.stash_selected);
        let parsed = parse_log_filter_query(self.filter_query.as_str());
        let at = lower_each(&parsed.author);
        let rt = lower_each(&parsed.refs);
        let tt = lower_each(&parsed.tokens);
        let ghost t = log_tokens(self.filter_query@);
        assert(strs(at@) == t.author && strs(rt@) == t.refs && strs(tt@) == t.tokens);
        let empty = at.len() == 0 && rt.len() == 0 && tt.len() == 0;
        let mut hs: Vec<Option<i64>> = Vec::new();
        let mut i: usize = 0;
        while i < self.history.len()
            invariant
                i <= self.history.len(),
                strs(at@) == t.author && strs(rt@) == t.refs && strs(tt@) == t.tokens,
                empty == no_tokens(t),
                opt_view(hs@) == commit_scores(self.history@, t).take(i as int),
            decreases self.history.len() - i,
        {
            let e = &self.history[i];
            let s = if empty {
                Some(0i64)
            } else {
                let hay = join_space(&join_space(&e.short, &e.subject), &e.decoration);
                add3(score_text(e.author.as_str(), &at), score_text(e.decoration.as_str(), &rt), score_text(hay.as_str(), &tt))
            };
            let ghost before = hs@;
            hs.push(s);
            assert(opt_view(hs@) == opt_view(before).push(commit_score(self.history@[i as int], t)));
            i = i + 1;
            assert(commit_scores(self.history@, t).take(i as int) == commit_scores(self.history@, t).take(i - 1).push(commit_score(self.history@[i - 1], t)));
        }
        assert(commit_scores(self.history@, t).take(self.history@.len() as int) == commit_scores(self.history@, t));
        let mut rs: Vec<Option<i64>> = Vec::new();
        let mut i: usize = 0;
        while i < self.reflog.len()
            invariant
                i <= self.reflog.len(),
                strs(at@) == t.author && strs(rt@) == t.refs && strs(tt@) == t.tokens,
                empty == no_tokens(t),
                opt_view(rs@) == reflog_scores(self.reflog@, t).take(i as int),
            decreases self.reflog.len() - i,
        {
            let e = &self.reflog[i];
            let s = if empty {
                Some(0i64)
            } else {
                let hay = join_space(&join_space(&e.selector, &e.subject), &e.decoration);
                add3(Some(0), score_text(e.decoration.as_str(), &rt), score_text(hay.as_str(), &tt))
            };
            let ghost before = rs@;
            rs.push(s);
            assert(opt_view(rs@) == opt_view(before).push(reflog_score(self.reflog@[i as int], t)));
            i = i + 1;
            assert(reflog_scores(self.reflog@, t).take(i as int) == reflog_scores(self.reflog@, t).take(i - 1).push(reflog_score(self.reflog@[i - 1], t)));
        }
        assert(reflog_scores(self.reflog@, t).take(self.reflog@.len() as int) == reflog_scores(self.reflog@, t));
        let mut ss: Vec<Option<i64>> = Vec::new();
        let mut i: usize = 0;
        while i < self.stash.len()
            invariant
                i <= self.stash.len(),
                strs(at@) == t.author && strs(rt@) == t.refs && strs(tt@) == t.tokens,
                empty == no_tokens(t),
                opt_view(ss@) == stash_scores(self.stash@, t).take(i as int),
            decreases self.stash.len() - i,
        {
            let e = &self.stash[i];
            let s = if empty {
                Some(0i64)
            } else if at.len() > 0 {
                None
            } else {
                let hay = join_space(&e.selector, &e.subject);
                score_text(hay.as_str(), &tt)
            };
            let ghost before = ss@;
            ss.push(s);
            assert(opt_view(ss@) == opt_view(before).push(stash_score(self.stash@[i as int], t)));
            i = i + 1;
            assert(stash_scores(self.stash@, t).take(i as int) == stash_scores(self.stash@, t).take(i - 1).push(stash_score(self.stash@[i - 1], t)));
        }
        assert(stash_scores(self.stash@, t).take(self.stash@.len() as int) == stash_scores(self.stash@, t));
        self.history_filtered = ranked_by_score(&hs);
        self.reflog_filtered = ranked_by_score(&rs);
        self.stash_filtered = ranked_by_score(&ss);
        self.history_selected = reselect(&self.history_filtered, prev_hist);
        self.reflog_selected = reselect(&self.reflog_filtered, prev_reflog);
        self.stash_selected = reselect(&self.stash_filtered, prev_stash);
    }
}


impl LogUi {
    /// The view as it opens: history first, commits focused, nothing
    /// loaded, 200 entries per list, the list pane 44 columns wide.
    pub fn new() -> (r: LogUi)
        ensures
            r.status is None,
            r.history_ref is None,
            r.subtab == LogSubTab::History,
            r.filter_query@.len() == 0,
            !r.filter_edit,
            r.focus == LogPaneFocus::Commits,
            r.history@.len() == 0,
            r.reflog@.len() == 0,
            r.stash@.len() == 0,
            r.history_filtered@.len() == 0,
            r.reflog_filtered@.len() == 0,
            r.stash_filtered@.len() == 0,
            r.detail_mode == LogDetailMode::Diff,
            r.diff_mode == GitDiffMode::Unified,
            r.zoom == LogZoom::Unzoomed,
            r.diff_lines@.len() == 0,
            r.diff_scroll_y == 0,
            r.diff_scroll_x == 0,
            r.diff_generation == 0,
            r.diff_request_id == 0,
            r.files@.len() == 0,
            r.files_hash is None,
            r.history_limit == 200,
            r.reflog_limit == 200,
            r.stash_limit == 200,
            r.history_selected is None,
            r.reflog_selected is None,
            r.stash_selected is None,
            r.command_selected is None,
            r.left_width == 44,
            !r.inspect.open,
            r.files_selected is None,
    {
        LogUi {
            status: None,
            history_ref: None,
            subtab: LogSubTab::History,
            filter_query: String::new(),
            filter_edit: false,
            focus: LogPaneFocus::Commits,
            history: Vec::new(),
            reflog: Vec::new(),
            stash: Vec::new(),
            history_filtered: Vec::new(),
            reflog_filtered: Vec::new(),
            stash_filtered: Vec::new(),
            detail_mode: LogDetailMode::Diff,
            diff_mode: GitDiffMode::Unified,
            zoom: LogZoom::Unzoomed,
            diff_lines: Vec::new(),
            diff_scroll_y: 0,
            diff_scroll_x: 0,
            diff_generation: 0,
            diff_request_id: 0,
            files: Vec::new(),
            files_hash: None,
            history_limit: 200,
            reflog_limit: 200,
            stash_limit: 200,
            history_selected: None,
            reflog_selected: None,
            stash_selected: None,
            command_selected: None,
            left_width: 44,
            inspect: InspectUi::new(),
            files_selected: None,
        }
    }

    /// Switches to another sub-tab: the commits pane takes the focus, the
    /// diff scrolls back to the top, and the commands list selects its
    /// first row. Switching to the current sub-tab changes nothing.
    pub fn set_subtab(&mut self, subtab: LogSubTab)
        ensures
            old(self).subtab == subtab ==> (final(self).focus == old(self).focus
                && final(self).diff_scroll_y == old(self).diff_scroll_y
                && final(self).diff_scroll_x == old(self).diff_scroll_x
                && final(self).command_selected == old(self).command_selected),
            old(self).subtab != subtab ==> (final(self).focus == LogPaneFocus::Commits
                && final(self).diff_scroll_y == 0 && final(self).diff_scroll_x == 0
                && final(self).command_selected == (if subtab == LogSubTab::Commands {
                Some(0usize)
            } else {
                old(self).command_selected
            })),
            final(self).subtab == subtab,
            final(self).detail_mode == old(self).detail_mode,
            final(self).history_selected == old(self).history_selected,
            final(self).reflog_selected == old(self).reflog_selected,
            final(self).stash_selected == old(self).stash_selected,
            final(self).files_selected == old(self).files_selected,
            final(self).inspect == old(self).inspect,
            final(self).zoom == old(self).zoom,
            final(self).history@ == old(self).history@,
            final(self).reflog@ == old(self).reflog@,
            final(self).stash@ == old(self).stash@,
            final(self).history_filtered@ == old(self).history_filtered@,
            final(self).reflog_filtered@ == old(self).reflog_filtered@,
            final(self).stash_filtered@ == old(self).stash_filtered@,
            final(self).filter_query@ == old(self).filter_query@,
            final(self).files@ == old(self).files@,
    {
        if self.subtab == subtab {
            return;
        }
        self.subtab = subtab;
        self.focus = LogPaneFocus::Commits;
        self.diff_scroll_y = 0;
        self.diff_scroll_x = 0;
        match self.subtab {
            LogSubTab::Commands => {
                self.command_selected = Some(0);
            },
            _ => {},
        }
    }

    /// Switches the detail pane between the diff and the file list: the
    /// diff scrolls back to the top; the files pane takes the focus when
    /// showing the files of a commit, the diff pane when showing a diff;
    /// leaving the file list forgets its files. Choosing the current mode
    /// changes nothing.
    pub fn set_detail_mode(&mut self, mode: LogDetailMode)
        ensures
            old(self).detail_mode == mode ==> (final(self).focus == old(self).focus
                && final(self).diff_scroll_y == old(self).diff_scroll_y
                && final(self).files@ == old(self).files@
                && final(self).files_hash == old(self).files_hash
                && final(self).files_selected == old(self).files_selected),
            old(self).detail_mode != mode ==> {
                &&& final(self).diff_scroll_y == 0
                &&& final(self).diff_scroll_x == 0
                &&& final(self).focus == (match mode {
                    LogDetailMode::Files => if old(self).subtab == LogSubTab::History {
                        LogPaneFocus::Files
                    } else {
                        old(self).focus
                    },
                    LogDetailMode::Diff => LogPaneFocus::Diff,
                })
                &&& mode != LogDetailMode::Files ==> final(self).files@.len() == 0
                    && final(self).files_hash is None && final(self).files_selected is None
                &&& mode == LogDetailMode::Files ==> final(self).files@ == old(self).files@
                    && final(self).files_hash == old(self).files_hash
                    && final(self).files_selected == old(self).files_selected
            },
            final(self).detail_mode == mode,
            final(self).subtab == old(self).subtab,
    {
        if self.detail_mode == mode {
            return;
        }
        self.detail_mode = mode;
        self.diff_scroll_y = 0;
        self.diff_scroll_x = 0;
        match mode {
            LogDetailMode::Files => {
                if self.subtab == LogSubTab::History {
                    self.focus = LogPaneFocus::Files;
                }
            },
            LogDetailMode::Diff => {
                self.focus = LogPaneFocus::Diff;
            },
        }
        if mode != LogDetailMode::Files {
            self.files = Vec::new();
            self.files_hash = None;
            self.files_selected = None;
        }
    }

    /// Opens the inspect pop-up on `title` and `body`, at its top.
    pub fn open_inspect(&mut self, title: String, body: String)
        ensures
            final(self).inspect.open,
            final(self).inspect.scroll_y == 0,
            final(self).inspect.title@ == title@,
            final(self).inspect.body@ == body@,
            final(self).subtab == old(self).subtab,
            final(self).history_selected == old(self).history_selected,
    {
        self.inspect.open = true;
        self.inspect.scroll_y = 0;
        self.inspect.title = title;
        self.inspect.body = body;
    }

    /// The selected row of the current sub-tab's list.
    pub fn active_selection(&self) -> (r: Option<usize>)
        ensures
            r == match self.subtab {
                LogSubTab::History => self.history_selected,
                LogSubTab::Reflog => self.reflog_selected,
                LogSubTab::Stash => self.stash_selected,
                LogSubTab::Commands => self.command_selected,
            },
    {
        match self.subtab {
            LogSubTab::History => self.history_selected,
            LogSubTab::Reflog => self.reflog_selected,
            LogSubTab::Stash => self.stash_selected,
            LogSubTab::Commands => self.command_selected,
        }
    }

    /// Selects row `sel` of the current sub-tab's list.
    pub fn select_active(&mut self, sel: Option<usize>)
        ensures
            final(self).history_selected == (if old(self).subtab == LogSubTab::History {
                sel
            } else {
                old(self).history_selected
            }),
            final(self).reflog_selected == (if old(self).subtab == LogSubTab::Reflog {
                sel
            } else {
                old(self).reflog_selected
            }),
            final(self).stash_selected == (if old(self).subtab == LogSubTab::Stash {
                sel
            } else {
                old(self).stash_selected
            }),
            final(self).command_selected == (if old(self).subtab == LogSubTab::Commands {
                sel
            } else {
                old(self).command_selected
            }),
            final(self).subtab == old(self).subtab,
            final(self).focus == old(self).focus,
            final(self).diff_scroll_y == old(self).diff_scroll_y,
            final(self).diff_scroll_x == old(self).diff_scroll_x,
            final(self).zoom == old(self).zoom,
            final(self).detail_mode == old(self).detail_mode,
            final(self).files@ == old(self).files@,
            final(self).files_selected == old(self).files_selected,
            final(self).history_filtered@ == old(self).history_filtered@,
            final(self).reflog_filtered@ == old(self).reflog_filtered@,
            final(self).stash_filtered@ == old(self).stash_filtered@,
            final(self).inspect == old(self).inspect,
    {
        match self.subtab {
            LogSubTab::History => self.history_selected = sel,
            LogSubTab::Reflog => self.reflog_selected = sel,
            LogSubTab::Stash => self.stash_selected = sel,
            LogSubTab::Commands => self.command_selected = sel,
        }
    }
}


/// Without filter tokens the log lists every commit, reflog entry and
/// stash, each list in its own order.
pub proof fn law_empty_filter_lists_everything(
    history: Seq<CommitEntry>,
    reflog: Seq<ReflogEntry>,
    stash: Seq<StashEntry>,
    t: LogTokens,
)
    requires
        no_tokens(t),
        history.len() <= usize::MAX,
        reflog.len() <= usize::MAX,
        stash.len() <= usize::MAX,
    ensures
        rank_scores(commit_scores(history, t)) == Seq::new(history.len(), |i: int| i as usize),
        rank_scores(reflog_scores(reflog, t)) == Seq::new(reflog.len(), |i: int| i as usize),
        rank_scores(stash_scores(stash, t)) == Seq::new(stash.len(), |i: int| i as usize),
{
    crate::ranking::law_equal_scores_keep_order(commit_scores(history, t));
    crate::ranking::law_equal_scores_keep_order(reflog_scores(reflog, t));
    crate::ranking::law_equal_scores_keep_order(stash_scores(stash, t));
}


// ---------------------------------------------------------------------------
// The detail pane and the results of background loads
// ---------------------------------------------------------------------------

/// A counter stepped on, wrapping to 0 after the largest value.
pub open spec fn stepped(x: u64) -> u64 {
    if x == u64::MAX {
        0
    } else {
        (x + 1) as u64
    }
}

fn step_counter(x: u64) -> (r: u64)
    ensures
        r == stepped(x),
{
    if x == u64::MAX {
        0
    } else {
        x + 1
    }
}

/// What a detail load found: the lines to show, and for a commit's file
/// list the files, the commit they are of, and the file shown.
pub struct LogDiffOutput {
    pub diff_lines: Vec<String>,
    pub files_hash: Option<String>,
    pub files: Option<Vec<CommitFileChange>>,
    pub files_selected: Option<usize>,
}

/// The detail lines of a commit's diff: its lines, or `(no diff)` when it
/// is blank.
pub open spec fn diff_text_lines(text: Seq<char>) -> Seq<Seq<char>> {
    if crate::text::trim(text).len() == 0 {
        seq!["(no diff)"@]
    } else {
        crate::text::lines_of(text)
    }
}

/// The detail lines of a commit's diff (see `diff_text_lines`).
pub fn commit_diff_lines(text: &str) -> (r: Vec<String>)
    ensures
        strs(r@) == diff_text_lines(text@),
{
    let t = crate::text::trim_string(text);
    let mut out: Vec<String> = Vec::new();
    if t.as_str().is_empty() {
        out.push("(no diff)".to_owned());
        assert(strs(out@) =~= seq!["(no diff)"@]);
        return out;
    }
    let lines = crate::text::lines_vec(text);
    let ghost ls = crate::text::lines_of(text@);
    let mut i: usize = 0;
    assert(strs(out@) == ls.take(0));
    while i < lines.len()
        invariant
            i <= lines.len(),
            lines@.map_values(|x: Vec<char>| x@) == ls,
            strs(out@) == ls.take(i as int),
        decreases lines.len() - i,
    {
        let ghost before = strs(out@);
        out.push(crate::text::string_of(&lines[i]));
        assert(strs(out@) == before.push(ls[i as int]));
        assert(ls.take(i + 1) == ls.take(i as int).push(ls[i as int]));
        i = i + 1;
    }
    assert(ls.take(ls.len() as int) == ls);
    out
}

/// The first index from `k` on of a file with path `want`.
pub open spec fn file_index_from(files: Seq<CommitFileChange>, want: Seq<char>, k: nat) -> Option<nat>
    decreases files.len() - k,
{
    if k >= files.len() {
        None
    } else if files[k as int].path@ == want {
        Some(k)
    } else {
        file_index_from(files, want, k + 1)
    }
}

/// The file of a commit to show: the one that was shown before, when the
/// commit still has it, else the first.
pub fn file_to_show(files: &Vec<CommitFileChange>, wanted: Option<&str>) -> (r: usize)
    ensures
        r == match wanted {
            Some(w) => match file_index_from(files@, w@, 0) {
                Some(i) => i,
                None => 0,
            },
            None => 0,
        },
{
    match wanted {
        None => 0,
        Some(w) => {
            let mut i: usize = 0;
            while i < files.len()
                invariant
                    i <= files.len(),
                    wanted == Some(w),
                    file_index_from(files@, w@, 0) == file_index_from(files@, w@, i as nat),
                decreases files.len() - i,
            {
                if crate::text::str_eq(files[i].path.as_str(), w) {
                    return i;
                }
                i = i + 1;
            }
            0
        },
    }
}

/// The detail lines of a stash: its selector, its subject and the keys
/// that act on it.
pub fn stash_detail_lines(e: &StashEntry) -> (r: Vec<String>)
    ensures
        strs(r@) == seq![
            e.selector@,
            Seq::<char>::empty(),
            e.subject@,
            Seq::<char>::empty(),
            "Keys: a/apply  p/pop  d/drop  Enter=apply"@,
        ],
{
    let r = vec![
        e.selector.clone(),
        String::new(),
        e.subject.clone(),
        String::new(),
        "Keys: a/apply  p/pop  d/drop  Enter=apply".to_owned(),
    ];
    assert(strs(r@) =~= seq![
        e.selector@,
        Seq::<char>::empty(),
        e.subject@,
        Seq::<char>::empty(),
        "Keys: a/apply  p/pop  d/drop  Enter=apply"@,
    ]);
    r
}

/// The detail lines of a command that was run: the command, whether it
/// succeeded, a blank line, then its output's lines (or `(no output)`).
pub open spec fn command_lines(cmd: Seq<char>, ok: bool, detail: Option<Seq<char>>) -> Seq<Seq<char>> {
    seq![
        "Command: "@ + cmd,
        "Result: "@ + (if ok {
            "OK"@
        } else {
            "Error"@
        }),
        Seq::<char>::empty(),
    ] + match detail {
        Some(d) => if crate::text::trim(d).len() == 0 {
            seq!["(no output)"@]
        } else {
            crate::text::lines_of(d)
        },
        None => seq!["(no output)"@],
    }
}

/// The detail lines of a command that was run (see `command_lines`).
pub fn command_detail_lines(cmd: &str, ok: bool, detail: Option<&str>) -> (r: Vec<String>)
    ensures
        strs(r@) == command_lines(
            cmd@,
            ok,
            match detail {
                Some(d) => Some(d@),
                None => None,
            },
        ),
{
    let mut first = "Command: ".to_owned();
    crate::text::push_str(&mut first, cmd);
    let second = if ok {
        "Result: OK".to_owned()
    } else {
        "Result: Error".to_owned()
    };
    proof {
        reveal_strlit("Result: OK");
        reveal_strlit("Result: Error");
        reveal_strlit("Result: ");
        reveal_strlit("OK");
        reveal_strlit("Error");
        assert("Result: OK"@ =~= "Result: "@ + "OK"@);
        assert("Result: Error"@ =~= "Result: "@ + "Error"@);
    }
    let mut out: Vec<String> = vec![first, second, String::new()];
    let ghost head = strs(out@);
    let rest: Vec<String> = match detail {
        Some(d) => commit_output_lines(d),
        None => {
            let v = vec!["(no output)".to_owned()];
            assert(strs(v@) =~= seq!["(no output)"@]);
            v
        },
    };
    let mut i: usize = 0;
    while i < rest.len()
        invariant
            i <= rest.len(),
            strs(out@) == head + strs(rest@).take(i as int),
        decreases rest.len() - i,
    {
        let ghost before = strs(out@);
        out.push(rest[i].clone());
        assert(strs(out@) == before.push(rest@[i as int]@));
        assert(strs(rest@).take(i + 1) == strs(rest@).take(i as int).push(rest@[i as int]@));
        i = i + 1;
    }
    assert(strs(rest@).take(rest@.len() as int) == strs(rest@));
    out
}

/// A command's output as lines: `(no output)` when it is blank.
fn commit_output_lines(d: &str) -> (r: Vec<String>)
    ensures
        strs(r@) == (if crate::text::trim(d@).len() == 0 {
            seq!["(no output)"@]
        } else {
            crate::text::lines_of(d@)
        }),
{
    let t = crate::text::trim_string(d);
    if t.as_str().is_empty() {
        let v = vec!["(no output)".to_owned()];
        assert(strs(v@) =~= seq!["(no output)"@]);
        return v;
    }
    let lines = crate::text::lines_vec(d);
    let ghost ls = crate::text::lines_of(d@);
    let mut out: Vec<String> = Vec::new();
    let mut i: usize = 0;
    assert(strs(out@) == ls.take(0));
    while i < lines.len()
        invariant
            i <= lines.len(),
            lines@.map_values(|x: Vec<char>| x@) == ls,
            strs(out@) == ls.take(i as int),
        decreases lines.len() - i,
    {
        let ghost before = strs(out@);
        out.push(crate::text::string_of(&lines[i]));
        assert(strs(out@) == before.push(ls[i as int]));
        assert(ls.take(i + 1) == ls.take(i as int).push(ls[i as int]));
        i = i + 1;
    }
    assert(ls.take(ls.len() as int) == ls);
    out
}

/// A list as a load left it: its entries, or nothing after a failure.
pub open spec fn loaded<T>(r: Result<Vec<T>, String>) -> Seq<T> {
    match r {
        Ok(v) => v@,
        Err(_) => Seq::empty(),
    }
}

/// The first failure among three loads, in order.
pub open spec fn first_failure<A, B, C>(
    a: Result<Vec<A>, String>,
    b: Result<Vec<B>, String>,
    c: Result<Vec<C>, String>,
) -> Option<Seq<char>> {
    match (a, b, c) {
        (Err(e), _, _) => Some(e@),
        (_, Err(e), _) => Some(e@),
        (_, _, Err(e)) => Some(e@),
        _ => None,
    }
}

impl LogUi {
    /// Starts loading the detail pane: a new request (older results are
    /// then ignored), the diff scrolled to the top and a loading line
    /// shown.
    pub fn begin_detail(&mut self) -> (r: u64)
        ensures
            r == final(self).diff_request_id,
            final(self).diff_request_id == stepped(old(self).diff_request_id),
            final(self).diff_generation == stepped(old(self).diff_generation),
            final(self).diff_scroll_y == 0 && final(self).diff_scroll_x == 0,
            strs(final(self).diff_lines@) == seq!["Loading diff…"@],
            final(self).subtab == old(self).subtab,
            final(self).detail_mode == old(self).detail_mode,
            final(self).history@ == old(self).history@,
            final(self).history_filtered@ == old(self).history_filtered@,
            final(self).history_selected == old(self).history_selected,
            final(self).files@ == old(self).files@,
            final(self).files_hash == old(self).files_hash,
            final(self).files_selected == old(self).files_selected,
    {
        self.diff_request_id = step_counter(self.diff_request_id);
        self.diff_scroll_y = 0;
        self.diff_scroll_x = 0;
        let v = vec!["Loading diff…".to_owned()];
        assert(strs(v@) =~= seq!["Loading diff…"@]);
        self.diff_lines = v;
        self.diff_generation = step_counter(self.diff_generation);
        self.diff_request_id
    }

    /// Shows `lines` in the detail pane.
    pub fn show_detail(&mut self, lines: Vec<String>)
        ensures
            final(self).diff_lines@ == lines@,
            final(self).diff_generation == stepped(old(self).diff_generation),
            final(self).diff_request_id == old(self).diff_request_id,
            final(self).files@ == old(self).files@,
    {
        self.diff_lines = lines;
        self.diff_generation = step_counter(self.diff_generation);
    }

    /// The path of the file of commit `hash` shown before in the file list,
    /// when the file list of that commit is shown.
    pub fn wanted_file(&self, hash: &str) -> (r: Option<String>)
        ensures
            match r {
                Some(p) => self.detail_mode == LogDetailMode::Files && (self.files_hash matches Some(
                    h,
                ) && h@ == hash@) && (self.files_selected matches Some(i) && i < self.files@.len()
                    && p@ == self.files@[i as int].path@),
                None => !(self.detail_mode == LogDetailMode::Files && (self.files_hash matches Some(
                    h,
                ) && h@ == hash@) && (self.files_selected matches Some(i) && i
                    < self.files@.len())),
            },
    {
        if self.detail_mode != LogDetailMode::Files {
            return None;
        }
        let same = match &self.files_hash {
            Some(h) => crate::text::str_eq(h.as_str(), hash),
            None => false,
        };
        if !same {
            return None;
        }
        match self.files_selected {
            Some(i) => if i < self.files.len() {
                Some(self.files[i].path.clone())
            } else {
                None
            },
            None => None,
        }
    }

    /// Takes the result of detail load `request_id`: a result of an older
    /// request is ignored; the lines (or the failure) are shown, and a file
    /// list comes with its commit and the file shown (the first when none
    /// is named).
    pub fn apply_detail(&mut self, request_id: u64, result: Result<LogDiffOutput, String>) -> (r: bool)
        ensures
            r == (request_id == old(self).diff_request_id),
            !r ==> final(self).diff_lines@ == old(self).diff_lines@ && final(self).diff_generation
                == old(self).diff_generation && final(self).files@ == old(self).files@,
            r ==> final(self).diff_generation == stepped(old(self).diff_generation),
            r ==> match result {
                Ok(out) => final(self).diff_lines@ == out.diff_lines@ && match out.files {
                    Some(fs) => final(self).files@ == fs@ && final(self).files_hash == out.files_hash
                        && final(self).files_selected == (match out.files_selected {
                        Some(i) => Some(i),
                        None => Some(0usize),
                    }),
                    None => final(self).files@ == old(self).files@ && final(self).files_hash
                        == old(self).files_hash && final(self).files_selected
                        == old(self).files_selected,
                },
                Err(e) => strs(final(self).diff_lines@) == seq![e@] && final(self).files@ == old(
                    self,
                ).files@,
            },
            final(self).diff_request_id == old(self).diff_request_id,
    {
        if request_id != self.diff_request_id {
            return false;
        }
        match result {
            Ok(out) => {
                self.diff_lines = out.diff_lines;
                match out.files {
                    Some(fs) => {
                        self.files = fs;
                        self.files_hash = out.files_hash;
                        self.files_selected = match out.files_selected {
                            Some(i) => Some(i),
                            None => Some(0),
                        };
                    },
                    None => {},
                }
            },
            Err(e) => {
                let ghost ev = e@;
                let v = vec![e];
                assert(strs(v@) =~= seq![ev]);
                self.diff_lines = v;
            },
        }
        self.diff_generation = step_counter(self.diff_generation);
        true
    }

    /// Takes a reload of the three lists: each list is what its load found
    /// (empty after a failure), the status is the first failure, and the
    /// lists are filtered again (see `update_filtered`).
    pub fn apply_reload(
        &mut self,
        history_limit: usize,
        reflog_limit: usize,
        stash_limit: usize,
        history: Result<Vec<CommitEntry>, String>,
        reflog: Result<Vec<ReflogEntry>, String>,
        stash: Result<Vec<StashEntry>, String>,
    )
        ensures
            final(self).history_limit == history_limit,
            final(self).reflog_limit == reflog_limit,
            final(self).stash_limit == stash_limit,
            final(self).history@ == loaded(history),
            final(self).reflog@ == loaded(reflog),
            final(self).stash@ == loaded(stash),
            (match final(self).status {
                Some(s) => Some(s@),
                None => None,
            }) == first_failure(history, reflog, stash),
            final(self).history_filtered@ == rank_scores(
                commit_scores(loaded(history), log_tokens(old(self).filter_query@)),
            ),
            final(self).reflog_filtered@ == rank_scores(
                reflog_scores(loaded(reflog), log_tokens(old(self).filter_query@)),
            ),
            final(self).stash_filtered@ == rank_scores(
                stash_scores(loaded(stash), log_tokens(old(self).filter_query@)),
            ),
            final(self).history_selected == keep_selection(
                final(self).history_filtered@,
                entry_at(old(self).history_filtered@, old(self).history_selected),
            ),
            final(self).reflog_selected == keep_selection(
                final(self).reflog_filtered@,
                entry_at(old(self).reflog_filtered@, old(self).reflog_selected),
            ),
            final(self).stash_selected == keep_selection(
                final(self).stash_filtered@,
                entry_at(old(self).stash_filtered@, old(self).stash_selected),
            ),
            final(self).filter_query@ == old(self).filter_query@,
            final(self).subtab == old(self).subtab,
    {
        self.history_limit = history_limit;
        self.reflog_limit = reflog_limit;
        self.stash_limit = stash_limit;
        let mut first: Option<String> = None;
        match history {
            Ok(items) => self.history = items,
            Err(e) => {
                first = Some(e);
                self.history = Vec::new();
            },
        }
        match reflog {
            Ok(items) => self.reflog = items,
            Err(e) => {
                if first.is_none() {
                    first = Some(e);
                }
                self.reflog = Vec::new();
            },
        }
        match stash {
            Ok(items) => self.stash = items,
            Err(e) => {
                if first.is_none() {
                    first = Some(e);
                }
                self.stash = Vec::new();
            },
        }
        self.status = first;
        self.update_filtered();
    }

    /// Takes a reload of the history alone: its entries (the status is the
    /// failure, if any, and the entries stay), then filters again.
    pub fn apply_history(&mut self, limit: usize, result: Result<Vec<CommitEntry>, String>)
        ensures
            final(self).history_limit == limit,
            final(self).history@ == match result {
                Ok(v) => v@,
                Err(_) => old(self).history@,
            },
            (match final(self).status {
                Some(s) => Some(s@),
                None => None,
            }) == match result {
                Ok(_) => None,
                Err(e) => Some(e@),
            },
            final(self).history_filtered@ == rank_scores(
                commit_scores(final(self).history@, log_tokens(old(self).filter_query@)),
            ),
            final(self).reflog@ == old(self).reflog@,
            final(self).stash@ == old(self).stash@,
            final(self).reflog_filtered@ == rank_scores(
                reflog_scores(old(self).reflog@, log_tokens(old(self).filter_query@)),
            ),
            final(self).stash_filtered@ == rank_scores(
                stash_scores(old(self).stash@, log_tokens(old(self).filter_query@)),
            ),
            final(self).history_selected == keep_selection(
                final(self).history_filtered@,
                entry_at(old(self).history_filtered@, old(self).history_selected),
            ),
            final(self).reflog_selected == keep_selection(
                final(self).reflog_filtered@,
                entry_at(old(self).reflog_filtered@, old(self).reflog_selected),
            ),
            final(self).stash_selected == keep_selection(
                final(self).stash_filtered@,
                entry_at(old(self).stash_filtered@, old(self).stash_selected),
            ),
            final(self).filter_query@ == old(self).filter_query@,
    {
        self.status = None;
        self.history_limit = limit;
        match result {
            Ok(items) => self.history = items,
            Err(e) => self.status = Some(e),
        }
        self.update_filtered();
    }

    /// Takes a reload of the reflog alone (see `apply_history`).
    pub fn apply_reflog(&mut self, limit: usize, result: Result<Vec<ReflogEntry>, String>)
        ensures
            final(self).reflog_limit == limit,
            final(self).reflog@ == match result {
                Ok(v) => v@,
                Err(_) => old(self).reflog@,
            },
            (match final(self).status {
                Some(s) => Some(s@),
                None => None,
            }) == match result {
                Ok(_) => None,
                Err(e) => Some(e@),
            },
            final(self).reflog_filtered@ == rank_scores(
                reflog_scores(final(self).reflog@, log_tokens(old(self).filter_query@)),
            ),
            final(self).history@ == old(self).history@,
            final(self).stash@ == old(self).stash@,
            final(self).history_filtered@ == rank_scores(
                commit_scores(old(self).history@, log_tokens(old(self).filter_query@)),
            ),
            final(self).stash_filtered@ == rank_scores(
                stash_scores(old(self).stash@, log_tokens(old(self).filter_query@)),
            ),
            final(self).history_selected == keep_selection(
                final(self).history_filtered@,
                entry_at(old(self).history_filtered@, old(self).history_selected),
            ),
            final(self).reflog_selected == keep_selection(
                final(self).reflog_filtered@,
                entry_at(old(self).reflog_filtered@, old(self).reflog_selected),
            ),
            final(self).stash_selected == keep_selection(
                final(self).stash_filtered@,
                entry_at(old(self).stash_filtered@, old(self).stash_selected),
            ),
            final(self).filter_query@ == old(self).filter_query@,
    {
        self.status = None;
        self.reflog_limit = limit;
        match result {
            Ok(items) => self.reflog = items,
            Err(e) => self.status = Some(e),
        }
        self.update_filtered();
    }

    /// Takes a reload of the stashes alone (see `apply_history`).
    pub fn apply_stash(&mut self, limit: usize, result: Result<Vec<StashEntry>, String>)
        ensures
            final(self).stash_limit == limit,
            final(self).stash@ == match result {
                Ok(v) => v@,
                Err(_) => old(self).stash@,
            },
            (match final(self).status {
                Some(s) => Some(s@),
                None => None,
            }) == match result {
                Ok(_) => None,
                Err(e) => Some(e@),
            },
            final(self).stash_filtered@ == rank_scores(
                stash_scores(final(self).stash@, log_tokens(old(self).filter_query@)),
            ),
            final(self).history@ == old(self).history@,
            final(self).reflog@ == old(self).reflog@,
            final(self).history_filtered@ == rank_scores(
                commit_scores(old(self).history@, log_tokens(old(self).filter_query@)),
            ),
            final(self).reflog_filtered@ == rank_scores(
                reflog_scores(old(self).reflog@, log_tokens(old(self).filter_query@)),
            ),
            final(self).history_selected == keep_selection(
                final(self).history_filtered@,
                entry_at(old(self).history_filtered@, old(self).history_selected),
            ),
            final(self).reflog_selected == keep_selection(
                final(self).reflog_filtered@,
                entry_at(old(self).reflog_filtered@, old(self).reflog_selected),
            ),
            final(self).stash_selected == keep_selection(
                final(self).stash_filtered@,
                entry_at(old(self).stash_filtered@, old(self).stash_selected),
            ),
            final(self).filter_query@ == old(self).filter_query@,
    {
        self.status = None;
        self.stash_limit = limit;
        match result {
            Ok(items) => self.stash = items,
            Err(e) => self.status = Some(e),
        }
        self.update_filtered();
    }
}

} // verus!
