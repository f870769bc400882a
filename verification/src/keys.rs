//! What a key press does in the git and log tabs: a key, with the state
//! that decides among its meanings, comes to a command that the caller
//! carries out.
use vstd::prelude::*;
use crate::log_view::{LogPaneFocus, LogSubTab, LogUi};
use crate::pickers::StashConfirmAction;
use crate::text::{push_str, trim};

verus! {

broadcast use vstd::string::group_string_axioms;

/// A key, as the terminal reports it.
#[derive(Clone, Copy, Debug, PartialEq, Eq, Structural)]
pub enum KeyCode {
    Char(char),
    Enter,
    Esc,
    Backspace,
    Tab,
    BackTab,
    Left,
    Right,
    Up,
    Down,
    Home,
    End,
    PageUp,
    PageDown,
    Delete,
    /// Any other key.
    Other,
}

/// A key press and the modifiers held.
#[derive(Clone, Copy, Debug, PartialEq, Eq, Structural)]
pub struct Key {
    pub code: KeyCode,
    pub ctrl: bool,
    pub shift: bool,
    pub alt: bool,
}

pub open spec fn is_char(k: Key, c: char) -> bool {
    k.code == KeyCode::Char(c)
}

// ---------------------------------------------------------------------------
// The git tab
// ---------------------------------------------------------------------------

/// What a key does in the git tab.
#[derive(Clone, Copy, Debug, PartialEq, Eq, Structural)]
pub enum GitKeyCommand {
    /// Discard what the confirmation lists.
    ConfirmDiscard,
    /// Drop the discard confirmation.
    CancelDiscard,
    /// The stash picker handles the key.
    StashPicker,
    /// The commit editor handles the key.
    CommitEditor,
    ToggleStage,
    StageAllVisible,
    UnstageAllVisible,
    SelectAll,
    Undo,
    Redo,
    Refresh,
    AddToGitignore,
    ToggleWrap,
    ToggleHighlight,
    ToggleFullFile,
    OpenBranchPicker,
    /// Ask whether to stash the changes.
    QuickStash,
    /// Start typing a new branch's name.
    NewBranch,
    /// Open the commit editor on its message.
    OpenCommit,
    NextConflictBlock,
    PrevConflictBlock,
    UseOurs,
    UseTheirs,
    UseBoth,
    MarkResolved,
    ToggleDiffMode,
    NarrowList,
    WidenList,
    /// Collapse the selected section or directory.
    Collapse,
    /// Expand the selected section or directory.
    Expand,
    /// Scroll the diff by this many columns.
    ScrollX(i32),
    MoveDown,
    MoveUp,
    GotoFirst,
    GotoLast,
    ToggleExpand,
    Nothing,
}

/// What `k` does in the git tab: a discard confirmation takes `y` or `n`;
/// an open stash picker or commit editor takes every key; on a conflict
/// `n`, `p`, `o`, `t`, `b` and `a` work on its blocks; the arrows fold a
/// selected section or directory, else scroll the diff.
pub open spec fn git_key_spec(
    k: Key,
    discard_confirm: bool,
    stash_open: bool,
    commit_open: bool,
    on_conflict: bool,
    on_folder: bool,
) -> GitKeyCommand {
    if discard_confirm {
        if is_char(k, 'y') || is_char(k, 'Y') {
            GitKeyCommand::ConfirmDiscard
        } else if is_char(k, 'n') || is_char(k, 'N') {
            GitKeyCommand::CancelDiscard
        } else {
            GitKeyCommand::Nothing
        }
    } else if stash_open {
        GitKeyCommand::StashPicker
    } else if commit_open {
        GitKeyCommand::CommitEditor
    } else if is_char(k, ' ') {
        GitKeyCommand::ToggleStage
    } else if is_char(k, 'A') {
        GitKeyCommand::StageAllVisible
    } else if is_char(k, 'U') {
        GitKeyCommand::UnstageAllVisible
    } else if is_char(k, 'a') && k.ctrl {
        GitKeyCommand::SelectAll
    } else if is_char(k, 'z') && k.ctrl && !k.shift {
        GitKeyCommand::Undo
    } else if (is_char(k, 'z') || is_char(k, 'Z')) && k.ctrl && k.shift {
        GitKeyCommand::Redo
    } else if is_char(k, 'y') && k.ctrl {
        GitKeyCommand::Redo
    } else if is_char(k, 'r') {
        GitKeyCommand::Refresh
    } else if is_char(k, 'i') {
        GitKeyCommand::AddToGitignore
    } else if is_char(k, 'w') {
        GitKeyCommand::ToggleWrap
    } else if is_char(k, 'H') {
        GitKeyCommand::ToggleHighlight
    } else if is_char(k, 'F') {
        GitKeyCommand::ToggleFullFile
    } else if is_char(k, 'B') {
        GitKeyCommand::OpenBranchPicker
    } else if is_char(k, 'z') {
        GitKeyCommand::QuickStash
    } else if is_char(k, 'N') {
        GitKeyCommand::NewBranch
    } else if is_char(k, 'c') {
        GitKeyCommand::OpenCommit
    } else if is_char(k, 'n') && on_conflict {
        GitKeyCommand::NextConflictBlock
    } else if is_char(k, 'p') && on_conflict {
        GitKeyCommand::PrevConflictBlock
    } else if is_char(k, 'o') && on_conflict {
        GitKeyCommand::UseOurs
    } else if is_char(k, 't') && on_conflict {
        GitKeyCommand::UseTheirs
    } else if is_char(k, 'b') && on_conflict {
        GitKeyCommand::UseBoth
    } else if is_char(k, 'a') && on_conflict {
        GitKeyCommand::MarkResolved
    } else if is_char(k, 's') {
        GitKeyCommand::ToggleDiffMode
    } else if is_char(k, '[') {
        GitKeyCommand::NarrowList
    } else if is_char(k, ']') {
        GitKeyCommand::WidenList
    } else if k.code == KeyCode::Left {
        if on_folder {
            GitKeyCommand::Collapse
        } else {
            GitKeyCommand::ScrollX(-4i32)
        }
    } else if k.code == KeyCode::Right {
        if on_folder {
            GitKeyCommand::Expand
        } else {
            GitKeyCommand::ScrollX(4i32)
        }
    } else if is_char(k, 'j') || k.code == KeyCode::Down {
        GitKeyCommand::MoveDown
    } else if is_char(k, 'k') || k.code == KeyCode::Up {
        GitKeyCommand::MoveUp
    } else if is_char(k, 'g') {
        GitKeyCommand::GotoFirst
    } else if is_char(k, 'G') {
        GitKeyCommand::GotoLast
    } else if k.code == KeyCode::Enter {
        GitKeyCommand::ToggleExpand
    } else {
        GitKeyCommand::Nothing
    }
}

/// What `k` does in the git tab (see `git_key_spec`): `on_conflict` says
/// whether the selected file is a conflict, `on_folder` whether the
/// selected row is a section or a directory.
pub fn git_key_command(
    k: Key,
    discard_confirm: bool,
    stash_open: bool,
    commit_open: bool,
    on_conflict: bool,
    on_folder: bool,
) -> (r: GitKeyCommand)
    ensures
        r == git_key_spec(k, discard_confirm, stash_open, commit_open, on_conflict, on_folder),
{
    if discard_confirm {
        return match k.code {
            KeyCode::Char('y') | KeyCode::Char('Y') => GitKeyCommand::ConfirmDiscard,
            KeyCode::Char('n') | KeyCode::Char('N') => GitKeyCommand::CancelDiscard,
            _ => GitKeyCommand::Nothing,
        };
    }
    if stash_open {
        return GitKeyCommand::StashPicker;
    }
    if commit_open {
        return GitKeyCommand::CommitEditor;
    }
    match k.code {
        KeyCode::Char(' ') => GitKeyCommand::ToggleStage,
        KeyCode::Char('A') => GitKeyCommand::StageAllVisible,
        KeyCode::Char('U') => GitKeyCommand::UnstageAllVisible,
        KeyCode::Char('a') if k.ctrl => GitKeyCommand::SelectAll,
        KeyCode::Char('z') if k.ctrl && !k.shift => GitKeyCommand::Undo,
        KeyCode::Char('z') if k.ctrl && k.shift => GitKeyCommand::Redo,
        KeyCode::Char('Z') if k.ctrl && k.shift => GitKeyCommand::Redo,
        KeyCode::Char('y') if k.ctrl => GitKeyCommand::Redo,
        KeyCode::Char('r') => GitKeyCommand::Refresh,
        KeyCode::Char('i') => GitKeyCommand::AddToGitignore,
        KeyCode::Char('w') => GitKeyCommand::ToggleWrap,
        KeyCode::Char('H') => GitKeyCommand::ToggleHighlight,
        KeyCode::Char('F') => GitKeyCommand::ToggleFullFile,
        KeyCode::Char('B') => GitKeyCommand::OpenBranchPicker,
        KeyCode::Char('z') => GitKeyCommand::QuickStash,
        KeyCode::Char('N') => GitKeyCommand::NewBranch,
        KeyCode::Char('c') => GitKeyCommand::OpenCommit,
        KeyCode::Char('n') if on_conflict => GitKeyCommand::NextConflictBlock,
        KeyCode::Char('p') if on_conflict => GitKeyCommand::PrevConflictBlock,
        KeyCode::Char('o') if on_conflict => GitKeyCommand::UseOurs,
        KeyCode::Char('t') if on_conflict => GitKeyCommand::UseTheirs,
        KeyCode::Char('b') if on_conflict => GitKeyCommand::UseBoth,
        KeyCode::Char('a') if on_conflict => GitKeyCommand::MarkResolved,
        KeyCode::Char('s') => GitKeyCommand::ToggleDiffMode,
        KeyCode::Char('[') => GitKeyCommand::NarrowList,
        KeyCode::Char(']') => GitKeyCommand::WidenList,
        KeyCode::Left => if on_folder {
            GitKeyCommand::Collapse
        } else {
            GitKeyCommand::ScrollX(-4)
        },
        KeyCode::Right => if on_folder {
            GitKeyCommand::Expand
        } else {
            GitKeyCommand::ScrollX(4)
        },
        KeyCode::Char('j') | KeyCode::Down => GitKeyCommand::MoveDown,
        KeyCode::Char('k') | KeyCode::Up => GitKeyCommand::MoveUp,
        KeyCode::Char('g') => GitKeyCommand::GotoFirst,
        KeyCode::Char('G') => GitKeyCommand::GotoLast,
        KeyCode::Enter => GitKeyCommand::ToggleExpand,
        _ => GitKeyCommand::Nothing,
    }
}

// ---------------------------------------------------------------------------
// The log tab
// ---------------------------------------------------------------------------

/// What a key does in the log tab.
#[derive(Clone, Copy, Debug, PartialEq, Eq, Structural)]
pub enum LogKeyCommand {
    /// The author picker handles the key.
    AuthorPicker,
    /// Carry out the stash action awaiting confirmation.
    ConfirmStashAction,
    /// Drop the stash confirmation.
    CancelStashAction,
    /// The inspect pop-up handles the key.
    InspectPopup,
    /// Start or stop typing the filter (the list takes the focus).
    ToggleFilterEdit,
    /// Stop typing the filter.
    EndFilterEdit,
    /// Apply the selected stash.
    StashApply,
    /// Delete the filter's last character.
    FilterBackspace,
    /// Empty the filter.
    ClearFilter,
    /// Add a character to the filter.
    FilterType(char),
    SwitchSubtab(LogSubTab),
    RefreshGit,
    ClearCommandLog,
    /// Ask to confirm popping or dropping the selected stash.
    StashConfirm(StashConfirmAction),
    /// Switch the detail pane between diff and files.
    ToggleDetailMode,
    /// Show the files of the selected commit.
    ShowFiles,
    OpenInspect,
    LoadMore,
    ToggleZoom,
    CycleFocus,
    NarrowList,
    WidenList,
    /// Switch the diff between unified and side by side (the diff takes
    /// the focus).
    ToggleDiffMode,
    ToggleWrap,
    ToggleHighlight,
    OpenBranchPicker,
    OpenAuthorPicker,
    /// Scroll the diff by this many columns.
    ScrollX(i32),
    /// Move the list's selection by this many rows.
    MoveSelection(i32),
    /// Move the files' selection by this many rows.
    MoveFileSelection(i32),
    /// Scroll the diff by this many lines.
    ScrollY(i32),
    SelectFirst,
    SelectLast,
    SelectFirstFile,
    SelectLastFile,
    ScrollTop,
    ScrollBottom,
    Nothing,
}

/// What `k` does in the log tab of `ui`: an open author picker takes every
/// key; a stash confirmation takes Enter, Esc or `n`; an open inspect
/// pop-up takes every key; while the filter is typed, characters go to it;
/// the motion keys act on the focused pane.
pub open spec fn log_key_spec(ui: LogUi, k: Key, author_open: bool, stash_confirm: bool) -> LogKeyCommand {
    let cmds = ui.subtab == LogSubTab::Commands;
    if author_open {
        LogKeyCommand::AuthorPicker
    } else if stash_confirm {
        if k.code == KeyCode::Enter {
            LogKeyCommand::ConfirmStashAction
        } else if k.code == KeyCode::Esc || is_char(k, 'n') || is_char(k, 'N') {
            LogKeyCommand::CancelStashAction
        } else {
            LogKeyCommand::Nothing
        }
    } else if ui.inspect.open {
        LogKeyCommand::InspectPopup
    } else if is_char(k, '/') && !cmds {
        LogKeyCommand::ToggleFilterEdit
    } else if k.code == KeyCode::Enter && ui.filter_edit {
        LogKeyCommand::EndFilterEdit
    } else if k.code == KeyCode::Enter && ui.subtab == LogSubTab::Stash {
        LogKeyCommand::StashApply
    } else if k.code == KeyCode::Backspace && ui.filter_edit {
        LogKeyCommand::FilterBackspace
    } else if (is_char(k, 'u') || is_char(k, 'l')) && !cmds && k.ctrl {
        LogKeyCommand::ClearFilter
    } else if k.code is Char && ui.filter_edit {
        if !k.ctrl && !k.alt {
            LogKeyCommand::FilterType(k.code->0)
        } else {
            LogKeyCommand::Nothing
        }
    } else if is_char(k, 'r') {
        LogKeyCommand::SwitchSubtab(LogSubTab::Reflog)
    } else if is_char(k, 'R') {
        LogKeyCommand::RefreshGit
    } else if is_char(k, 'h') {
        LogKeyCommand::SwitchSubtab(LogSubTab::History)
    } else if is_char(k, 't') {
        LogKeyCommand::SwitchSubtab(LogSubTab::Stash)
    } else if is_char(k, 'c') {
        LogKeyCommand::SwitchSubtab(LogSubTab::Commands)
    } else if is_char(k, 'x') && cmds {
        LogKeyCommand::ClearCommandLog
    } else if is_char(k, 'a') && ui.subtab == LogSubTab::Stash {
        LogKeyCommand::StashApply
    } else if is_char(k, 'p') && ui.subtab == LogSubTab::Stash {
        LogKeyCommand::StashConfirm(StashConfirmAction::Pop)
    } else if is_char(k, 'd') && ui.subtab == LogSubTab::Stash {
        LogKeyCommand::StashConfirm(StashConfirmAction::Drop)
    } else if is_char(k, 'd') && ui.subtab == LogSubTab::History {
        LogKeyCommand::ToggleDetailMode
    } else if is_char(k, 'f') && ui.subtab == LogSubTab::History {
        LogKeyCommand::ShowFiles
    } else if is_char(k, 'F') && ui.subtab == LogSubTab::History {
        LogKeyCommand::ToggleDetailMode
    } else if is_char(k, 'i') {
        LogKeyCommand::OpenInspect
    } else if is_char(k, 'L') && !cmds {
        LogKeyCommand::LoadMore
    } else if is_char(k, 'z') {
        LogKeyCommand::ToggleZoom
    } else if k.code == KeyCode::Tab {
        LogKeyCommand::CycleFocus
    } else if is_char(k, '[') {
        LogKeyCommand::NarrowList
    } else if is_char(k, ']') {
        LogKeyCommand::WidenList
    } else if is_char(k, 's') {
        LogKeyCommand::ToggleDiffMode
    } else if is_char(k, 'w') {
        LogKeyCommand::ToggleWrap
    } else if is_char(k, 'H') {
        LogKeyCommand::ToggleHighlight
    } else if is_char(k, 'B') {
        LogKeyCommand::OpenBranchPicker
    } else if is_char(k, 'A') && !cmds {
        LogKeyCommand::OpenAuthorPicker
    } else if k.code == KeyCode::Left {
        LogKeyCommand::ScrollX(-4i32)
    } else if k.code == KeyCode::Right {
        LogKeyCommand::ScrollX(4i32)
    } else if is_char(k, 'j') || k.code == KeyCode::Down {
        match ui.focus {
            LogPaneFocus::Commits => LogKeyCommand::MoveSelection(1i32),
            LogPaneFocus::Files => LogKeyCommand::MoveFileSelection(1i32),
            LogPaneFocus::Diff => LogKeyCommand::ScrollY(1i32),
        }
    } else if is_char(k, 'k') || k.code == KeyCode::Up {
        match ui.focus {
            LogPaneFocus::Commits => LogKeyCommand::MoveSelection(-1i32),
            LogPaneFocus::Files => LogKeyCommand::MoveFileSelection(-1i32),
            LogPaneFocus::Diff => LogKeyCommand::ScrollY(-1i32),
        }
    } else if is_char(k, 'g') {
        match ui.focus {
            LogPaneFocus::Commits => LogKeyCommand::SelectFirst,
            LogPaneFocus::Files => LogKeyCommand::SelectFirstFile,
            LogPaneFocus::Diff => LogKeyCommand::ScrollTop,
        }
    } else if is_char(k, 'G') {
        match ui.focus {
            LogPaneFocus::Commits => LogKeyCommand::SelectLast,
            LogPaneFocus::Files => LogKeyCommand::SelectLastFile,
            LogPaneFocus::Diff => LogKeyCommand::ScrollBottom,
        }
    } else {
        LogKeyCommand::Nothing
    }
}

/// What `k` does in the log tab of `ui` (see `log_key_spec`).
pub fn log_key_command(ui: &LogUi, k: Key, author_open: bool, stash_confirm: bool) -> (r: LogKeyCommand)
    ensures
        r == log_key_spec(*ui, k, author_open, stash_confirm),
{
    if author_open {
        return LogKeyCommand::AuthorPicker;
    }
    if stash_confirm {
        return match k.code {
            KeyCode::Enter => LogKeyCommand::ConfirmStashAction,
            KeyCode::Esc | KeyCode::Char('n') | KeyCode::Char('N') => LogKeyCommand::CancelStashAction,
            _ => LogKeyCommand::Nothing,
        };
    }
    if ui.inspect.open {
        return LogKeyCommand::InspectPopup;
    }
    let cmds = match ui.subtab {
        LogSubTab::Commands => true,
        _ => false,
    };
    let stash = match ui.subtab {
        LogSubTab::Stash => true,
        _ => false,
    };
    let history = match ui.subtab {
        LogSubTab::History => true,
        _ => false,
    };
    match k.code {
        KeyCode::Char('/') if !cmds => LogKeyCommand::ToggleFilterEdit,
        KeyCode::Enter if ui.filter_edit => LogKeyCommand::EndFilterEdit,
        KeyCode::Enter if stash => LogKeyCommand::StashApply,
        KeyCode::Backspace if ui.filter_edit => LogKeyCommand::FilterBackspace,
        KeyCode::Char('u') if !cmds && k.ctrl => LogKeyCommand::ClearFilter,
        KeyCode::Char('l') if !cmds && k.ctrl => LogKeyCommand::ClearFilter,
        KeyCode::Char(ch) if ui.filter_edit => if !k.ctrl && !k.alt {
            LogKeyCommand::FilterType(ch)
        } else {
            LogKeyCommand::Nothing
        },
        KeyCode::Char('r') => LogKeyCommand::SwitchSubtab(LogSubTab::Reflog),
        KeyCode::Char('R') => LogKeyCommand::RefreshGit,
        KeyCode::Char('h') => LogKeyCommand::SwitchSubtab(LogSubTab::History),
        KeyCode::Char('t') => LogKeyCommand::SwitchSubtab(LogSubTab::Stash),
        KeyCode::Char('c') => LogKeyCommand::SwitchSubtab(LogSubTab::Commands),
        KeyCode::Char('x') if cmds => LogKeyCommand::ClearCommandLog,
        KeyCode::Char('a') if stash => LogKeyCommand::StashApply,
        KeyCode::Char('p') if stash => LogKeyCommand::StashConfirm(StashConfirmAction::Pop),
        KeyCode::Char('d') if stash => LogKeyCommand::StashConfirm(StashConfirmAction::Drop),
        KeyCode::Char('d') if history => LogKeyCommand::ToggleDetailMode,
        KeyCode::Char('f') if history => LogKeyCommand::ShowFiles,
        KeyCode::Char('F') if history => LogKeyCommand::ToggleDetailMode,
        KeyCode::Char('i') => LogKeyCommand::OpenInspect,
        KeyCode::Char('L') if !cmds => LogKeyCommand::LoadMore,
        KeyCode::Char('z') => LogKeyCommand::ToggleZoom,
        KeyCode::Tab => LogKeyCommand::CycleFocus,
        KeyCode::Char('[') => LogKeyCommand::NarrowList,
        KeyCode::Char(']') => LogKeyCommand::WidenList,
        KeyCode::Char('s') => LogKeyCommand::ToggleDiffMode,
        KeyCode::Char('w') => LogKeyCommand::ToggleWrap,
        KeyCode::Char('H') => LogKeyCommand::ToggleHighlight,
        KeyCode::Char('B') => LogKeyCommand::OpenBranchPicker,
        KeyCode::Char('A') if !cmds => LogKeyCommand::OpenAuthorPicker,
        KeyCode::Left => LogKeyCommand::ScrollX(-4),
        KeyCode::Right => LogKeyCommand::ScrollX(4),
        KeyCode::Char('j') | KeyCode::Down => match ui.focus {
            LogPaneFocus::Commits => LogKeyCommand::MoveSelection(1),
            LogPaneFocus::Files => LogKeyCommand::MoveFileSelection(1),
            LogPaneFocus::Diff => LogKeyCommand::ScrollY(1),
        },
        KeyCode::Char('k') | KeyCode::Up => match ui.focus {
            LogPaneFocus::Commits => LogKeyCommand::MoveSelection(-1),
            LogPaneFocus::Files => LogKeyCommand::MoveFileSelection(-1),
            LogPaneFocus::Diff => LogKeyCommand::ScrollY(-1),
        },
        KeyCode::Char('g') => match ui.focus {
            LogPaneFocus::Commits => LogKeyCommand::SelectFirst,
            LogPaneFocus::Files => LogKeyCommand::SelectFirstFile,
            LogPaneFocus::Diff => LogKeyCommand::ScrollTop,
        },
        KeyCode::Char('G') => match ui.focus {
            LogPaneFocus::Commits => LogKeyCommand::SelectLast,
            LogPaneFocus::Files => LogKeyCommand::SelectLastFile,
            LogPaneFocus::Diff => LogKeyCommand::ScrollBottom,
        },
        _ => LogKeyCommand::Nothing,
    }
}

// ---------------------------------------------------------------------------
// Naming a new branch
// ---------------------------------------------------------------------------

/// The command that creates and checks out the branch typed as `name`
/// (trimmed); `None` for a blank name.
pub fn new_branch_command(name: &str) -> (r: Option<String>)
    ensures
        match r {
            Some(c) => trim(name@).len() > 0 && c@ == "git checkout -b "@ + trim(name@),
            None => trim(name@).len() == 0,
        },
{
    let t = crate::text::trim_string(name);
    if t.as_str().unicode_len() == 0 {
        return None;
    }
    let mut c = String::new();
    push_str(&mut c, "git checkout -b ");
    push_str(&mut c, t.as_str());
    Some(c)
}

// ---------------------------------------------------------------------------
// Keys before any tab
// ---------------------------------------------------------------------------

/// Which pop-ups and pickers are open, and whether the terminal tab is
/// shown.
#[derive(Clone, Copy, Debug, PartialEq, Eq, Structural)]
pub struct Overlays {
    pub operation_popup: bool,
    pub theme_picker: bool,
    pub command_palette: bool,
    pub stash_picker: bool,
    pub stash_confirm: bool,
    pub branch_picker: bool,
    pub author_picker: bool,
    pub discard_confirm: bool,
    pub context_menu: bool,
    pub inspect: bool,
    pub update_confirm: bool,
    pub quick_stash_confirm: bool,
    pub new_branch_input: bool,
    pub terminal_tab: bool,
}

/// Where a key goes first.
#[derive(Clone, Copy, Debug, PartialEq, Eq, Structural)]
pub enum KeyRoute {
    Quit,
    ShowGit,
    ShowLog,
    ShowExplorer,
    OpenCommandPalette,
    OpenThemePicker,
    /// Close what is open (see `handle_escape`).
    Escape,
    ThemePicker,
    CommandPalette,
    /// The operation pop-up closes.
    ClosePopup,
    /// The operation pop-up scrolls by this many lines.
    ScrollPopup(i32),
    /// The operation pop-up ignores the key.
    PopupIgnores,
    UpdateConfirm,
    QuickStashConfirm,
    NewBranchInput,
    BranchPicker,
    /// The current tab handles the key.
    Tab,
}

/// Whether none of the pickers that block switching tabs is open.
pub open spec fn tabs_free(o: Overlays) -> bool {
    !o.operation_popup && !o.theme_picker && !o.command_palette && !o.stash_picker
        && !o.stash_confirm && !o.branch_picker && !o.terminal_tab
}

/// Whether nothing that blocks the palette and theme picker is open.
pub open spec fn palette_free(o: Overlays) -> bool {
    !o.operation_popup && !o.discard_confirm && !o.stash_confirm && !o.branch_picker
        && !o.author_picker && !o.context_menu && !o.inspect
}

/// Where `k` goes: `q` quits; `1`, `2`, `3` show the git, log and explorer
/// tabs when nothing blocks it; control-p and `T` open the palette and the
/// theme picker; Esc closes; else the first open pop-up or picker, or the
/// tab, takes the key.
pub open spec fn key_route_spec(k: Key, o: Overlays) -> KeyRoute {
    if is_char(k, 'q') {
        KeyRoute::Quit
    } else if is_char(k, '1') && tabs_free(o) {
        KeyRoute::ShowGit
    } else if is_char(k, '2') && tabs_free(o) {
        KeyRoute::ShowLog
    } else if is_char(k, '3') && tabs_free(o) {
        KeyRoute::ShowExplorer
    } else if is_char(k, 'p') && k.ctrl && palette_free(o) {
        KeyRoute::OpenCommandPalette
    } else if is_char(k, 'T') && palette_free(o) {
        KeyRoute::OpenThemePicker
    } else if k.code == KeyCode::Esc {
        KeyRoute::Escape
    } else if o.theme_picker {
        KeyRoute::ThemePicker
    } else if o.command_palette {
        KeyRoute::CommandPalette
    } else if o.operation_popup {
        if k.code == KeyCode::Enter {
            KeyRoute::ClosePopup
        } else if is_char(k, 'j') || k.code == KeyCode::Down {
            KeyRoute::ScrollPopup(3i32)
        } else if is_char(k, 'k') || k.code == KeyCode::Up {
            KeyRoute::ScrollPopup(-3i32)
        } else {
            KeyRoute::PopupIgnores
        }
    } else if o.update_confirm {
        KeyRoute::UpdateConfirm
    } else if o.quick_stash_confirm {
        KeyRoute::QuickStashConfirm
    } else if o.new_branch_input {
        KeyRoute::NewBranchInput
    } else if o.branch_picker {
        KeyRoute::BranchPicker
    } else {
        KeyRoute::Tab
    }
}

/// Where `k` goes (see `key_route_spec`).
pub fn key_route(k: Key, o: Overlays) -> (r: KeyRoute)
    ensures
        r == key_route_spec(k, o),
{
    let tabs = !o.operation_popup && !o.theme_picker && !o.command_palette && !o.stash_picker
        && !o.stash_confirm && !o.branch_picker && !o.terminal_tab;
    let palette = !o.operation_popup && !o.discard_confirm && !o.stash_confirm
        && !o.branch_picker && !o.author_picker && !o.context_menu && !o.inspect;
    match k.code {
        KeyCode::Char('q') => {
            return KeyRoute::Quit;
        },
        KeyCode::Char('1') if tabs => {
            return KeyRoute::ShowGit;
        },
        KeyCode::Char('2') if tabs => {
            return KeyRoute::ShowLog;
        },
        KeyCode::Char('3') if tabs => {
            return KeyRoute::ShowExplorer;
        },
        KeyCode::Char('p') if k.ctrl && palette => {
            return KeyRoute::OpenCommandPalette;
        },
        KeyCode::Char('T') if palette => {
            return KeyRoute::OpenThemePicker;
        },
        KeyCode::Esc => {
            return KeyRoute::Escape;
        },
        _ => {},
    }
    if o.theme_picker {
        KeyRoute::ThemePicker
    } else if o.command_palette {
        KeyRoute::CommandPalette
    } else if o.operation_popup {
        match k.code {
            KeyCode::Enter => KeyRoute::ClosePopup,
            KeyCode::Char('j') | KeyCode::Down => KeyRoute::ScrollPopup(3),
            KeyCode::Char('k') | KeyCode::Up => KeyRoute::ScrollPopup(-3),
            _ => KeyRoute::PopupIgnores,
        }
    } else if o.update_confirm {
        KeyRoute::UpdateConfirm
    } else if o.quick_stash_confirm {
        KeyRoute::QuickStashConfirm
    } else if o.new_branch_input {
        KeyRoute::NewBranchInput
    } else if o.branch_picker {
        KeyRoute::BranchPicker
    } else {
        KeyRoute::Tab
    }
}

} // verus!
