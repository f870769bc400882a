use te::jobs::git_job_outcome;
use te::keys::{
    git_key_command, key_route, log_key_command, new_branch_command, GitKeyCommand, Key, KeyCode, KeyRoute,
    LogKeyCommand, Overlays,
};
use te::log_view::{LogPaneFocus, LogSubTab, LogUi};
use te::pickers::StashConfirmAction;

fn key(code: KeyCode) -> Key {
    Key { code, ctrl: false, shift: false, alt: false }
}

fn ch(c: char) -> Key {
    key(KeyCode::Char(c))
}

fn ctrl(c: char) -> Key {
    Key { code: KeyCode::Char(c), ctrl: true, shift: false, alt: false }
}

fn none_open() -> Overlays {
    Overlays {
        operation_popup: false,
        theme_picker: false,
        command_palette: false,
        stash_picker: false,
        stash_confirm: false,
        branch_picker: false,
        author_picker: false,
        discard_confirm: false,
        context_menu: false,
        inspect: false,
        update_confirm: false,
        quick_stash_confirm: false,
        new_branch_input: false,
        terminal_tab: false,
    }
}

#[test]
fn git_keys() {
    let plain = |k: Key| git_key_command(k, false, false, false, false, false);
    assert_eq!(plain(ch(' ')), GitKeyCommand::ToggleStage);
    assert_eq!(plain(ctrl('a')), GitKeyCommand::SelectAll);
    assert_eq!(plain(ctrl('z')), GitKeyCommand::Undo);
    assert_eq!(plain(Key { code: KeyCode::Char('Z'), ctrl: true, shift: true, alt: false }), GitKeyCommand::Redo);
    assert_eq!(plain(ctrl('y')), GitKeyCommand::Redo);
    assert_eq!(plain(ch('z')), GitKeyCommand::QuickStash);
    assert_eq!(plain(ch('a')), GitKeyCommand::Nothing);
    assert_eq!(git_key_command(ch('a'), false, false, false, true, false), GitKeyCommand::MarkResolved);
    assert_eq!(git_key_command(ch('o'), false, false, false, true, false), GitKeyCommand::UseOurs);
    assert_eq!(plain(key(KeyCode::Left)), GitKeyCommand::ScrollX(-4));
    assert_eq!(git_key_command(key(KeyCode::Left), false, false, false, false, true), GitKeyCommand::Collapse);
    assert_eq!(plain(key(KeyCode::Down)), GitKeyCommand::MoveDown);
    assert_eq!(plain(key(KeyCode::Enter)), GitKeyCommand::ToggleExpand);
}

#[test]
fn git_keys_under_overlays() {
    assert_eq!(git_key_command(ch('Y'), true, false, false, false, false), GitKeyCommand::ConfirmDiscard);
    assert_eq!(git_key_command(ch('n'), true, false, false, false, false), GitKeyCommand::CancelDiscard);
    assert_eq!(git_key_command(ch(' '), true, false, false, false, false), GitKeyCommand::Nothing);
    assert_eq!(git_key_command(ch(' '), false, true, false, false, false), GitKeyCommand::StashPicker);
    assert_eq!(git_key_command(ch(' '), false, false, true, false, false), GitKeyCommand::CommitEditor);
}

#[test]
fn log_keys() {
    let mut ui = LogUi::new();
    assert_eq!(log_key_command(&ui, ch('/'), false, false), LogKeyCommand::ToggleFilterEdit);
    assert_eq!(log_key_command(&ui, ch('r'), false, false), LogKeyCommand::SwitchSubtab(LogSubTab::Reflog));
    assert_eq!(log_key_command(&ui, ch('d'), false, false), LogKeyCommand::ToggleDetailMode);
    assert_eq!(log_key_command(&ui, ch('j'), false, false), LogKeyCommand::MoveSelection(1));
    ui.focus = LogPaneFocus::Diff;
    assert_eq!(log_key_command(&ui, key(KeyCode::Up), false, false), LogKeyCommand::ScrollY(-1));
    assert_eq!(log_key_command(&ui, ch('G'), false, false), LogKeyCommand::ScrollBottom);
    ui.filter_edit = true;
    assert_eq!(log_key_command(&ui, ch('r'), false, false), LogKeyCommand::FilterType('r'));
    assert_eq!(log_key_command(&ui, ctrl('u'), false, false), LogKeyCommand::ClearFilter);
    assert_eq!(log_key_command(&ui, key(KeyCode::Enter), false, false), LogKeyCommand::EndFilterEdit);
    ui.filter_edit = false;
    ui.subtab = LogSubTab::Stash;
    assert_eq!(log_key_command(&ui, ch('d'), false, false), LogKeyCommand::StashConfirm(StashConfirmAction::Drop));
    assert_eq!(log_key_command(&ui, key(KeyCode::Enter), false, false), LogKeyCommand::StashApply);
    ui.subtab = LogSubTab::Commands;
    assert_eq!(log_key_command(&ui, ch('/'), false, false), LogKeyCommand::Nothing);
    assert_eq!(log_key_command(&ui, ch('x'), false, false), LogKeyCommand::ClearCommandLog);
}

#[test]
fn log_keys_under_overlays() {
    let mut ui = LogUi::new();
    assert_eq!(log_key_command(&ui, ch('j'), true, false), LogKeyCommand::AuthorPicker);
    assert_eq!(log_key_command(&ui, key(KeyCode::Enter), false, true), LogKeyCommand::ConfirmStashAction);
    assert_eq!(log_key_command(&ui, key(KeyCode::Esc), false, true), LogKeyCommand::CancelStashAction);
    assert_eq!(log_key_command(&ui, ch('j'), false, true), LogKeyCommand::Nothing);
    ui.inspect.open = true;
    assert_eq!(log_key_command(&ui, ch('j'), false, false), LogKeyCommand::InspectPopup);
}

#[test]
fn keys_route_to_overlays_first() {
    let o = none_open();
    assert_eq!(key_route(ch('q'), o), KeyRoute::Quit);
    assert_eq!(key_route(ch('2'), o), KeyRoute::ShowLog);
    assert_eq!(key_route(ctrl('p'), o), KeyRoute::OpenCommandPalette);
    assert_eq!(key_route(key(KeyCode::Esc), o), KeyRoute::Escape);
    assert_eq!(key_route(ch('x'), o), KeyRoute::Tab);
    let mut popup = none_open();
    popup.operation_popup = true;
    assert_eq!(key_route(ch('1'), popup), KeyRoute::PopupIgnores);
    assert_eq!(key_route(ch('j'), popup), KeyRoute::ScrollPopup(3));
    assert_eq!(key_route(key(KeyCode::Enter), popup), KeyRoute::ClosePopup);
    let mut branch = none_open();
    branch.branch_picker = true;
    assert_eq!(key_route(ch('T'), branch), KeyRoute::BranchPicker);
}

#[test]
fn new_branch_names() {
    assert_eq!(new_branch_command("  feature/x ").as_deref(), Some("git checkout -b feature/x"));
    assert_eq!(new_branch_command("   "), None);
}

#[test]
fn job_outcomes() {
    let ok = git_job_outcome("git push", &Ok(()), false);
    assert_eq!(ok.status, "Done");
    let popup = ok.popup.unwrap();
    assert_eq!((popup.title.as_str(), popup.body.as_str(), popup.ok), ("git push", "Success", true));
    let failed = git_job_outcome("git fetch --prune", &Err("offline".to_string()), false);
    assert_eq!(failed.status, "offline");
    assert_eq!(failed.popup.unwrap().body, "offline");
    let staged = git_job_outcome("git add -- a.rs", &Ok(()), false);
    assert_eq!(staged.status, "Staged");
    assert!(staged.popup.is_none());
    let commit = git_job_outcome("git commit", &Ok(()), true);
    assert_eq!(commit.status, "Commit succeeded");
    assert_eq!(commit.commit_status.as_deref(), Some("Committed"));
    assert!(commit.committed);
    let bad = git_job_outcome("git commit", &Err("hook".to_string()), true);
    assert_eq!(bad.status, "Commit failed");
    assert_eq!(bad.commit_status.as_deref(), Some("hook"));
    assert!(!bad.committed);
    assert!(git_job_outcome("update lzgit 1.2.3", &Ok(()), false).update_finished);
}

#[test]
fn escape_in_the_log() {
    let mut ui = LogUi::new();
    ui.filter_edit = true;
    ui.filter_query = "fix".to_string();
    ui.inspect.open = true;
    assert!(ui.escape(true));
    assert!(ui.filter_edit);
    assert_eq!(ui.filter_query, "");
    assert!(!ui.inspect.open);
    assert!(!ui.escape(true));
    assert!(!ui.filter_edit);
    ui.filter_edit = true;
    ui.filter_query = "x".to_string();
    assert!(!ui.escape(false));
    assert!(!ui.filter_edit);
    assert_eq!(ui.filter_query, "x");
}
