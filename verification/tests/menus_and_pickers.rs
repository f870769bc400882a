use te::branch::{checkout_command, log_ref, BranchEntry, BranchUi};
use te::git_ops::{CommitEntry, StashEntry};
use te::menus::{list_click, palette_modal, theme_modal, ListClick, Rect, palette_item, theme_at, theme_status, wrap_step, CommandId, CommandPaletteUi, ThemePickerUi, PALETTE_COUNT};
use te::pickers::{history_authors, stash_blocked, stash_command, with_author_filter, StashOp, StashUi};
use te::theme::Theme;

fn branch(name: &str, current: bool, remote: bool) -> BranchEntry {
    BranchEntry { name: name.to_string(), is_current: current, is_remote: remote, upstream: None, track: None }
}

fn commit(author: &str) -> CommitEntry {
    CommitEntry {
        hash: "h".to_string(),
        short: "h".to_string(),
        date: "d".to_string(),
        author: author.to_string(),
        subject: "s".to_string(),
        decoration: String::new(),
    }
}

#[test]
fn lists_wrap_around() {
    assert_eq!(wrap_step(6, Some(5), 1), Some(0));
    assert_eq!(wrap_step(6, Some(0), -1), Some(5));
    assert_eq!(wrap_step(6, None, -7), Some(5));
    assert_eq!(wrap_step(6, Some(2), 12), Some(2));
    assert_eq!(wrap_step(0, Some(2), 1), None);
}

#[test]
fn theme_picker_opens_on_current_theme() {
    let mut t = ThemePickerUi::new();
    t.toggle(Theme::Nord);
    assert!(t.open);
    assert_eq!(t.selected, Some(4));
    assert_eq!(t.chosen(), Some(Theme::Nord));
    t.move_selection(2);
    assert_eq!(t.chosen(), Some(Theme::Terminal));
    assert_eq!(theme_at(1), Some(Theme::Mocha));
    assert_eq!(theme_at(6), None);
    assert_eq!(theme_status(Theme::TokyoNightStorm), "Theme: Tokyo Night");
    t.toggle(Theme::Nord);
    assert!(!t.open);
}

#[test]
fn command_palette_runs_selected_command() {
    let mut p = CommandPaletteUi::new();
    p.toggle();
    assert_eq!(p.selected, Some(0));
    p.move_selection(-1);
    assert_eq!(p.selected, Some(PALETTE_COUNT - 1));
    assert_eq!(p.take_selected(), Some(CommandId::Quit));
    assert!(!p.open);
    assert_eq!(palette_item(9).map(|(c, t)| (c, t)), Some((CommandId::GitFetch, "Git: fetch --prune")));
    assert!(palette_item(PALETTE_COUNT).is_none());
}

#[test]
fn stash_commands_and_picker() {
    assert_eq!(stash_command(StashOp::Apply, "stash@{1}"), "git stash apply stash@{1}");
    assert_eq!(stash_command(StashOp::Drop, "stash@{0}"), "git stash drop stash@{0}");
    assert_eq!(stash_blocked(true, true).as_deref(), Some("Busy"));
    assert_eq!(stash_blocked(false, false).as_deref(), Some("Not a git repository"));
    assert_eq!(stash_blocked(false, true), None);
    let mut ui = StashUi::new();
    assert_eq!(ui.note("nothing".to_string()).as_deref(), Some("nothing"));
    ui.open_with(vec![StashEntry { selector: "stash@{0}".to_string(), subject: "wip".to_string() }]);
    assert!(ui.open);
    assert_eq!(ui.filtered, vec![0]);
    assert_eq!(ui.note("Busy".to_string()), None);
    assert_eq!(ui.status.as_deref(), Some("Busy"));
    ui.close();
    assert!(!ui.open && ui.stashes.is_empty() && ui.status.is_none());
}

#[test]
fn author_filter_replaces_author_tokens() {
    assert_eq!(with_author_filter("fix @bob a:x author:y  ui", "Ann Lee"), "fix ui @\"Ann Lee\"");
    assert_eq!(with_author_filter("", "ann"), "@ann");
    let authors = history_authors(&vec![commit(" bob "), commit("ann"), commit(""), commit("bob")]);
    assert_eq!(authors, vec!["ann", "bob"]);
}

#[test]
fn branch_checkout_plans() {
    assert_eq!(checkout_command(&branch("main", true, false)), "git checkout main");
    assert_eq!(checkout_command(&branch("origin/x", false, true)), "git checkout --track origin/x");
    assert_eq!(log_ref(&branch("main", true, false)), None);
    assert_eq!(log_ref(&branch("dev", false, false)).as_deref(), Some("dev"));
    let mut ui = BranchUi::new();
    ui.open_with(vec![branch("main", true, false), branch("dev", false, false)]);
    assert!(ui.open);
    assert_eq!(ui.checkout_plan(false, false, Ok(false)), None);
    assert_eq!(ui.status.as_deref(), Some("Not a git repository"));
    let sel = ui.selected_branch().unwrap().name;
    assert_eq!(ui.checkout_plan(true, false, Ok(true)), None);
    assert_eq!(ui.confirm_checkout.as_deref(), Some(sel.as_str()));
    assert_eq!(ui.checkout_plan(true, false, Err("no git".to_string())), None);
    assert_eq!(ui.status.as_deref(), Some("no git"));
    assert_eq!(ui.checkout_plan(true, true, Ok(true)), Some(format!("git checkout {}", sel)));
    ui.close();
    assert!(!ui.open && ui.items.is_empty() && ui.selected.is_none());
    assert_eq!(ui.checkout_plan(true, true, Ok(false)), None);
    assert_eq!(ui.status.as_deref(), Some("No branch selected"));
}

#[test]
fn pop_up_boxes_and_clicks() {
    assert_eq!(palette_modal(100, 40), Rect { x: 23, y: 9, width: 54, height: 22 });
    assert_eq!(theme_modal(100, 40), Rect { x: 32, y: 14, width: 35, height: 11 });
    assert_eq!(palette_modal(20, 8), Rect { x: 0, y: 0, width: 32, height: 10 });
    let m = palette_modal(100, 40);
    assert_eq!(list_click(m, 11, 17, 0, PALETTE_COUNT, Some(0), 0, 0), ListClick::Close);
    assert_eq!(list_click(m, 11, 17, 0, PALETTE_COUNT, Some(0), 30, 9), ListClick::Ignore);
    assert_eq!(list_click(m, 11, 17, 0, PALETTE_COUNT, Some(0), 30, 11), ListClick::Activate(0));
    assert_eq!(list_click(m, 11, 17, 0, PALETTE_COUNT, Some(0), 30, 12), ListClick::Select(1));
    assert_eq!(list_click(m, 11, 17, 10, PALETTE_COUNT, None, 30, 27), ListClick::Ignore);

    let mut p = CommandPaletteUi::new();
    p.toggle();
    assert_eq!(p.click(m, 11, 17, 0, 30, 20), None);
    assert_eq!(p.selected, Some(9));
    assert_eq!(p.click(m, 11, 17, 0, 30, 20), Some(CommandId::GitFetch));
    assert!(!p.open);
    p.toggle();
    assert_eq!(p.click(m, 11, 17, 0, 0, 0), None);
    assert!(!p.open);

    let tm = theme_modal(100, 40);
    let mut t = ThemePickerUi::new();
    t.toggle(Theme::Terminal);
    assert_eq!(t.click(tm, 16, 6, 0, 40, 17), None);
    assert_eq!(t.click(tm, 16, 6, 0, 40, 17), Some(Theme::Mocha));
}
