use te::git_ops::{CommitEntry, ReflogEntry};
use te::log_nav::{adjusted_width, push_git_log, GitLogEntry, LoadMore, LogSelect, GIT_LOG_LIMIT};
use te::log_view::{LogDetailMode, LogPaneFocus, LogSubTab, LogUi, LogZoom};

fn commit(short: &str, subject: &str) -> CommitEntry {
    CommitEntry {
        hash: format!("{}0000", short),
        short: short.to_string(),
        date: "2024-01-01".to_string(),
        author: "ann".to_string(),
        subject: subject.to_string(),
        decoration: String::new(),
    }
}

fn with_history(n: usize) -> LogUi {
    let mut ui = LogUi::new();
    ui.history = (0..n).map(|i| commit(&format!("c{}", i), &format!("subject {}", i))).collect();
    ui.update_filtered();
    ui
}

#[test]
fn command_log_keeps_newest_first_and_bounded() {
    let mut log: Vec<GitLogEntry> = Vec::new();
    let mut ui = LogUi::new();
    assert!(!push_git_log(&mut log, &mut ui, "git fetch".to_string(), Ok(()), 1));
    assert!(!push_git_log(&mut log, &mut ui, "git push".to_string(), Err("rejected".to_string()), 2));
    assert_eq!(log[0].cmd, "git push");
    assert!(!log[0].ok);
    assert_eq!(log[0].detail.as_deref(), Some("rejected"));
    assert_eq!(log[1].cmd, "git fetch");
    assert!(log[1].ok);
    for i in 0..300 {
        push_git_log(&mut log, &mut ui, format!("cmd {}", i), Ok(()), 3);
    }
    assert_eq!(log.len(), GIT_LOG_LIMIT);
    assert_eq!(log[0].cmd, "cmd 299");
}

#[test]
fn command_log_selects_first_when_shown() {
    let mut log: Vec<GitLogEntry> = Vec::new();
    let mut ui = LogUi::new();
    ui.switch_subtab(LogSubTab::Commands, 0);
    assert_eq!(ui.command_selected, None);
    assert!(push_git_log(&mut log, &mut ui, "git status".to_string(), Ok(()), 0));
    assert_eq!(ui.command_selected, Some(0));
    assert!(!push_git_log(&mut log, &mut ui, "git log".to_string(), Ok(()), 0));
}

#[test]
fn switching_to_reflog_zooms_the_list() {
    let mut ui = with_history(3);
    ui.reflog = vec![ReflogEntry {
        hash: "abc".to_string(),
        selector: "HEAD@{0}".to_string(),
        subject: "commit".to_string(),
        decoration: String::new(),
    }];
    ui.inspect.open = true;
    ui.focus = LogPaneFocus::Diff;
    ui.switch_subtab(LogSubTab::Reflog, 0);
    assert_eq!(ui.subtab, LogSubTab::Reflog);
    assert_eq!(ui.zoom, LogZoom::List);
    assert_eq!(ui.focus, LogPaneFocus::Commits);
    assert!(!ui.inspect.open);
    assert_eq!(ui.reflog_filtered, vec![0]);
    assert_eq!(ui.reflog_selected, Some(0));
}

#[test]
fn switching_to_commands_fixes_selection() {
    let mut ui = LogUi::new();
    ui.switch_subtab(LogSubTab::Commands, 3);
    assert_eq!(ui.command_selected, Some(0));
    ui.command_selected = Some(7);
    ui.switch_subtab(LogSubTab::Commands, 3);
    assert_eq!(ui.command_selected, Some(0));
    ui.command_selected = Some(2);
    ui.switch_subtab(LogSubTab::Commands, 3);
    assert_eq!(ui.command_selected, Some(2));
}

#[test]
fn selecting_rows() {
    let mut ui = with_history(5);
    ui.focus = LogPaneFocus::Diff;
    ui.diff_scroll_y = 9;
    assert_eq!(ui.select_item(9, 0), LogSelect::Ignored);
    assert_eq!(ui.select_item(2, 0), LogSelect::Moved);
    assert_eq!(ui.history_selected, Some(2));
    assert_eq!(ui.focus, LogPaneFocus::Commits);
    assert_eq!(ui.diff_scroll_y, 0);
    assert_eq!(ui.select_item(2, 0), LogSelect::Kept);
    assert_eq!(ui.move_selection(10, 0), LogSelect::Moved);
    assert_eq!(ui.history_selected, Some(4));
    assert_eq!(ui.move_selection(1, 0), LogSelect::Kept);
    assert_eq!(ui.move_selection(-7, 0), LogSelect::Moved);
    assert_eq!(ui.history_selected, Some(0));
    let mut empty = LogUi::new();
    empty.history_selected = Some(3);
    assert_eq!(empty.move_selection(1, 0), LogSelect::Ignored);
    assert_eq!(empty.history_selected, None);
}

#[test]
fn zoom_and_focus_cycle() {
    let mut ui = LogUi::new();
    assert_eq!(ui.zoom, LogZoom::Unzoomed);
    ui.toggle_zoom();
    assert_eq!((ui.zoom, ui.focus), (LogZoom::Diff, LogPaneFocus::Diff));
    ui.inspect.open = true;
    ui.toggle_zoom();
    assert_eq!((ui.zoom, ui.focus), (LogZoom::List, LogPaneFocus::Commits));
    assert!(!ui.inspect.open);
    ui.toggle_zoom();
    assert_eq!(ui.zoom, LogZoom::Unzoomed);

    ui.focus = LogPaneFocus::Commits;
    ui.cycle_focus();
    assert_eq!(ui.focus, LogPaneFocus::Diff);
    ui.cycle_focus();
    assert_eq!(ui.focus, LogPaneFocus::Commits);
    ui.detail_mode = LogDetailMode::Files;
    ui.cycle_focus();
    assert_eq!(ui.focus, LogPaneFocus::Files);
    ui.cycle_focus();
    assert_eq!(ui.focus, LogPaneFocus::Diff);
    ui.cycle_focus();
    assert_eq!(ui.focus, LogPaneFocus::Commits);
}

#[test]
fn files_selection_moves() {
    let mut ui = LogUi::new();
    assert!(!ui.select_file(0));
    assert!(!ui.move_file_selection(1));
    assert_eq!(ui.files_selected, None);
}

#[test]
fn list_width_stays_within_bounds() {
    let mut ui = LogUi::new();
    ui.adjust_left_width(-2);
    assert_eq!(ui.left_width, 42);
    ui.adjust_left_width(100);
    assert_eq!(ui.left_width, 90);
    assert_eq!(adjusted_width(33, -4), 32);
    assert_eq!(adjusted_width(50, 2), 52);
}

#[test]
fn loading_more_entries() {
    let ui = with_history(200);
    assert_eq!(ui.load_more(true, true), LoadMore::Busy);
    assert_eq!(ui.load_more(false, false), LoadMore::NotRepository);
    assert_eq!(ui.load_more(false, true), LoadMore::Fetch(LogSubTab::History, 400));
    let mut cmds = LogUi::new();
    cmds.switch_subtab(LogSubTab::Commands, 0);
    assert_eq!(cmds.load_more(false, true), LoadMore::NothingMore);
}

#[test]
fn more_entries_wanted_near_the_end() {
    let mut ui = with_history(200);
    ui.history_selected = Some(10);
    assert!(!ui.wants_more(false, 0));
    ui.history_selected = Some(190);
    assert!(ui.wants_more(false, 0));
    assert!(!ui.wants_more(true, 0));
    let mut short = with_history(20);
    short.history_selected = Some(19);
    assert!(!short.wants_more(false, 0));
}
