use te::git_ops::{CommitEntry, ReflogEntry, StashEntry};
use te::log_view::{LogDetailMode, LogPaneFocus, LogSubTab, LogUi};
use te::pickers::{AuthorUi, StashUi};
use te::preview::PreviewContent;
use te::preview_cache::PreviewCache;

fn stash(sel: &str, subject: &str) -> StashEntry {
    StashEntry { selector: sel.to_string(), subject: subject.to_string() }
}

fn commit(short: &str, author: &str, subject: &str, decoration: &str) -> CommitEntry {
    CommitEntry {
        hash: format!("{}0000", short),
        short: short.to_string(),
        date: "2024-01-01".to_string(),
        author: author.to_string(),
        subject: subject.to_string(),
        decoration: decoration.to_string(),
    }
}

#[test]
fn stash_picker_filters_and_keeps_selection() {
    let mut ui = StashUi::new();
    ui.stashes = vec![stash("stash@{0}", "WIP on main: fix"), stash("stash@{1}", "add feature")];
    ui.update_filtered();
    assert_eq!(ui.filtered, vec![0, 1]);
    assert_eq!(ui.selected, Some(0));
    ui.move_selection(1);
    assert_eq!(ui.selected, Some(1));
    ui.query = "feature".to_string();
    ui.update_filtered();
    assert_eq!(ui.filtered, vec![1]);
    assert_eq!(ui.selected, Some(0));
    assert_eq!(ui.selected_stash().unwrap().subject, "add feature");
    ui.query = "zzz".to_string();
    ui.update_filtered();
    assert!(ui.filtered.is_empty());
    assert_eq!(ui.selected, None);
    assert!(ui.selected_stash().is_none());
}

#[test]
fn picker_selection_moves_within_the_list() {
    let mut ui = StashUi::new();
    ui.stashes = vec![stash("a", "1"), stash("b", "2"), stash("c", "3")];
    ui.update_filtered();
    ui.move_selection(10);
    assert_eq!(ui.selected, Some(2));
    ui.move_selection(-5);
    assert_eq!(ui.selected, Some(0));
}

#[test]
fn author_picker_ranks_best_first() {
    let mut ui = AuthorUi::new();
    ui.set_authors(vec!["Alice".to_string(), "Bob".to_string(), "alicia".to_string()]);
    assert_eq!(ui.filtered, vec![0, 1, 2]);
    ui.query = "ALI".to_string();
    ui.update_filtered();
    assert_eq!(ui.filtered, vec![0, 2]);
    assert_eq!(ui.selected_author(), Some("Alice"));
    ui.query = "bb".to_string();
    ui.update_filtered();
    assert_eq!(ui.filtered, vec![1]);
    assert_eq!(ui.selected_author(), Some("Bob"));
}

#[test]
fn log_filter_applies_author_refs_and_words() {
    let mut ui = LogUi::new();
    ui.history = vec![
        commit("aaa1", "Alice", "fix parser", "(HEAD -> main)"),
        commit("bbb2", "Bob", "fix docs", ""),
        commit("ccc3", "Alice", "add tests", "(tag: v1)"),
    ];
    ui.reflog = vec![ReflogEntry {
        hash: "h".to_string(),
        selector: "HEAD@{0}".to_string(),
        subject: "commit: fix parser".to_string(),
        decoration: "(main)".to_string(),
    }];
    ui.stash = vec![stash("stash@{0}", "fix wip")];
    ui.update_filtered();
    assert_eq!(ui.history_filtered, vec![0, 1, 2]);
    assert_eq!(ui.history_selected, Some(0));
    ui.filter_query = "@alice fix".to_string();
    ui.update_filtered();
    assert_eq!(ui.history_filtered, vec![0]);
    assert_eq!(ui.reflog_filtered, vec![0]);
    assert!(ui.stash_filtered.is_empty());
    assert_eq!(ui.stash_selected, None);
    ui.filter_query = "ref:v1".to_string();
    ui.update_filtered();
    assert_eq!(ui.history_filtered, vec![2]);
    assert!(ui.reflog_filtered.is_empty());
    assert_eq!(ui.stash_filtered, vec![0]);
}

#[test]
fn log_selection_follows_the_entry() {
    let mut ui = LogUi::new();
    ui.history = vec![
        commit("aaa1", "A", "one", ""),
        commit("bbb2", "B", "two", ""),
        commit("ccc3", "C", "three", ""),
    ];
    ui.update_filtered();
    ui.history_selected = Some(2);
    ui.filter_query = "three".to_string();
    ui.update_filtered();
    assert_eq!(ui.history_filtered, vec![2]);
    assert_eq!(ui.history_selected, Some(0));
}

#[test]
fn log_modes_and_tabs() {
    let mut ui = LogUi::new();
    assert_eq!(ui.left_width, 44);
    assert_eq!(ui.history_limit, 200);
    ui.diff_scroll_y = 5;
    ui.set_subtab(LogSubTab::Commands);
    assert_eq!(ui.command_selected, Some(0));
    assert_eq!(ui.focus, LogPaneFocus::Commits);
    assert_eq!(ui.diff_scroll_y, 0);
    assert_eq!(ui.active_selection(), Some(0));
    ui.select_active(Some(3));
    assert_eq!(ui.command_selected, Some(3));
    ui.set_subtab(LogSubTab::History);
    ui.set_detail_mode(LogDetailMode::Files);
    assert_eq!(ui.focus, LogPaneFocus::Files);
    ui.files_hash = Some("abc".to_string());
    ui.set_detail_mode(LogDetailMode::Diff);
    assert_eq!(ui.focus, LogPaneFocus::Diff);
    assert_eq!(ui.files_hash, None);
}

fn content(text: &str) -> PreviewContent {
    PreviewContent { text: text.to_string(), is_binary: false, truncated: false }
}

#[test]
fn preview_cache_evicts_least_recently_used() {
    let mut cache = PreviewCache::new(2);
    cache.insert("a".to_string(), content("A"));
    cache.insert("b".to_string(), content("B"));
    assert_eq!(cache.get(&"a".to_string()).unwrap().text, "A");
    cache.insert("c".to_string(), content("C"));
    assert!(cache.get(&"b".to_string()).is_none());
    assert_eq!(cache.get(&"a".to_string()).unwrap().text, "A");
    assert_eq!(cache.get(&"c".to_string()).unwrap().text, "C");
}

#[test]
fn preview_cache_replaces_invalidates_and_clears() {
    let mut cache = PreviewCache::new(0);
    cache.insert("a".to_string(), content("A"));
    cache.insert("a".to_string(), content("A2"));
    assert_eq!(cache.get(&"a".to_string()).unwrap().text, "A2");
    cache.invalidate(&"a".to_string());
    assert!(cache.get(&"a".to_string()).is_none());
    cache.insert("b".to_string(), content("B"));
    cache.clear();
    assert!(cache.get(&"b".to_string()).is_none());
}
