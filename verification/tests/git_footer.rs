use te::git::{FlatNodeType, GitFileEntry, GitSection, GitState};
use te::git_actions::{
    discard_command, discard_failure, footer_plan, sort_paths, toggle_stage_plan, DiscardMode, FooterPlan,
    GitFooterAction,
};
use te::git_select::Marking;

fn e(path: &str, x: char, y: char) -> GitFileEntry {
    GitFileEntry {
        path: path.to_string(),
        x,
        y,
        is_untracked: x == '?',
        is_conflict: x == 'U',
        renamed_from: None,
    }
}

fn entries() -> Vec<GitFileEntry> {
    vec![e("b.rs", 'M', ' '), e("a.rs", ' ', 'M'), e("new.txt", '?', '?'), e("c.rs", 'U', 'U'), e("d.rs", 'A', 'M')]
}

fn paths(ps: &[&str]) -> Vec<String> {
    ps.iter().map(|s| s.to_string()).collect()
}

fn status_of(p: FooterPlan) -> String {
    match p {
        FooterPlan::Status(s) => s,
        _ => panic!("expected a status"),
    }
}

#[test]
fn footer_needs_repository_and_idle() {
    let es = entries();
    assert_eq!(status_of(footer_plan(GitFooterAction::Stage, false, false, paths(&["a.rs"]), &es)), "Not a git repository");
    assert_eq!(status_of(footer_plan(GitFooterAction::Stage, true, true, paths(&["a.rs"]), &es)), "Busy");
    assert_eq!(status_of(footer_plan(GitFooterAction::Stage, true, false, Vec::new(), &es)), "No selection");
    assert!(matches!(footer_plan(GitFooterAction::Commit, true, false, Vec::new(), &es), FooterPlan::Commit));
}

#[test]
fn stage_sorts_paths_and_names_the_command() {
    let es = entries();
    match footer_plan(GitFooterAction::Stage, true, false, paths(&["b.rs", "a.rs", "new.txt"]), &es) {
        FooterPlan::Stage { cmd, paths } => {
            assert_eq!(cmd, "git add (3)");
            assert_eq!(paths, vec!["a.rs", "b.rs", "new.txt"]);
        }
        _ => panic!("expected staging"),
    }
    match footer_plan(GitFooterAction::Stage, true, false, paths(&["a.rs"]), &es) {
        FooterPlan::Stage { cmd, .. } => assert_eq!(cmd, "git add -- a.rs"),
        _ => panic!("expected staging"),
    }
}

#[test]
fn unstage_takes_staged_paths_only() {
    let es = entries();
    match footer_plan(GitFooterAction::Unstage, true, false, paths(&["d.rs", "a.rs", "b.rs"]), &es) {
        FooterPlan::Unstage { cmd, paths } => {
            assert_eq!(cmd, "git restore --staged (2)");
            assert_eq!(paths, vec!["b.rs", "d.rs"]);
        }
        _ => panic!("expected unstaging"),
    }
    assert_eq!(
        status_of(footer_plan(GitFooterAction::Unstage, true, false, paths(&["a.rs", "new.txt"]), &es)),
        "Nothing staged in selection"
    );
}

#[test]
fn discard_picks_modes_and_refuses_conflicts() {
    let es = entries();
    match footer_plan(GitFooterAction::Discard, true, false, paths(&["a.rs", "new.txt", "b.rs", "gone.rs"]), &es) {
        FooterPlan::ConfirmDiscard(items) => {
            let got: Vec<(&str, DiscardMode)> = items.iter().map(|i| (i.path.as_str(), i.mode)).collect();
            assert_eq!(
                got,
                vec![("a.rs", DiscardMode::Worktree), ("new.txt", DiscardMode::Untracked), ("b.rs", DiscardMode::AllChanges)]
            );
        }
        _ => panic!("expected a confirmation"),
    }
    assert_eq!(
        status_of(footer_plan(GitFooterAction::Discard, true, false, paths(&["a.rs", "c.rs"]), &es)),
        "Cannot discard conflicts"
    );
    assert_eq!(status_of(footer_plan(GitFooterAction::Discard, true, false, paths(&["gone.rs"]), &es)), "No selection");
    assert_eq!(discard_command(3), "discard (3)");
    assert_eq!(discard_failure("a.rs", "denied"), "a.rs: denied");
}

#[test]
fn toggle_unstages_only_when_all_staged() {
    let es = entries();
    assert!(matches!(toggle_stage_plan(true, false, paths(&["b.rs", "d.rs"]), &es), FooterPlan::Unstage { .. }));
    assert!(matches!(toggle_stage_plan(true, false, paths(&["b.rs", "a.rs"]), &es), FooterPlan::Stage { .. }));
    assert!(matches!(toggle_stage_plan(true, false, paths(&["gone.rs"]), &es), FooterPlan::Stage { .. }));
    assert_eq!(status_of(toggle_stage_plan(true, true, paths(&["b.rs"]), &es)), "Busy");
}

#[test]
fn paths_sort_like_strings() {
    let sorted = sort_paths(paths(&["b", "a/x", "B", "a", "b"]));
    let mut expected = paths(&["b", "a/x", "B", "a", "b"]);
    expected.sort();
    assert_eq!(sorted, expected);
}

fn state() -> GitState {
    let mut g = GitState::new();
    g.refresh_start();
    let items: Vec<String> = ["## main", " M src/b.rs", " M src/a.rs", " M top.rs"].iter().map(|s| s.to_string()).collect();
    let entries = g.status_entries(&items);
    g.refresh_finish(entries);
    g.set_section(GitSection::Working);
    g
}

#[test]
fn clicks_mark_files_in_the_list() {
    let mut g = state();
    let listed: Vec<String> = g.filtered.iter().map(|i| g.entries[*i].path.clone()).collect();
    assert_eq!(listed.len(), 3);
    g.click_file(0, false, false);
    assert_eq!(g.selected_paths, vec![listed[0].clone()]);
    assert_eq!(g.selection_anchor, Some(0));
    g.click_file(2, true, false);
    assert_eq!(g.selected_paths, listed);
    g.click_file(1, false, true);
    assert_eq!(g.selected_paths, vec![listed[0].clone(), listed[2].clone()]);
    assert_eq!(g.selection_anchor, Some(1));
    g.click_file(1, false, true);
    assert_eq!(g.selected_paths.len(), 3);
    g.click_section(GitSection::Staged);
    assert!(g.selected_paths.is_empty());
    assert_eq!(g.selection_anchor, None);
}

#[test]
fn tree_clicks_toggle_or_mark() {
    let mut g = state();
    let first_file = g.flat_tree.iter().position(|i| i.node_type == FlatNodeType::File).unwrap();
    let last_file = g.flat_tree.iter().rposition(|i| i.node_type == FlatNodeType::File).unwrap();
    assert!(g.click_tree_item(first_file, false, false));
    assert!(g.selected_paths.is_empty());
    assert_eq!(g.selection_anchor, Some(first_file));
    assert!(g.click_tree_item(last_file, true, false));
    assert_eq!(g.selected_paths.len(), 3);
    let dir = g.flat_tree.iter().position(|i| i.node_type == FlatNodeType::Directory).unwrap();
    let before = g.flat_tree.len();
    assert!(!g.click_tree_item(dir, false, false));
    assert!(g.flat_tree.len() < before);
    assert!(!g.click_tree_item(999, false, false));
}

#[test]
fn bulk_marks_and_stage_all() {
    let mut g = state();
    g.select_all_filtered();
    assert_eq!(g.selected_paths.len(), 3);
    assert_eq!(g.list_selected, Some(0));
    g.mark_visible(Marking::Staged);
    assert!(g.selected_paths.is_empty());
    match g.stage_all_visible(true, false) {
        FooterPlan::Stage { cmd, paths } => {
            assert_eq!(cmd, "git add (3)");
            assert_eq!(paths, vec!["src/a.rs", "src/b.rs", "top.rs"]);
        }
        _ => panic!("expected staging"),
    }
    // Nothing listed is staged: the plan falls back to the tree selection,
    // which has nothing staged either.
    assert!(matches!(g.unstage_all_visible(true, false), FooterPlan::Status(_)));
}

#[test]
fn refresh_restores_the_selected_file() {
    let mut g = state();
    assert!(g.restore_selection(Some("src/b.rs".to_string())));
    assert_eq!(g.selected_path().as_deref(), Some("src/b.rs"));
    assert!(g.restore_selection(Some("gone.rs".to_string())));
    let first = g.flat_tree.iter().position(|i| i.node_type == FlatNodeType::File);
    assert_eq!(g.tree_selected, first);
    let mut empty = GitState::new();
    empty.diff_lines = vec!["old".to_string()];
    let generation = empty.diff_generation;
    assert!(!empty.restore_selection(None));
    assert_eq!(empty.tree_selected, None);
    assert!(empty.diff_lines.is_empty());
    assert_eq!(empty.diff_generation, generation.wrapping_add(1));
}
