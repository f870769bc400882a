use te::git::{FlatNodeType, GitFileEntry, GitSection, GitState};

fn items() -> Vec<String> {
    [
        "## main...origin/main [ahead 2, behind 1]",
        " M src/b.rs",
        "M  src/a.rs",
        "?? new.txt",
        "R  old.rs",
        "renamed.rs",
        "UU conflict.rs",
    ]
    .iter()
    .map(|s| s.to_string())
    .collect()
}

fn refreshed() -> GitState {
    let mut g = GitState::new();
    g.refresh_start();
    let entries = g.status_entries(&items());
    g.refresh_finish(entries);
    g
}

#[test]
fn status_output_is_read() {
    let g = refreshed();
    assert_eq!(g.branch, "main");
    assert_eq!(g.ahead, 2);
    assert_eq!(g.behind, 1);
    let paths: Vec<&str> = g.entries.iter().map(|e| e.path.as_str()).collect();
    assert_eq!(paths, vec!["src/b.rs", "src/a.rs", "new.txt", "renamed.rs", "conflict.rs"]);
    assert_eq!(g.entries[3].renamed_from.as_deref(), Some("old.rs"));
    assert!(g.entries[4].is_conflict);
    assert!(g.entries[2].is_untracked);
    assert_eq!(g.section_counts(), (2, 1, 1, 1));
}

#[test]
fn branch_line_without_upstream_counts() {
    let mut g = GitState::new();
    g.parse_status_v1_branch_line("## feature/x");
    assert_eq!(g.branch, "feature/x");
    assert_eq!((g.ahead, g.behind), (0, 0));
    g.parse_status_v1_branch_line("## dev...up/dev [behind 7]");
    assert_eq!(g.branch, "dev");
    assert_eq!((g.ahead, g.behind), (0, 7));
}

#[test]
fn tree_groups_sections_and_directories() {
    let g = refreshed();
    let names: Vec<(&str, FlatNodeType)> =
        g.flat_tree.iter().map(|i| (i.name.as_str(), i.node_type)).collect();
    assert_eq!(
        names,
        vec![
            ("Staged Changes", FlatNodeType::Section),
            ("src", FlatNodeType::Directory),
            ("a.rs", FlatNodeType::File),
            ("renamed.rs", FlatNodeType::File),
            ("Changes", FlatNodeType::Section),
            ("src", FlatNodeType::Directory),
            ("b.rs", FlatNodeType::File),
            ("Untracked", FlatNodeType::Section),
            ("new.txt", FlatNodeType::File),
            ("Conflicts", FlatNodeType::Section),
            ("conflict.rs", FlatNodeType::File),
        ]
    );
}

#[test]
fn tree_selection_and_collapse() {
    let mut g = refreshed();
    g.tree_goto_first();
    assert_eq!(g.tree_selected, Some(0));
    g.tree_move_down();
    g.tree_move_down();
    assert_eq!(g.selected_path().as_deref(), Some("src/a.rs"));
    g.select_tree(1);
    // Only the selected section's directory folds.
    g.collapse_tree_item();
    assert_eq!(g.flat_tree.len(), 10);
    assert!(!g.flat_tree[1].expanded);
    assert_eq!((g.flat_tree[4].name.as_str(), g.flat_tree[4].section), ("src", GitSection::Working));
    assert!(g.flat_tree[4].expanded);
    g.expand_all();
    assert_eq!(g.flat_tree.len(), 11);
    g.collapse_all();
    assert_eq!(g.flat_tree.len(), 9);
    g.tree_goto_last();
    assert_eq!(g.tree_selected, Some(8));
}

#[test]
fn filtered_list_follows_the_section() {
    let mut g = refreshed();
    g.set_section(GitSection::Staged);
    let paths: Vec<&str> = g.filtered.iter().map(|i| g.entries[*i].path.as_str()).collect();
    assert_eq!(paths, vec!["renamed.rs", "src/a.rs"]);
    g.set_section(GitSection::Conflicts);
    assert_eq!(g.filtered, vec![4]);
}

#[test]
fn hunks_are_found_by_display_row() {
    let mut g = GitState::new();
    g.set_diff_lines(
        [
            "diff --git a/x b/x",
            "index 1..2",
            "--- a/x",
            "+++ b/x",
            "@@ -1,2 +1,2 @@",
            " a",
            "-b",
            "+c",
            "@@ -9 +9 @@",
            "-y",
            "+z",
        ]
        .iter()
        .map(|s| s.to_string())
        .collect(),
    );
    assert_eq!(g.diff_hunks.len(), 2);
    assert_eq!(g.diff_hunks[0].display_row, 1);
    assert_eq!(g.diff_hunks[1].display_row, 5);
    assert_eq!(g.diff_hunks[0].lines.len(), 8);
    assert_eq!(g.hunk_at_display_row(3), Some(0));
    assert_eq!(g.hunk_at_display_row(6), Some(1));
    assert_eq!(g.hunk_at_display_row(0), None);
}

#[test]
fn first_file_is_selected() {
    let mut g = refreshed();
    g.select_first_file();
    assert_eq!(g.tree_selected, Some(2));
    let mut empty = GitState::new();
    empty.select_first_file();
    assert_eq!(empty.tree_selected, None);
}

fn entry(path: &str, x: char, y: char) -> GitFileEntry {
    GitFileEntry { path: path.to_string(), x, y, is_untracked: false, is_conflict: false, renamed_from: None }
}

#[test]
fn toggling_a_directory_folds_only_that_section() {
    let mut s = GitState::new();
    s.entries = vec![entry("src/a.rs", 'M', 'M')];
    s.build_tree();
    assert_eq!(s.flat_tree.len(), 6);
    s.select_tree(1);
    s.toggle_tree_expand();
    assert_eq!(s.flat_tree.len(), 5);
    assert!(!s.flat_tree[1].expanded);
    assert_eq!(s.flat_tree[3].name, "src");
    assert_eq!(s.flat_tree[3].section, GitSection::Working);
    assert!(s.flat_tree[3].expanded);
    assert_eq!(s.flat_tree[4].name, "a.rs");
    assert_eq!(s.tree_selected, Some(1));
}

#[test]
fn section_paths_hold_every_listed_file() {
    let mut s = GitState::new();
    s.entries = vec![entry("a.rs", 'M', 'M'), entry("b.rs", ' ', 'M')];
    s.build_tree();
    s.select_tree(2);
    assert_eq!(s.flat_tree[2].name, "Changes");
    assert_eq!(s.selected_tree_paths(), vec!["a.rs", "b.rs"]);
    s.select_tree(0);
    assert_eq!(s.selected_tree_paths(), vec!["a.rs"]);
}
