use te::branch::{BranchEntry, BranchListItem, BranchUi};
use te::clipboard::{clipboard_sequence, osc52_sequence, tmux_passthrough};
use te::theme::{idx_to_color, palette, Color, Theme};

fn entry(name: &str, remote: bool) -> BranchEntry {
    BranchEntry {
        name: name.to_string(),
        is_current: name == "main",
        is_remote: remote,
        upstream: None,
        track: None,
    }
}

fn branches() -> Vec<BranchEntry> {
    vec![
        entry("main", false),
        entry("origin/main", true),
        entry("feature/x", false),
        entry("upstream/dev", true),
        entry("origin/feature/x", true),
    ]
}

fn describe(items: &[BranchListItem]) -> Vec<String> {
    items
        .iter()
        .map(|i| match i {
            BranchListItem::Header(t) => format!("[{}]", t),
            BranchListItem::Branch { idx, depth } => format!("{}:{}", idx, depth),
        })
        .collect()
}

#[test]
fn branch_picker_groups_local_and_remote() {
    let mut ui = BranchUi::new();
    ui.set_branches(branches());
    assert_eq!(
        describe(&ui.items),
        vec![
            "[Local]", "2:1", "0:0", "[Remote]", "[  origin]", "4:2", "1:1", "[  upstream]", "3:1"
        ]
    );
    assert_eq!(ui.selected, Some(1));
    assert_eq!(ui.selected_branch().unwrap().name, "feature/x");
}

#[test]
fn branch_query_is_fuzzy_and_keeps_selection() {
    let mut ui = BranchUi::new();
    ui.set_branches(branches());
    ui.selected = Some(6);
    assert_eq!(ui.selected_branch().unwrap().name, "origin/main");
    ui.query = " MA ".to_string();
    ui.update_filtered();
    assert_eq!(describe(&ui.items), vec!["[Local]", "0:0", "[Remote]", "[  origin]", "1:1"]);
    assert_eq!(ui.selected, Some(4));
    ui.query = "qqq".to_string();
    ui.update_filtered();
    assert!(ui.items.is_empty());
    assert_eq!(ui.selected, None);
}

#[test]
fn branch_selection_skips_headers() {
    let mut ui = BranchUi::new();
    ui.set_branches(branches());
    ui.selected = Some(2);
    ui.move_selection(1);
    assert_eq!(ui.selected, Some(5));
    ui.move_selection(-1);
    assert_eq!(ui.selected, Some(2));
    ui.move_selection(-10);
    assert_eq!(ui.selected, Some(0));
    ui.move_selection(100);
    assert_eq!(ui.selected, Some(8));
}

#[test]
fn palettes_hold_theme_colors_and_tints() {
    let p = palette(Theme::Mocha);
    assert_eq!(p.bg, Color::Rgb(30, 30, 46));
    assert_eq!(p.diff_add_bg, Color::Rgb(54, 69, 79));
    assert_eq!(p.diff_hunk_bg, Color::Rgb(51, 46, 70));
    let t = palette(Theme::Terminal);
    assert_eq!(t.diff_del_bg, Color::Rgb(62, 39, 41));
    assert_eq!(t.line_num_color, Color::Rgb(88, 91, 112));
    assert_eq!(Theme::TokyoNightStorm.label(), "Tokyo Night");
    assert_eq!(Theme::GruvboxDarkHard.label(), "Gruvbox");
}

#[test]
fn indexed_colors() {
    assert_eq!(idx_to_color(0), Color::Black);
    assert_eq!(idx_to_color(15), Color::Gray);
    assert_eq!(idx_to_color(16), Color::Indexed(16));
}

#[test]
fn osc52_and_tmux_sequences() {
    assert_eq!(osc52_sequence("hi"), "\x1b]52;c;aGk=\x07");
    assert_eq!(osc52_sequence("héllo"), "\x1b]52;c;aMOpbGxv\x07");
    assert_eq!(tmux_passthrough("\x1bX"), "\x1bPtmux;\x1b\x1bX\x1b\\");
    assert_eq!(clipboard_sequence("hi", false), "\x1b]52;c;aGk=\x07");
    assert_eq!(clipboard_sequence("hi", true), "\x1bPtmux;\x1b\x1b]52;c;aGk=\x07\x1b\\");
}
