use te::commit::{CommitFocus, CommitState};
use te::conflict::{apply_conflict_resolution, load_conflicts, ConflictLoad, ConflictResolution, ConflictUi};

fn editor(text: &str, cursor: usize) -> CommitState {
    let mut s = CommitState::new();
    s.message = text.to_string();
    s.cursor = cursor;
    s
}

#[test]
fn new_editor_is_empty() {
    let s = CommitState::new();
    assert!(!s.open);
    assert_eq!(s.focus, CommitFocus::Message);
    assert_eq!(s.message, "");
    assert_eq!(s.cursor, 0);
    assert_eq!(s.cursor_line_col(), (0, 0));
}

#[test]
fn typing_and_erasing() {
    let mut s = CommitState::new();
    for c in "héllo".chars() {
        s.insert_char(c);
    }
    assert_eq!(s.message, "héllo");
    assert_eq!(s.cursor, 5);
    s.backspace();
    assert_eq!(s.message, "héll");
    s.move_home();
    s.delete();
    assert_eq!(s.message, "éll");
    assert_eq!(s.cursor, 0);
    s.backspace();
    assert_eq!(s.message, "éll");
}

#[test]
fn cursor_moves_by_line() {
    let mut s = editor("ab\ncde\nf", 4);
    assert_eq!(s.cursor_line_col(), (1, 1));
    s.move_home();
    assert_eq!(s.cursor, 3);
    s.move_end();
    assert_eq!(s.cursor, 6);
    s.move_right();
    assert_eq!(s.cursor_line_col(), (2, 0));
    s.move_left();
    s.move_left();
    assert_eq!(s.cursor_line_col(), (1, 2));
}

#[test]
fn scrolling_keeps_the_cursor_in_view() {
    let mut s = editor("0\n1\n2\n3\n4\n5\n6", 12);
    s.ensure_cursor_visible(3);
    assert_eq!(s.scroll_y, 4);
    s.cursor = 0;
    s.ensure_cursor_visible(3);
    assert_eq!(s.scroll_y, 0);
}

#[test]
fn status_is_set() {
    let mut s = CommitState::new();
    s.set_status("Committed".to_string());
    assert_eq!(s.status.as_deref(), Some("Committed"));
}

const CONFLICTED: &str = "top\n<<<<<<< HEAD\nmine\n=======\ntheirs\n>>>>>>> other\nmiddle\n<<<<<<< HEAD\na\n=======\n>>>>>>> x\nend";

#[test]
fn conflict_blocks_are_read() {
    let f = load_conflicts(CONFLICTED);
    assert_eq!(f.blocks.len(), 2);
    assert_eq!(f.blocks[0].ours, vec!["mine"]);
    assert_eq!(f.blocks[0].theirs, vec!["theirs"]);
    assert_eq!(f.blocks[1].ours, vec!["a"]);
    assert!(f.blocks[1].theirs.is_empty());
}

#[test]
fn unterminated_block_is_ignored() {
    let f = load_conflicts("<<<<<<< HEAD\nx\n=======\ny");
    assert!(f.blocks.is_empty());
}

#[test]
fn resolving_replaces_one_block() {
    let ours = apply_conflict_resolution(CONFLICTED, 0, ConflictResolution::Ours).unwrap();
    assert_eq!(
        ours,
        "top\nmine\nmiddle\n<<<<<<< HEAD\na\n=======\n>>>>>>> x\nend"
    );
    let theirs = apply_conflict_resolution(CONFLICTED, 1, ConflictResolution::Theirs).unwrap();
    assert_eq!(
        theirs,
        "top\n<<<<<<< HEAD\nmine\n=======\ntheirs\n>>>>>>> other\nmiddle\nend"
    );
}

#[test]
fn both_sides_are_kept_with_a_blank_line_between() {
    let both = apply_conflict_resolution(CONFLICTED, 0, ConflictResolution::Both).unwrap();
    assert!(both.starts_with("top\nmine\n\ntheirs\nmiddle\n"));
}

#[test]
fn missing_block_is_an_error() {
    assert_eq!(
        apply_conflict_resolution(CONFLICTED, 2, ConflictResolution::Ours).unwrap_err(),
        "Conflict block not found"
    );
}

#[test]
fn conflict_view_loads_and_moves_between_blocks() {
    let mut ui = ConflictUi::new();
    assert!(matches!(ui.needed(None, true), ConflictLoad::Reset));
    assert!(matches!(ui.needed(Some(("a.rs", false)), true), ConflictLoad::Reset));
    assert!(matches!(ui.needed(Some(("a.rs", true)), false), ConflictLoad::Reset));
    match ui.needed(Some(("a.rs", true)), true) {
        ConflictLoad::Read(p) => assert_eq!(p, "a.rs"),
        _ => panic!("expected a read"),
    }
    assert_eq!(ui.change_block(1).as_deref(), Some("No conflicts loaded"));
    let text = "<<<<<<< HEAD\na\n=======\nb\n>>>>>>> x\nmid\n<<<<<<< HEAD\nc\n=======\nd\n>>>>>>> x\n";
    assert_eq!(ui.loaded("a.rs".to_string(), Ok(load_conflicts(text))), None);
    assert!(matches!(ui.needed(Some(("a.rs", true)), true), ConflictLoad::Keep));
    ui.scroll_y = 4;
    assert_eq!(ui.change_block(5), None);
    assert_eq!(ui.selected_block, 1);
    assert_eq!(ui.scroll_y, 0);
    assert_eq!(ui.change_block(-3), None);
    assert_eq!(ui.selected_block, 0);
    assert_eq!(ui.loaded("b.rs".to_string(), Err("unreadable".to_string())).as_deref(), Some("unreadable"));
    assert!(ui.file.is_none());
    assert_eq!(ui.change_block(1).as_deref(), Some("No conflicts loaded"));
    ui.loaded("c.rs".to_string(), Ok(load_conflicts("plain\n")));
    assert_eq!(ui.change_block(1).as_deref(), Some("No conflict markers found"));
    ui.reset();
    assert!(ui.path.is_none());
    assert_eq!(te::git_actions::resolve_command("a.rs"), "git add -- a.rs");
}
