use te::git::{ChangeBlock, DiffHunk};
use te::revert::{hunk_patch, revert_entry, reverted_content, UndoEntry, UndoHistory, UNDO_LIMIT};

fn block(new_start: u32, new_lines: &[&str], old_lines: &[&str]) -> ChangeBlock {
    ChangeBlock {
        display_row: 0,
        file_path: "src/lib.rs".to_string(),
        new_start,
        new_lines: new_lines.iter().map(|s| s.to_string()).collect(),
        old_lines: old_lines.iter().map(|s| s.to_string()).collect(),
    }
}

fn entry(n: usize) -> UndoEntry {
    UndoEntry {
        description: format!("edit {}", n),
        file_path: "f.txt".to_string(),
        old_content: format!("old {}", n),
        new_content: format!("new {}", n),
    }
}

#[test]
fn block_is_put_back_to_its_old_lines() {
    let b = block(2, &["B"], &["b1", "b2"]);
    assert_eq!(reverted_content("a\nB\nc\n", &b).as_deref(), Some("a\nb1\nb2\nc\n"));
}

#[test]
fn file_without_final_newline_keeps_it_off() {
    let b = block(2, &["B"], &["b"]);
    assert_eq!(reverted_content("a\nB", &b).as_deref(), Some("a\nb"));
}

#[test]
fn added_lines_are_removed() {
    let b = block(1, &["x", "y"], &[]);
    assert_eq!(reverted_content("x\ny\nz\n", &b).as_deref(), Some("z\n"));
    // Every line removed from a file without a final newline leaves nothing.
    let all = block(1, &["x"], &[]);
    assert_eq!(reverted_content("x", &all).as_deref(), Some(""));
}

#[test]
fn start_zero_counts_as_first_line() {
    let b = block(0, &["x"], &["w"]);
    assert_eq!(reverted_content("x\ny\n", &b).as_deref(), Some("w\ny\n"));
}

#[test]
fn crlf_lines_come_back_with_plain_newlines() {
    let b = block(1, &["x"], &["w"]);
    assert_eq!(reverted_content("x\r\ny\r\n", &b).as_deref(), Some("w\ny\n"));
}

#[test]
fn block_past_the_end_is_refused() {
    let b = block(3, &["c", "d"], &["C"]);
    assert_eq!(reverted_content("a\nb\nc\n", &b), None);
    assert!(revert_entry("/r/src/lib.rs".to_string(), "a\nb\nc\n".to_string(), &b).is_none());
}

#[test]
fn revert_entry_records_both_texts() {
    let b = block(1, &["new"], &["old"]);
    let e = revert_entry("/repo/src/lib.rs".to_string(), "new\n".to_string(), &b).unwrap();
    assert_eq!(e.description, "Revert change in src/lib.rs");
    assert_eq!(e.file_path, "/repo/src/lib.rs");
    assert_eq!(e.old_content, "new\n");
    assert_eq!(e.new_content, "old\n");
}

#[test]
fn hunk_patch_joins_lines() {
    let h = DiffHunk {
        display_row: 0,
        sbs_display_row: 0,
        lines: vec!["--- a/f".to_string(), "+++ b/f".to_string(), "@@ -1 +1 @@".to_string(), "-x".to_string(), "+y".to_string()],
    };
    assert_eq!(hunk_patch(&h), "--- a/f\n+++ b/f\n@@ -1 +1 @@\n-x\n+y\n");
    let empty = DiffHunk { display_row: 0, sbs_display_row: 0, lines: Vec::new() };
    assert_eq!(hunk_patch(&empty), "\n");
}

#[test]
fn undo_then_redo_restores_history() {
    let mut h = UndoHistory::new();
    h.record(entry(1));
    h.record(entry(2));
    let e = h.take_undo().unwrap();
    assert_eq!(e.description, "edit 2");
    h.settle_undo(e, true);
    assert_eq!(h.undo_stack.len(), 1);
    assert_eq!(h.redo_stack.len(), 1);
    let r = h.take_redo().unwrap();
    assert_eq!(r.new_content, "new 2");
    h.settle_redo(r, true);
    assert_eq!(h.undo_stack.len(), 2);
    assert_eq!(h.undo_stack[1].description, "edit 2");
    assert!(h.redo_stack.is_empty());
}

#[test]
fn failed_write_keeps_history() {
    let mut h = UndoHistory::new();
    h.record(entry(1));
    let e = h.take_undo().unwrap();
    h.settle_undo(e, false);
    assert_eq!(h.undo_stack.len(), 1);
    assert!(h.redo_stack.is_empty());
    assert!(h.take_redo().is_none());
    assert!(UndoHistory::new().take_undo().is_none());
}

#[test]
fn new_record_clears_redo_and_forget_drops_it() {
    let mut h = UndoHistory::new();
    h.record(entry(1));
    let e = h.take_undo().unwrap();
    h.settle_undo(e, true);
    h.record(entry(2));
    assert!(h.redo_stack.is_empty());
    h.forget_latest();
    assert!(h.undo_stack.is_empty());
}

#[test]
fn history_keeps_the_latest_fifty() {
    let mut h = UndoHistory::new();
    for n in 0..60 {
        h.record(entry(n));
    }
    assert_eq!(h.undo_stack.len(), UNDO_LIMIT);
    assert_eq!(h.undo_stack[0].description, "edit 10");
    assert_eq!(h.undo_stack[UNDO_LIMIT - 1].description, "edit 59");
}
