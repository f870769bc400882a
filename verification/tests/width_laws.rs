use te::diff::inline::{inline_spans, pair_inline_spans};
use te::diff::width::{col_for_byte, display_width, expand_tabs, pad_to_width};
use te::git::{render_side_by_side_cell_lines, GitDiffCell, GitDiffCellKind};

#[test]
fn widths_add_up() {
    let a = "ab\tc";
    let b = "日本x";
    assert_eq!(display_width(&format!("{}{}", a, b)), display_width(a) + display_width(b));
    assert_eq!(display_width(""), 0);
    assert_eq!(display_width("\t"), 4);
}

#[test]
fn expanded_tabs_are_gone_and_stable() {
    let s = "\tif x {\t}";
    let e = expand_tabs(s);
    assert!(!e.contains('\t'));
    assert_eq!(display_width(&e), display_width(s));
    assert_eq!(expand_tabs(&e), e);
}

#[test]
fn padding_fills_the_width() {
    let r = pad_to_width("ab".to_string(), 7);
    assert_eq!(r, "ab     ");
    assert_eq!(display_width(&r), 7);
}

#[test]
fn bytes_past_the_end_take_the_full_width() {
    let s = "a日b";
    assert_eq!(col_for_byte(s, 0), 0);
    assert_eq!(col_for_byte(s, s.len()), display_width(s));
    assert_eq!(col_for_byte(s, s.len() + 10), display_width(s));
}

#[test]
fn pairs_carry_their_spans() {
    let deletes = vec!["let x = 1;".to_string(), "zzz".to_string()];
    let adds = vec!["let x = 2;".to_string()];
    let (ds, as_, ps) = pair_inline_spans(&deletes, &adds);
    for p in &ps {
        let (d, a) = inline_spans(&deletes[p.delete_index], &adds[p.add_index]);
        assert_eq!(ds[p.delete_index], d);
        assert_eq!(as_[p.add_index], a);
    }
    for (i, d) in ds.iter().enumerate() {
        if !ps.iter().any(|p| p.delete_index == i) {
            assert!(d.is_empty());
        }
    }
}

#[test]
fn wrapped_cell_lines_have_their_shape() {
    let cell = GitDiffCell { line_no: Some(12), text: "alpha beta gamma delta".to_string(), kind: GitDiffCellKind::Add };
    assert_eq!(render_side_by_side_cell_lines(&cell, 0, 0, true), vec![String::new()]);
    let lines = render_side_by_side_cell_lines(&cell, 16, 0, true);
    assert!(lines.len() > 1);
    for l in &lines[1..] {
        assert!(l.starts_with("      "));
    }
    assert_eq!(render_side_by_side_cell_lines(&cell, 40, 0, true).len(), 1);
    assert_eq!(render_side_by_side_cell_lines(&cell, 16, 0, false).len(), 1);
}
