use te::diff::width::{
    byte_index_for_col, char_width, col_for_byte, display_width, expand_tabs, pad_to_width,
    slice_chars, truncate_to_width,
};

#[test]
fn slice_chars_is_utf8_safe() {
    assert_eq!(slice_chars("ab中文cd", 2, 4), "中文");
    assert_eq!(truncate_to_width("😀abc", 2), "😀");
}

#[test]
fn byte_col_conversions_are_boundary_safe() {
    let s = "a中😀z";
    let byte = byte_index_for_col(s, 2);
    assert!(s.is_char_boundary(byte));
    assert!(col_for_byte(s, byte) <= 2);
}

#[test]
fn tab_is_four_columns() {
    assert_eq!(char_width('\t'), 4);
    assert_eq!(display_width("a\tb"), 6);
    assert_eq!(expand_tabs("a\tb"), "a    b");
}

#[test]
fn control_chars_take_no_column() {
    assert_eq!(char_width('\u{1}'), 0);
    assert_eq!(display_width("a\u{7f}b"), 2);
}

#[test]
fn pad_and_truncate() {
    assert_eq!(pad_to_width("ab".to_string(), 4), "ab  ");
    assert_eq!(pad_to_width("abcdef".to_string(), 3), "abc");
    assert_eq!(pad_to_width("abc".to_string(), 0), "");
    assert_eq!(truncate_to_width("a\tb", 3), "a");
    assert_eq!(truncate_to_width("a\tb", 5), "a    ");
}

#[test]
fn slice_skips_columns_and_expands_tabs() {
    assert_eq!(slice_chars("abcdef", 2, 3), "cde");
    assert_eq!(slice_chars("a\tb", 1, 10), "    b");
    assert_eq!(slice_chars("abc", 0, 0), "");
    // a wide character that straddles the window start is shown whole
    assert_eq!(slice_chars("中文", 1, 4), "中文");
}

#[test]
fn byte_index_for_col_values() {
    let s = "a中😀z";
    assert_eq!(byte_index_for_col(s, 0), 0);
    assert_eq!(byte_index_for_col(s, 1), 1);
    assert_eq!(byte_index_for_col(s, 2), 1);
    assert_eq!(byte_index_for_col(s, 3), 4);
    assert_eq!(byte_index_for_col(s, 100), s.len());
    assert_eq!(col_for_byte(s, 4), 3);
    assert_eq!(col_for_byte(s, 0), 0);
}
