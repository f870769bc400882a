use te::diff::inline::{inline_spans, pair_changed_lines, pair_inline_spans, LinePair};
use te::diff::InlineSpan;

fn span_texts<'a>(text: &'a str, spans: &[InlineSpan]) -> Vec<&'a str> {
    spans.iter().map(|span| &text[span.start..span.end]).collect()
}

#[test]
fn inline_spans_highlight_changed_word() {
    let old = "let color = \"red\";";
    let new = "let color = \"blue\";";
    let (old_spans, new_spans) = inline_spans(old, new);
    assert_eq!(span_texts(old, &old_spans), vec!["red"]);
    assert_eq!(span_texts(new, &new_spans), vec!["blue"]);
}

#[test]
fn inline_spans_keep_common_prefix_suffix() {
    let old = "prefix call(old_value, keep); suffix";
    let new = "prefix call(new_value, keep); suffix";
    let (old_spans, new_spans) = inline_spans(old, new);
    assert_eq!(span_texts(old, &old_spans), vec!["old_value"]);
    assert_eq!(span_texts(new, &new_spans), vec!["new_value"]);
}

#[test]
fn unrelated_lines_are_not_paired() {
    let old = vec!["alpha beta".to_string()];
    let new = vec!["one two".to_string()];
    assert!(pair_changed_lines(&old, &new).is_empty());
}

#[test]
fn inline_spans_coalesce_small_gaps() {
    let old = "call(foo, bar)";
    let new = "call(baz, qux)";
    let (old_spans, new_spans) = inline_spans(old, new);
    assert_eq!(span_texts(old, &old_spans), vec!["foo, bar"]);
    assert_eq!(span_texts(new, &new_spans), vec!["baz, qux"]);
}

#[test]
fn inline_spans_unicode_safe() {
    let old = "let 标题 = \"红色😀\";";
    let new = "let 标题 = \"蓝色😀\";";
    let (old_spans, new_spans) = inline_spans(old, new);
    for span in old_spans.iter().chain(new_spans.iter()) {
        assert!(old.is_char_boundary(span.start) || new.is_char_boundary(span.start));
        assert!(old.is_char_boundary(span.end) || new.is_char_boundary(span.end));
    }
    assert_eq!(span_texts(old, &old_spans), vec!["红色"]);
    assert_eq!(span_texts(new, &new_spans), vec!["蓝色"]);
}

#[test]
fn pairs_replacements_around_inserted_line() {
    let old = vec!["foo := oldValue + 1".to_string(), "keep()".to_string()];
    let new = vec![
        "inserted()".to_string(),
        "foo := newValue + 1".to_string(),
        "keep()".to_string(),
    ];
    let pairs = pair_changed_lines(&old, &new);
    assert_eq!(
        pairs[0],
        LinePair {
            delete_index: 0,
            add_index: 1
        }
    );
    assert_eq!(
        pairs[1],
        LinePair {
            delete_index: 1,
            add_index: 2
        }
    );
}

#[test]
fn identical_lines_pair_with_no_spans() {
    let old = vec!["same line".to_string()];
    let new = vec!["same line".to_string()];
    let (d, a, pairs) = pair_inline_spans(&old, &new);
    assert_eq!(pairs, vec![LinePair { delete_index: 0, add_index: 0 }]);
    assert!(d[0].is_empty());
    assert!(a[0].is_empty());
}

#[test]
fn unpaired_lines_get_no_spans() {
    let old = vec!["alpha beta".to_string()];
    let new = vec!["one two".to_string()];
    let (d, a, pairs) = pair_inline_spans(&old, &new);
    assert!(pairs.is_empty());
    assert_eq!(d, vec![Vec::<InlineSpan>::new()]);
    assert_eq!(a, vec![Vec::<InlineSpan>::new()]);
}

#[test]
fn pure_insertion_highlights_counterpart_words() {
    let old = "f(a)";
    let new = "f(a, b)";
    let (old_spans, new_spans) = inline_spans(old, new);
    assert_eq!(span_texts(new, &new_spans), vec![", b"]);
    assert!(old_spans.is_empty() || span_texts(old, &old_spans).iter().all(|s| !s.is_empty()));
}
