use te::diff::parse::{parse_unified_diff, ParsedDiffLineKind};
use te::diff::side_by_side::parse_hunk_header;
use te::diff::unified::diff_git_path;
use te::diff::{
    build_side_by_side_rows, build_unified_rows, GitDiffCellKind, GitDiffRow, UnifiedRowKind,
};

fn sample_lines(body: &[&str]) -> Vec<String> {
    let mut lines = vec![
        "diff --git a/main.rs b/main.rs".to_string(),
        "--- a/main.rs".to_string(),
        "+++ b/main.rs".to_string(),
        "@@ -10,3 +20,4 @@ fn demo() {".to_string(),
    ];
    lines.extend(body.iter().map(|line| line.to_string()));
    lines
}

#[test]
fn side_by_side_pairs_similar_replacement_rows() {
    let rows = build_side_by_side_rows(&sample_lines(&[
        "-foo := oldValue + 1",
        "+foo := newValue + 1",
    ]));
    let paired = rows
        .iter()
        .find_map(|row| match row {
            GitDiffRow::Split { old, new }
                if old.kind == GitDiffCellKind::Delete && new.kind == GitDiffCellKind::Add =>
            {
                Some((old, new))
            }
            _ => None,
        })
        .expect("paired row");
    assert_eq!(paired.0.line_no, Some(10));
    assert_eq!(paired.1.line_no, Some(20));
    assert!(!paired.0.inline_spans.is_empty());
    assert!(!paired.1.inline_spans.is_empty());
}

#[test]
fn side_by_side_handles_inserted_line_between_replacements() {
    let rows = build_side_by_side_rows(&sample_lines(&[
        "-foo := oldValue + 1",
        "-keep()",
        "+inserted()",
        "+foo := newValue + 1",
        "+keep()",
    ]));
    let split_rows: Vec<_> = rows
        .iter()
        .filter_map(|row| match row {
            GitDiffRow::Split { old, new } => {
                Some((old.kind, new.kind, old.text.as_str(), new.text.as_str()))
            }
            _ => None,
        })
        .collect();
    assert!(
        split_rows
            .iter()
            .any(|row| row.1 == GitDiffCellKind::Add && row.3 == "inserted()")
    );
    assert!(split_rows.iter().any(|row| row.0 == GitDiffCellKind::Delete
        && row.1 == GitDiffCellKind::Add
        && row.2.contains("oldValue")
        && row.3.contains("newValue")));
}

#[test]
fn side_by_side_leaves_unrelated_changes_unpaired() {
    let rows = build_side_by_side_rows(&sample_lines(&["-alpha beta", "+one two"]));
    let split_rows: Vec<_> = rows
        .iter()
        .filter(|row| matches!(row, GitDiffRow::Split { .. }))
        .collect();
    assert_eq!(split_rows.len(), 2);
    assert!(
        matches!(split_rows[0], GitDiffRow::Split { old, new } if old.kind == GitDiffCellKind::Delete && new.kind == GitDiffCellKind::Empty)
    );
    assert!(
        matches!(split_rows[1], GitDiffRow::Split { old, new } if old.kind == GitDiffCellKind::Empty && new.kind == GitDiffCellKind::Add)
    );
}

#[test]
fn side_by_side_context_numbers_advance() {
    let rows = build_side_by_side_rows(&sample_lines(&[" a", " b\tc"]));
    let cells: Vec<_> = rows
        .iter()
        .filter_map(|row| match row {
            GitDiffRow::Split { old, new } => Some((old.line_no, new.line_no, old.text.clone())),
            _ => None,
        })
        .collect();
    assert_eq!(
        cells,
        vec![
            (Some(10), Some(20), "a".to_string()),
            (Some(11), Some(21), "b    c".to_string())
        ]
    );
}

#[test]
fn unified_rows_carry_inline_spans() {
    let lines = vec![
        "diff --git a/main.rs b/main.rs".to_string(),
        "@@ -1 +1 @@".to_string(),
        "-let color = \"red\";".to_string(),
        "+let color = \"blue\";".to_string(),
    ];
    let rows = build_unified_rows(&lines);
    let delete = rows
        .iter()
        .find(|row| row.kind == UnifiedRowKind::Delete)
        .unwrap();
    let add = rows
        .iter()
        .find(|row| row.kind == UnifiedRowKind::Add)
        .unwrap();
    assert_eq!(
        &delete.code[delete.inline_spans[0].start..delete.inline_spans[0].end],
        "red"
    );
    assert_eq!(
        &add.code[add.inline_spans[0].start..add.inline_spans[0].end],
        "blue"
    );
}

#[test]
fn unified_rows_classify_metadata() {
    let rows = build_unified_rows(&[
        "diff --git a/a b/a".to_string(),
        "new file mode 100644".to_string(),
        "Binary files /dev/null and b/a differ".to_string(),
    ]);
    assert_eq!(rows[0].kind, UnifiedRowKind::File);
    assert_eq!(rows[1].kind, UnifiedRowKind::Meta);
    assert_eq!(rows[2].kind, UnifiedRowKind::Meta);
}

#[test]
fn unified_rows_file_path_and_markers() {
    let rows = build_unified_rows(&[
        "diff --git a/src/x.rs b/src/x.rs".to_string(),
        " ctx".to_string(),
        "".to_string(),
        "\\ No newline at end of file".to_string(),
        "junk".to_string(),
    ]);
    assert_eq!(rows[0].file_path.as_deref(), Some("src/x.rs"));
    assert_eq!(rows[1].kind, UnifiedRowKind::Context);
    assert_eq!(rows[1].text, " ctx");
    assert_eq!(rows[1].marker, Some(' '));
    assert_eq!(rows[2].kind, UnifiedRowKind::Blank);
    assert_eq!(rows[3].kind, UnifiedRowKind::NoNewline);
    assert_eq!(rows[4].kind, UnifiedRowKind::Preamble);
}

#[test]
fn diff_git_path_values() {
    assert_eq!(diff_git_path("diff --git a/x b/x"), Some("x"));
    assert_eq!(diff_git_path("diff --git a/only"), Some("only"));
    assert_eq!(diff_git_path("index 123"), None);
}

#[test]
fn hunk_header_values() {
    assert_eq!(parse_hunk_header("@@ -10,3 +20,4 @@ fn demo() {"), Some((10, 20)));
    assert_eq!(parse_hunk_header("  @@ -1 +1 @@"), Some((1, 1)));
    assert_eq!(parse_hunk_header("@@ -0,0 +1,2 @@"), Some((0, 1)));
    assert_eq!(parse_hunk_header("@@ -x +1 @@"), None);
    assert_eq!(parse_hunk_header("@@ -1 +1"), None);
    assert_eq!(parse_hunk_header("@@ +1 -1 @@"), None);
    assert_eq!(parse_hunk_header("@@ -99999999999 +1 @@"), None);
}

#[test]
fn parses_file_hunk_and_no_newline_marker() {
    let doc = parse_unified_diff(&[
        "commit abc".to_string(),
        "diff --git a/a.rs b/a.rs".to_string(),
        "--- a/a.rs".to_string(),
        "+++ b/a.rs".to_string(),
        "@@ -1,2 +1,2 @@".to_string(),
        " same".to_string(),
        "-old".to_string(),
        "+new".to_string(),
        "\\ No newline at end of file".to_string(),
    ]);
    assert_eq!(doc.preamble, vec!["commit abc"]);
    assert_eq!(doc.files.len(), 1);
    assert_eq!(doc.files[0].old_name.as_deref(), Some("a/a.rs"));
    assert_eq!(doc.files[0].new_name.as_deref(), Some("b/a.rs"));
    assert_eq!(doc.files[0].hunks[0].old_start, 1);
    assert_eq!(doc.files[0].hunks[0].new_start, 1);
    assert_eq!(
        doc.files[0].hunks[0].lines[1].kind,
        ParsedDiffLineKind::Delete
    );
    assert_eq!(
        doc.files[0].hunks[0].lines[3].kind,
        ParsedDiffLineKind::NoNewline
    );
}

#[test]
fn parse_line_numbers() {
    let doc = parse_unified_diff(&[
        "diff --git a/a b/a".to_string(),
        "@@ -5 +7 @@".to_string(),
        " c".to_string(),
        "-d".to_string(),
        "+e".to_string(),
    ]);
    let lines = &doc.files[0].hunks[0].lines;
    assert_eq!((lines[0].old_line, lines[0].new_line), (Some(5), Some(7)));
    assert_eq!((lines[1].old_line, lines[1].new_line), (Some(6), None));
    assert_eq!((lines[2].old_line, lines[2].new_line), (None, Some(8)));
    assert_eq!(lines[0].text, "c");
}
