use te::git_diff_loader::{tracked_diff_lines, untracked_dir_listing, untracked_file_diff};

#[test]
fn test_load_untracked_file() {
    let result = untracked_file_diff("test.txt", Ok("line 1\nline 2\n".to_string()));
    assert!(result.iter().any(|l| l.contains("diff --git")));
    assert!(result.iter().any(|l| l == "+line 1"));
    assert!(result.iter().any(|l| l == "+line 2"));
}

#[test]
fn test_load_untracked_directory() {
    let result = untracked_dir_listing("subdir", Ok(vec![("file.txt".to_string(), false)]));
    assert!(result.iter().any(|l| l.contains("Untracked directory")));
}

#[test]
fn untracked_file_diff_has_exact_header() {
    let result = untracked_file_diff("a/b.rs", Ok("x\n".to_string()));
    assert_eq!(
        result,
        vec![
            "diff --git a/a/b.rs b/a/b.rs",
            "new file mode 100644",
            "--- /dev/null",
            "+++ b/a/b.rs",
            "@@ -0,0 +1,1 @@",
            "+x",
        ]
    );
}

#[test]
fn unreadable_untracked_file_says_so() {
    let result = untracked_file_diff("f", Err("denied".to_string()));
    assert_eq!(result, vec!["Cannot read file: denied"]);
}

#[test]
fn directory_listing_marks_files_and_indents_dirs() {
    let result = untracked_dir_listing(
        "d",
        Ok(vec![("sub".to_string(), true), ("f.txt".to_string(), false)]),
    );
    assert_eq!(result, vec!["Untracked directory: d/", "", "  sub", "  + f.txt"]);
    let err = untracked_dir_listing("d", Err("gone".to_string()));
    assert_eq!(err, vec!["Cannot read directory: gone"]);
}

#[test]
fn tracked_diff_blank_and_failure() {
    assert_eq!(tracked_diff_lines(Ok("  \n".to_string())).unwrap(), vec!["No diff"]);
    assert_eq!(
        tracked_diff_lines(Ok("a\nb\n".to_string())).unwrap(),
        vec!["a".to_string(), "b".to_string()]
    );
    assert_eq!(tracked_diff_lines(Err("bad".to_string())).unwrap_err(), "git diff failed: bad");
}
