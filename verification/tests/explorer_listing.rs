use te::explorer::{adjacent_rows, arrange_files, row_of_name, should_preload, FileEntry};

fn entry(name: &str, is_dir: bool) -> FileEntry {
    FileEntry {
        name: name.to_string(),
        path: format!("/d/{}", name),
        is_dir,
        is_symlink: false,
        is_exec: false,
        is_hidden: name.starts_with('.'),
        size: 10,
    }
}

fn names(v: &[FileEntry]) -> Vec<&str> {
    v.iter().map(|e| e.name.as_str()).collect()
}

#[test]
fn directories_first_then_names_ignoring_case() {
    let items = vec![
        entry("b.txt", false),
        entry("src", true),
        entry("A.md", false),
        entry(".git", true),
        entry("Docs", true),
        entry(".env", false),
    ];
    let shown = arrange_files(items.clone(), false, "/d", true);
    assert_eq!(names(&shown), vec!["..", "Docs", "src", "A.md", "b.txt"]);
    assert_eq!(shown[0].path, "/d");
    assert!(shown[0].is_dir);
    let all = arrange_files(items, true, "/", false);
    assert_eq!(names(&all), vec![".git", "Docs", "src", ".env", "A.md", "b.txt"]);
}

#[test]
fn preloading_skips_dirs_images_and_large_files() {
    assert!(should_preload(&entry("main.rs", false), Some(100)));
    assert!(!should_preload(&entry("src", true), Some(1)));
    assert!(!should_preload(&entry("logo.PNG", false), Some(1)));
    assert!(!should_preload(&entry("big.log", false), Some(6 * 1024 * 1024)));
    assert!(should_preload(&entry(".png", false), None));
    assert!(should_preload(&entry("noext", false), None));
}

#[test]
fn neighbours_and_names() {
    assert_eq!(adjacent_rows(3, Some(0)), (None, Some(1)));
    assert_eq!(adjacent_rows(3, Some(2)), (Some(1), None));
    assert_eq!(adjacent_rows(3, None), (None, None));
    let files = vec![entry("a", false), entry("b", false)];
    assert_eq!(row_of_name(&files, "b"), Some(1));
    assert_eq!(row_of_name(&files, "c"), None);
}
