use te::preview::{
    is_binary_content, PreviewAction, PreviewEvent, PreviewLoad, PreviewResult, BUFFER_LINES,
};

/// Drives a preview load over the lines of an in-memory file, answering
/// each action as the file reader would.
fn run_load(lines: &[String], start_line: usize, visible_lines: usize) -> PreviewResult {
    let (mut load, mut action) = PreviewLoad::new("f.txt".to_string(), start_line, visible_lines);
    let mut next = 0usize;
    loop {
        let event = match action {
            PreviewAction::Open => PreviewEvent::Opened,
            PreviewAction::ReadLine { .. } => {
                if next < lines.len() {
                    let l = lines[next].clone();
                    next += 1;
                    let n = l.len();
                    PreviewEvent::Line(l, n)
                } else {
                    PreviewEvent::Eof
                }
            }
            PreviewAction::Done(result) => return result,
        };
        action = load.step(event);
    }
}

fn numbered_lines(n: usize) -> Vec<String> {
    (1..=n).map(|i| format!("Line {}\n", i)).collect()
}

#[test]
fn test_is_binary_content() {
    assert!(!is_binary_content("Hello, world!"));
    assert!(!is_binary_content("Line with\ttab"));
    assert!(!is_binary_content("Line with\nnewline"));
    assert!(!is_binary_content("Line with\r\nCRLF"));
    assert!(is_binary_content("Binary\x00null"));
    assert!(is_binary_content("\x01SOH character"));
}

#[test]
fn test_streaming_preview_full_load() {
    let result = run_load(&numbered_lines(10), 0, 1000);
    match result {
        PreviewResult::Ready { content, truncated, .. } => {
            assert!(!truncated);
            let lines: Vec<_> = content.lines().collect();
            assert_eq!(lines.len(), 10);
            assert_eq!(lines[0], "Line 1");
            assert_eq!(lines[9], "Line 10");
        }
        _ => panic!("Expected Ready result, got {:?}", result),
    }
}

#[test]
fn test_streaming_preview_partial_load() {
    let result = run_load(&numbered_lines(200), 40, 20);
    match result {
        PreviewResult::Partial { content, start_line, has_more_before, has_more_after, .. } => {
            assert_eq!(start_line, 40);
            assert!(has_more_before);
            assert!(has_more_after);
            let lines: Vec<_> = content.lines().collect();
            assert!(lines.len() >= 20);
            assert_eq!(lines[0], "Line 41");
        }
        _ => panic!("Expected Partial result for mid-file load"),
    }
}

#[test]
fn test_streaming_preview_eof_before_start() {
    let result = run_load(&numbered_lines(5), 100, 20);
    match result {
        PreviewResult::Partial {
            content,
            start_line,
            lines_loaded,
            has_more_before,
            has_more_after,
            ..
        } => {
            assert_eq!(start_line, 100);
            assert_eq!(lines_loaded, 0);
            assert!(has_more_before);
            assert!(!has_more_after);
            assert!(content.is_empty());
        }
        _ => panic!("Expected Partial result with empty content"),
    }
}

#[test]
fn partial_load_reads_the_window_and_its_buffer() {
    let result = run_load(&numbered_lines(200), 40, 20);
    match result {
        PreviewResult::Partial { content, lines_loaded, .. } => {
            assert_eq!(lines_loaded, 20 + BUFFER_LINES);
            let lines: Vec<_> = content.lines().collect();
            assert_eq!(lines.len(), 70);
            assert_eq!(lines[69], "Line 110");
        }
        _ => panic!("expected a partial load"),
    }
}

#[test]
fn window_that_reaches_the_end_has_nothing_after() {
    let result = run_load(&numbered_lines(30), 10, 5);
    match result {
        PreviewResult::Partial { lines_loaded, has_more_after, has_more_before, .. } => {
            assert_eq!(lines_loaded, 20);
            assert!(has_more_before);
            assert!(!has_more_after);
        }
        _ => panic!("expected a partial load"),
    }
}

#[test]
fn file_exactly_filling_the_window_is_ready() {
    let result = run_load(&numbered_lines(60), 0, 10);
    match result {
        PreviewResult::Ready { content, truncated, .. } => {
            assert!(!truncated);
            assert_eq!(content.lines().count(), 60);
        }
        _ => panic!("expected the whole file"),
    }
}

#[test]
fn longer_file_from_the_top_is_partial() {
    let result = run_load(&numbered_lines(61), 0, 10);
    match result {
        PreviewResult::Partial { has_more_before, has_more_after, lines_loaded, .. } => {
            assert!(!has_more_before);
            assert!(has_more_after);
            assert_eq!(lines_loaded, 60);
        }
        _ => panic!("expected a partial load"),
    }
}

#[test]
fn binary_line_stops_the_load() {
    let lines = vec!["text\n".to_string(), "bin\x02ary\n".to_string()];
    match run_load(&lines, 0, 10) {
        PreviewResult::Binary { path } => assert_eq!(path, "f.txt"),
        other => panic!("expected binary, got {:?}", other),
    }
}

#[test]
fn open_failure_is_reported() {
    let (mut load, action) = PreviewLoad::new("x".to_string(), 0, 10);
    assert!(matches!(action, PreviewAction::Open));
    match load.step(PreviewEvent::OpenFailed("denied".to_string())) {
        PreviewAction::Done(PreviewResult::Error { path, error }) => {
            assert_eq!(path, "x");
            assert_eq!(error, "Could not open file: denied");
        }
        _ => panic!("expected an error"),
    }
}

#[test]
fn read_failure_before_any_content_is_reported() {
    let (mut load, _) = PreviewLoad::new("x".to_string(), 0, 10);
    let a = load.step(PreviewEvent::Opened);
    assert!(matches!(a, PreviewAction::ReadLine { check_cancel: true }));
    match load.step(PreviewEvent::ReadFailed("io".to_string())) {
        PreviewAction::Done(PreviewResult::Error { error, .. }) => {
            assert_eq!(error, "Error reading file: io")
        }
        _ => panic!("expected an error"),
    }
}

#[test]
fn read_failure_after_content_keeps_what_was_read() {
    let (mut load, _) = PreviewLoad::new("x".to_string(), 0, 10);
    load.step(PreviewEvent::Opened);
    load.step(PreviewEvent::Line("a\n".to_string(), 2));
    match load.step(PreviewEvent::ReadFailed("io".to_string())) {
        PreviewAction::Done(PreviewResult::Ready { content, .. }) => assert_eq!(content, "a\n"),
        _ => panic!("expected the content read so far"),
    }
}

#[test]
fn cancelling_ends_the_load() {
    let (mut load, _) = PreviewLoad::new("x".to_string(), 3, 10);
    load.step(PreviewEvent::Opened);
    assert!(matches!(load.step(PreviewEvent::Cancelled), PreviewAction::Done(PreviewResult::Cancelled)));
}
