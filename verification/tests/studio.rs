use launch_deck::studio::{append_handoff, error_lines, newest_entry, split_lines, tail_start, tail_text};

#[test]
fn error_lines_keeps_matches_and_bounds_them() {
    let log = "ok line\nERROR: one\nfine\npanic: two\nError three\n";
    let got = error_lines(log, 2);
    assert!(got.matched, "error-marked lines must report matched");
    assert_eq!(got.lines, vec!["panic: two", "Error three"]);
}

#[test]
fn a_clean_log_falls_back_to_the_raw_tail() {
    let mut log = String::new();
    for i in 0..40 {
        log.push_str(&format!("line {i}\n"));
    }
    let got = error_lines(&log, 50);
    assert!(!got.matched, "a raw-tail fallback must say it is one");
    assert_eq!(got.lines.len(), 20);
    assert_eq!(got.lines.first().unwrap(), "line 20");
    assert_eq!(got.lines.last().unwrap(), "line 39");
}

#[test]
fn handoff_appends_below_an_existing_backlog() {
    let existing = "# NEXT\n\n1. real backlog item\n";
    let got = append_handoff(Some(existing), "Do the thing.", "2026-08-31");
    assert!(got.starts_with("# NEXT\n\n1. real backlog item"));
    assert!(got.contains("## Handed off from Launch Deck (2026-08-31)"));
    assert!(got.trim_end().ends_with("Do the thing."));
}

#[test]
fn handoff_creates_the_file_when_absent() {
    let got = append_handoff(None, "Fresh prompt.", "2026-08-31");
    assert!(got.starts_with("# NEXT\n"));
    assert!(got.contains("Fresh prompt."));
}

#[test]
fn handoff_text_is_exact() {
    assert_eq!(
        append_handoff(Some("body  \n\n"), "P", "S"),
        "body\n\n---\n\n## Handed off from Launch Deck (S)\n\nP\n"
    );
    assert_eq!(
        append_handoff(None, "P", "S"),
        "# NEXT\n\n## Handed off from Launch Deck (S)\n\nP\n"
    );
}

#[test]
fn the_fallback_is_bounded_by_max_too() {
    let got = error_lines("a\nb\nc\n", 2);
    assert!(!got.matched);
    assert_eq!(got.lines, vec!["b", "c"]);
}

#[test]
fn warnings_are_not_error_marks() {
    let got = error_lines("WARN: slow\nTraceback (most recent call last):\n", 10);
    assert!(got.matched);
    assert_eq!(got.lines, vec!["Traceback (most recent call last):"]);
}

#[test]
fn lines_split_like_str_lines() {
    assert_eq!(split_lines("a\r\nb\n\nc"), vec!["a", "b", "", "c"]);
    assert_eq!(split_lines("x\n"), vec!["x"]);
    assert!(split_lines("").is_empty());
    assert_eq!(split_lines("y\r"), vec!["y\r"]);
}

#[test]
fn newest_file_picks_by_mtime_and_ignores_dirs() {
    // old.log, a sub-directory written later, then new.log.
    let entries = [(true, Some(100_u128)), (false, Some(500)), (true, Some(130))];
    assert_eq!(newest_entry(&entries), Some(2));
    assert_eq!(newest_entry(&[(false, Some(1))]), None);
    assert_eq!(newest_entry(&[(true, None)]), None);
}

#[test]
fn a_tie_on_modification_time_goes_to_the_last_entry() {
    let entries = [(true, Some(7_u128)), (true, Some(9)), (true, Some(9)), (true, Some(3))];
    assert_eq!(newest_entry(&entries), Some(2));
}

#[test]
fn read_tail_returns_whole_small_files_and_seeks_large_ones() {
    let file = "first\nsecond\nthird\n";
    let len = file.len() as u64;
    assert_eq!(tail_start(len, 1024), None);
    assert_eq!(tail_text(file, false), "first\nsecond\nthird\n");
    // A tail cut mid-line drops the partial first line.
    let start = tail_start(len, 13).expect("a seek");
    assert_eq!(start, 6);
    assert_eq!(tail_text(&file[start as usize..], true), "third\n");
    assert_eq!(tail_text("no newline at all", true), "no newline at all");
}
