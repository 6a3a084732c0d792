use launch_deck::log::{strip_ansi, LogLine, LogStream, RunOutcome};

fn line(text: &str) -> LogLine {
    LogLine { seq: 1, stream: LogStream::Stdout, text: text.to_owned(), at_ms: 0 }
}

#[test]
fn strips_colour_sequences() {
    assert_eq!(strip_ansi("\u{1b}[31mred\u{1b}[0m"), "red");
}

#[test]
fn strips_multi_parameter_sequences() {
    assert_eq!(strip_ansi("\u{1b}[1;32;40mgo\u{1b}[m"), "go");
}

#[test]
fn strips_cursor_movement() {
    assert_eq!(strip_ansi("a\u{1b}[2Kb"), "ab");
}

#[test]
fn strips_osc_title_sequences_terminated_by_bel() {
    assert_eq!(strip_ansi("\u{1b}]0;title\u{7}text"), "text");
}

#[test]
fn strips_osc_terminated_by_string_terminator() {
    assert_eq!(strip_ansi("\u{1b}]0;t\u{1b}\\after"), "after");
}

#[test]
fn leaves_plain_text_untouched() {
    let s = "ready in 431ms";
    assert_eq!(strip_ansi(s), s);
}

#[test]
fn preserves_non_ascii() {
    assert_eq!(strip_ansi("\u{1b}[32m✓ done\u{1b}[0m"), "✓ done");
}

#[test]
fn error_heuristic_catches_common_shapes() {
    assert!(line("Error: cannot find module").looks_like_error());
    assert!(line("ERROR  Build failed").looks_like_error());
    assert!(line("[ERROR] compilation failed").looks_like_error());
    assert!(line("FATAL: unreachable").looks_like_error());
    assert!(line("Traceback (most recent call last):").looks_like_error());
    assert!(line("panic: runtime error").looks_like_error());
}

#[test]
fn error_heuristic_sees_through_colour_codes() {
    assert!(line("\u{1b}[31mError: boom\u{1b}[0m").looks_like_error());
}

#[test]
fn error_heuristic_does_not_fire_on_incidental_mentions() {
    assert!(!line("0 errors, 0 warnings").looks_like_error());
    assert!(!line("added error handling to the parser").looks_like_error());
    assert!(!line("compiled successfully").looks_like_error());
}

#[test]
fn user_stop_is_not_counted_as_a_failure() {
    assert!(!RunOutcome::Stopped.is_failure());
    assert!(!RunOutcome::Killed.is_failure());
    assert!(RunOutcome::Failed.is_failure());
    assert!(RunOutcome::FailedToStart.is_failure());
}

#[test]
fn only_running_is_non_terminal() {
    assert!(!RunOutcome::Running.is_terminal());
    for o in [
        RunOutcome::Succeeded,
        RunOutcome::Failed,
        RunOutcome::Stopped,
        RunOutcome::Killed,
        RunOutcome::FailedToStart,
    ] {
        assert!(o.is_terminal());
    }
}

#[test]
fn deck_lines_are_tagged_as_ours() {
    assert_eq!(LogLine::deck(0, "started".to_owned(), 0).stream, LogStream::Deck);
}

#[test]
fn stream_names_are_the_filter_keys() {
    assert_eq!(LogStream::Stdout.as_str(), "stdout");
    assert_eq!(LogStream::Stderr.as_str(), "stderr");
    assert_eq!(LogStream::Deck.as_str(), "deck");
}

#[test]
fn a_lone_escape_at_the_end_is_dropped() {
    assert_eq!(strip_ansi("done\u{1b}"), "done");
}

#[test]
fn stripped_text_has_no_escape_and_strips_to_itself() {
    let raw = "\u{1b}[1;31mred\u{1b}[0m and \u{1b}]0;title\u{7}plain é \u{1b}7x";
    let once = strip_ansi(raw);
    assert!(!once.contains('\u{1b}'));
    assert_eq!(once, "red and plain é x");
    assert_eq!(strip_ansi(&once), once);
    assert_eq!(strip_ansi("nothing to strip ✓"), "nothing to strip ✓");
}
