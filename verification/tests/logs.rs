use launch_deck::log::LogStream;
use launch_deck::logs::{bound_line, LogRing, MAX_LINE_BYTES, RING_CAPACITY};

#[test]
fn assigns_monotonic_sequence_numbers() {
    let mut s = LogRing::new();
    assert_eq!(s.push(LogStream::Stdout, "a", 0).seq, 0);
    assert_eq!(s.push(LogStream::Stdout, "b", 0).seq, 1);
    assert_eq!(s.push(LogStream::Stderr, "c", 0).seq, 2);
    assert_eq!(s.total_count(), 3);
}

#[test]
fn sequence_is_shared_across_streams_so_ordering_is_exact() {
    let mut s = LogRing::new();
    let a = s.push(LogStream::Stdout, "out", 0);
    let b = s.push(LogStream::Stderr, "err", 0);
    let c = s.push(LogStream::Stdout, "out2", 0);
    assert!(a.seq < b.seq && b.seq < c.seq);
}

#[test]
fn snapshot_returns_lines_oldest_first() {
    let mut s = LogRing::new();
    for i in 0..5 {
        s.push(LogStream::Stdout, &format!("line {i}"), 0);
    }
    let lines = s.snapshot();
    assert_eq!(lines.len(), 5);
    assert_eq!(lines[0].text, "line 0");
    assert_eq!(lines[4].text, "line 4");
}

#[test]
fn ring_is_bounded_and_reports_what_it_dropped() {
    let mut s = LogRing::new();
    let overflow = 50;
    for i in 0..RING_CAPACITY + overflow {
        s.push(LogStream::Stdout, &format!("l{i}"), 0);
    }
    let lines = s.snapshot();
    assert_eq!(lines.len(), RING_CAPACITY, "ring exceeded its capacity");
    assert_eq!(s.dropped_count(), overflow as u64);
    assert_eq!(lines[0].text, format!("l{overflow}"));
    assert_eq!(s.total_count(), (RING_CAPACITY + overflow) as u64);
}

#[test]
fn since_resumes_from_a_sequence_number() {
    let mut s = LogRing::new();
    for i in 0..10 {
        s.push(LogStream::Stdout, &format!("l{i}"), 0);
    }
    let tail = s.since(7);
    assert_eq!(tail.len(), 3);
    assert_eq!(tail[0].text, "l7");
}

#[test]
fn over_long_lines_are_truncated_on_a_char_boundary() {
    let mut s = LogRing::new();
    let huge = "é".repeat(MAX_LINE_BYTES);
    let line = s.push(LogStream::Stdout, &huge, 0);
    assert!(line.text.len() <= MAX_LINE_BYTES + 32);
    assert!(line.text.ends_with("[line truncated]"));
    assert!(line.text.chars().count() > 0);
}

#[test]
fn ansi_escapes_are_preserved_in_storage() {
    let mut s = LogRing::new();
    let line = s.push(LogStream::Stdout, "\u{1b}[31mfailed\u{1b}[0m", 0);
    assert!(line.text.contains('\u{1b}'));
}

#[test]
fn deck_lines_are_tagged_distinctly_from_process_output() {
    let mut s = LogRing::new();
    assert_eq!(s.push_deck("started", 0).stream, LogStream::Deck);
}

#[test]
fn a_line_exactly_at_the_limit_is_kept_whole() {
    let exact = "a".repeat(MAX_LINE_BYTES);
    assert_eq!(bound_line(&exact), exact);
    let over = "a".repeat(MAX_LINE_BYTES + 1);
    assert_eq!(bound_line(&over), format!("{} ... [line truncated]", "a".repeat(MAX_LINE_BYTES)));
    // Two-byte characters: 16383 bytes is the last boundary within the limit.
    let wide = format!("a{}", "é".repeat(MAX_LINE_BYTES));
    let cut = bound_line(&wide);
    assert_eq!(cut.len(), MAX_LINE_BYTES - 1 + " ... [line truncated]".len());
}

#[test]
fn dropped_plus_retained_is_everything_pushed() {
    let mut s = LogRing::new();
    for i in 0..RING_CAPACITY + 3 {
        s.push(LogStream::Stderr, "x", i as i64);
        if i % 1000 == 0 || i >= RING_CAPACITY - 1 {
            assert_eq!(s.dropped_count() + s.snapshot().len() as u64, s.total_count());
        }
    }
    assert_eq!(s.since(0).len(), RING_CAPACITY);
    assert_eq!(s.snapshot()[0].seq, 3);
}
