use launch_deck::retention::{
    cap_note, file_line, file_write, is_run_log, logs_to_prune, order_ascending, still_over_budget, tree_total, FileWrite,
    MAX_FILE_BYTES,
};

/// Which runs `prune_logs` keeps in a directory of `names` with these mtimes.
fn prune(files: &[(u128, &str)], keep: usize) -> Vec<String> {
    let owned: Vec<(u128, String)> = files.iter().map(|(t, n)| (*t, (*n).to_owned())).collect();
    let doomed = logs_to_prune(&owned, keep);
    owned.iter().enumerate().filter(|(i, _)| !doomed.contains(i)).map(|(_, (_, n))| n.clone()).collect()
}

#[test]
fn prune_keeps_the_newest_logs_and_removes_the_rest() {
    let files: Vec<(u128, String)> = (0..8).map(|i| (1_000 + i as u128 * 12, format!("run{i}.log"))).collect();
    let borrowed: Vec<(u128, &str)> = files.iter().map(|(t, n)| (*t, n.as_str())).collect();
    let doomed = logs_to_prune(&files, 3);
    assert_eq!(doomed.len(), 5);
    let left = prune(&borrowed, 3);
    assert_eq!(left, vec!["run5.log", "run6.log", "run7.log"]);
}

#[test]
fn prune_is_a_no_op_below_the_keep_threshold() {
    assert!(logs_to_prune(&[(1, "a.log".to_owned())], 5).is_empty());
}

#[test]
fn prune_ignores_non_log_files() {
    let files = [(0, "keep.json"), (1, "r0.log"), (2, "r1.log"), (3, "r2.log"), (4, "r3.log"), (9, "notes.LOG")];
    let left = prune(&files, 1);
    assert!(left.contains(&"keep.json".to_owned()), "pruning touched a non-log file");
    assert!(left.contains(&"notes.LOG".to_owned()), "only an exact `log` extension is a run log");
    assert_eq!(left, vec!["keep.json", "r3.log", "notes.LOG"]);
}

#[test]
fn equal_times_keep_the_listing_order() {
    let left = prune(&[(5, "a.log"), (5, "b.log"), (5, "c.log")], 2);
    assert_eq!(left, vec!["a.log", "b.log"]);
}

/// What `prune_logs_total` reclaims from (mtime, size) logs under a budget,
/// deleting oldest first; `fails` lists indices whose deletion fails.
fn reclaim(files: &[(u128, u64)], max_total: u64, fails: &[usize]) -> (u64, Vec<usize>) {
    let total = tree_total(&files.iter().map(|f| f.1).collect::<Vec<_>>());
    if !still_over_budget(total, 0, max_total) {
        return (0, vec![]);
    }
    let order = order_ascending(&files.iter().map(|f| f.0).collect::<Vec<_>>());
    let mut reclaimed = 0;
    let mut deleted = vec![];
    for i in order {
        if !still_over_budget(total, reclaimed, max_total) {
            break;
        }
        if !fails.contains(&i) {
            reclaimed += files[i].1;
            deleted.push(i);
        }
    }
    (reclaimed, deleted)
}

#[test]
fn the_whole_tree_is_bounded_and_the_newest_run_survives() {
    let mut files = vec![];
    for project in 0..2u128 {
        for run in 0..5u128 {
            files.push((1_700_000_000 + project * 100 + run * 10, 1024u64));
        }
    }
    let (reclaimed, deleted) = reclaim(&files, 4 * 1024, &[]);
    assert_eq!(reclaimed, 6 * 1024, "wrong number of bytes reclaimed");
    assert_eq!(deleted, vec![0, 1, 2, 3, 4, 5]);
    assert!(!deleted.contains(&9), "the newest run was deleted");
}

#[test]
fn a_small_tree_is_left_alone() {
    assert_eq!(reclaim(&[(1, 512)], 1024, &[]), (0, vec![]));
}

#[test]
fn a_locked_log_means_reclaiming_less_not_giving_up() {
    let files = [(1, 100), (2, 100), (3, 100)];
    let (reclaimed, deleted) = reclaim(&files, 150, &[0]);
    assert_eq!(reclaimed, 200);
    assert_eq!(deleted, vec![1, 2]);
}

#[test]
fn the_age_order_is_stable() {
    assert_eq!(order_ascending(&[3, 1, 3, 0, 1]), vec![3, 1, 4, 0, 2]);
    assert!(order_ascending(&[]).is_empty());
}

#[test]
fn a_runaway_program_cannot_fill_the_disk() {
    let line = "x".repeat(80);
    let mut written = 0u64;
    let mut lines = 0u64;
    loop {
        match file_write(written, "stdout", &line) {
            FileWrite::Write { bytes } => {
                written += bytes;
                lines += 1;
            }
            FileWrite::Cap => break,
        }
        assert!(lines < MAX_FILE_BYTES, "never capped");
    }
    assert!(written <= MAX_FILE_BYTES + 16 * 1024, "log file grew to {written} bytes");
    assert_eq!(file_write(written, "stdout", "more"), FileWrite::Cap, "once capped, always capped");
}

#[test]
fn a_line_costs_its_text_and_a_fixed_frame() {
    assert_eq!(file_write(0, "stdout", "hi"), FileWrite::Write { bytes: 3 + 6 + 2 + 25 });
    assert_eq!(file_write(0, "deck", "é"), FileWrite::Write { bytes: 3 + 4 + 2 + 25 });
    assert!(is_run_log("run-1.log"));
    assert!(!is_run_log("run-1.log.bak"));
}

#[test]
fn the_cap_says_so_in_the_log() {
    // A writer that pushes lines until the file is capped, as the sink does.
    let line = "y".repeat(80);
    let stamp = "2024-05-01T10:00:00.000";
    let mut written = 0_u64;
    let mut file = String::new();
    for _ in 0..(MAX_FILE_BYTES / 100) + 1_000 {
        match file_write(written, "stdout", &line) {
            FileWrite::Cap => {
                file.push_str(&cap_note(stamp));
                file.push('\n');
                break;
            }
            FileWrite::Write { bytes } => {
                let l = file_line(stamp, "stdout", &line);
                assert_eq!(l.len() as u64 + 1, bytes, "the counted cost is the written line");
                written = written.saturating_add(bytes);
            }
        }
    }
    assert!(written >= MAX_FILE_BYTES);
    assert!(file.contains("log file capped at"), "the truncated log does not say it was truncated");
    assert!(file.contains("capped at 32 MiB"));
}

#[test]
fn a_file_line_carries_stamp_stream_and_text() {
    assert_eq!(file_line("T", "stderr", "boom"), "T [stderr] boom");
}
