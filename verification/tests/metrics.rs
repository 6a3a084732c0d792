use launch_deck::metrics::{tree_pids, tree_totals, uptime_secs, History, ProcessUsage, HISTORY};

#[test]
fn walks_a_real_process_tree() {
    // cmd (10) spawns ping (11); an unrelated process (20) and its child stay out.
    let table = [(1, None), (10, Some(1)), (11, Some(10)), (12, Some(11)), (20, Some(1)), (21, Some(20))];
    let pids = tree_pids(&table, 10);
    assert_eq!(pids[0], 10, "root first");
    let mut sorted = pids.clone();
    sorted.sort_unstable();
    assert_eq!(sorted, vec![10, 11, 12]);
}

#[test]
fn a_dead_root_yields_an_empty_tree() {
    let table = [(1, None), (11, Some(10))];
    assert!(tree_pids(&table, 10).is_empty());
}

#[test]
fn a_parent_cycle_is_walked_once() {
    let table = [(5, Some(6)), (6, Some(5)), (7, Some(6))];
    let mut pids = tree_pids(&table, 5);
    pids.sort_unstable();
    assert_eq!(pids, vec![5, 6, 7]);
}

#[test]
fn history_is_bounded_to_the_retention_window() {
    let mut h = History::new();
    assert!(h.latest().is_none());
    for i in 0..(HISTORY as u32 + 30) {
        h.record(i);
    }
    assert_eq!(h.samples().len(), HISTORY);
    assert_eq!(h.samples()[0], 30, "the oldest samples are the ones dropped");
    assert_eq!(h.latest(), Some(&(HISTORY as u32 + 29)));
}

#[test]
fn uptime_counts_from_the_recorded_start() {
    let started = 1_700_000_000_000_i64;
    assert_eq!(uptime_secs(started + 42_400, started), 42);
    assert_eq!(uptime_secs(started, started), 0);
    assert_eq!(uptime_secs(started - 5_000, started), 0, "a start in the future is no uptime");
    assert_eq!(uptime_secs(i64::MAX, i64::MIN), (u64::MAX) / 1000);
}

#[test]
fn sampling_aggregates_the_tree() {
    let procs = [
        ProcessUsage { memory_bytes: 100, read_bytes: 1, written_bytes: 2, threads: 3 },
        ProcessUsage { memory_bytes: 50, read_bytes: 10, written_bytes: 20, threads: 4 },
    ];
    let t = tree_totals(&procs);
    assert_eq!(t.memory_bytes, 150);
    assert_eq!(t.disk_read_bytes, 11);
    assert_eq!(t.disk_write_bytes, 22);
    assert_eq!(t.thread_count, 7);
    assert_eq!(t.process_count, 2);
    let empty = tree_totals(&[]);
    assert_eq!((empty.memory_bytes, empty.process_count), (0, 0));
}

#[test]
fn totals_saturate_rather_than_wrap() {
    let big = ProcessUsage { memory_bytes: u64::MAX, read_bytes: 0, written_bytes: 0, threads: u32::MAX };
    let t = tree_totals(&[big, big]);
    assert_eq!(t.memory_bytes, u64::MAX);
    assert_eq!(t.thread_count, u32::MAX);
}
