use std::collections::HashSet;

use launch_deck::ports::{
    first_conflict, first_conflict_in, is_port_in_use, ports_for_pids, taken_ports, Listener,
};

fn table() -> Vec<Listener> {
    vec![
        Listener { port: 5173, pid: 10 },
        Listener { port: 3000, pid: 11 },
        Listener { port: 5173, pid: 11 },
        Listener { port: 80, pid: 4 },
        Listener { port: 4321, pid: 10 },
    ]
}

#[test]
fn no_ports_means_no_conflict() {
    assert_eq!(first_conflict(&table(), &[]), None);
    assert_eq!(first_conflict(&[], &[]), None);
}

#[test]
fn conflict_detection_finds_the_taken_port() {
    assert_eq!(first_conflict(&table(), &[3000]), Some(3000));
    assert_eq!(first_conflict(&table(), &[1, 3000]), Some(3000));
    assert_eq!(first_conflict(&table(), &[1, 2]), None);
}

#[test]
fn unrelated_pids_own_no_ports() {
    let nobody: HashSet<u32> = [0xFFFF_FFF0].into_iter().collect();
    assert!(ports_for_pids(&table(), &nobody).is_empty());
}

#[test]
fn results_are_sorted_and_deduplicated() {
    let pids: HashSet<u32> = [10, 11].into_iter().collect();
    assert_eq!(ports_for_pids(&table(), &pids), vec![3000, 4321, 5173]);
}

#[test]
fn a_port_is_in_use_only_if_listed() {
    assert!(is_port_in_use(&table(), 80));
    assert!(!is_port_in_use(&table(), 81));
}

#[test]
fn one_snapshot_answers_several_lists() {
    let taken = taken_ports(&table());
    assert_eq!(taken.len(), 4);
    assert_eq!(first_conflict_in(&taken, &[8080, 4321, 80]), Some(4321));
    assert_eq!(first_conflict_in(&taken, &[8080]), None);
}
