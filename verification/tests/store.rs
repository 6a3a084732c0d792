use launch_deck::command::Lifecycle;
use launch_deck::log::RunOutcome;
use launch_deck::store::{
    backups_to_prune, lifecycle_str, newest_backup, outcome_str, parse_lifecycle, parse_outcome, StoreDiagnostics,
    BACKUPS_KEPT,
};

#[test]
fn every_step_reads_back_as_itself() {
    for s in Lifecycle::all() {
        assert_eq!(parse_lifecycle(&lifecycle_str(s)).unwrap(), s);
    }
    assert_eq!(lifecycle_str(Lifecycle::Install), "install");
}

#[test]
fn every_outcome_reads_back_as_itself() {
    for o in [
        RunOutcome::Running,
        RunOutcome::Succeeded,
        RunOutcome::Failed,
        RunOutcome::Stopped,
        RunOutcome::Killed,
        RunOutcome::FailedToStart,
        RunOutcome::Interrupted,
    ] {
        assert_eq!(parse_outcome(outcome_str(o)).unwrap(), o);
    }
    assert_eq!(outcome_str(RunOutcome::FailedToStart), "failed_to_start");
}

#[test]
fn unknown_text_is_a_storage_error_naming_it() {
    let e = parse_outcome("exploded").unwrap_err();
    assert_eq!(e.code(), "storage");
    match e {
        launch_deck::error::DeckError::Storage(m) => assert_eq!(m, "unknown outcome `exploded`"),
        other => panic!("unexpected {other:?}"),
    }
    match parse_lifecycle("Run").unwrap_err() {
        launch_deck::error::DeckError::Storage(m) => assert_eq!(m, "unknown lifecycle `Run`"),
        other => panic!("unexpected {other:?}"),
    }
}

fn diag(sync: i64) -> StoreDiagnostics {
    StoreDiagnostics {
        path: "deck.db".into(),
        journal_mode: "wal".into(),
        synchronous: sync,
        wal_autocheckpoint: 100,
        foreign_keys: true,
        page_size: 4096,
        page_count: 25,
        freelist_count: 0,
        integrity: "ok".into(),
        projects: 3,
        runs: 10,
        settings: 2,
        schema_version: Some(4),
    }
}

#[test]
fn diagnostics_name_the_synchronous_level_and_size() {
    assert_eq!(diag(2).synchronous_label(), "FULL");
    assert_eq!(diag(0).synchronous_label(), "OFF");
    assert_eq!(diag(9).synchronous_label(), "unknown");
    assert_eq!(diag(1).size_bytes(), 102_400);
}

#[test]
fn scan_roots_round_trip_and_dedupe() {
    let a = r"D:\Workspace\Dev";
    let b = r"D:\Other";
    let roots = launch_deck::store::remember_root(&vec![], a, false);
    let roots = launch_deck::store::remember_root(&roots, b, false);
    let roots = launch_deck::store::remember_root(&roots, a, false);
    assert_eq!(roots, vec![a.to_owned(), b.to_owned()]);
    let roots = launch_deck::store::forget_root(&roots, a, false);
    assert_eq!(roots, vec![b.to_owned()]);
}

#[test]
fn a_dismissed_root_is_remembered_and_can_be_taken_back() {
    let all = launch_deck::store::remember_root(&vec![], r"D:\Dev\Scratch", true);
    let all = launch_deck::store::remember_root(&all, r"d:\dev\scratch", true);
    assert_eq!(all, vec![r"D:\Dev\Scratch".to_owned()], "dismissal ignores case");
    let all = launch_deck::store::forget_root(&all, r"D:\DEV\SCRATCH", true);
    assert!(all.is_empty());
    let exact = launch_deck::store::forget_root(&vec![r"D:\A".to_owned()], r"d:\a", false);
    assert_eq!(exact, vec![r"D:\A".to_owned()], "scan roots compare exactly");
}

#[test]
fn snapshots_are_pruned_to_the_keep_count() {
    let mut names: Vec<String> = (0..8).rev().map(|i| format!("deck-2020010{i}-000000.db")).collect();
    names.push("notes.txt".to_owned());
    let stale = backups_to_prune(&names, BACKUPS_KEPT);
    assert_eq!(stale.len(), 8 - BACKUPS_KEPT);
    assert_eq!(
        stale,
        vec![
            "deck-20200100-000000.db",
            "deck-20200101-000000.db",
            "deck-20200102-000000.db",
            "deck-20200103-000000.db",
            "deck-20200104-000000.db",
        ]
    );
}

#[test]
fn few_snapshots_are_all_kept() {
    let names = vec!["deck-1.db".to_owned(), "deck-2.DB".to_owned(), "deck-3.db".to_owned()];
    assert!(backups_to_prune(&names, BACKUPS_KEPT).is_empty());
    assert!(backups_to_prune(&names, 2).is_empty(), "an upper-case extension is not a snapshot");
    assert_eq!(backups_to_prune(&names, 1), vec!["deck-1.db"]);
}

#[test]
fn the_newest_snapshot_is_the_greatest_name() {
    let names = vec![
        "deck-20240102-000000.db".to_owned(),
        "deck-20250101-000000.db".to_owned(),
        "zzz.txt".to_owned(),
        "deck-20231231-235959.db".to_owned(),
    ];
    assert_eq!(newest_backup(&names).as_deref(), Some("deck-20250101-000000.db"));
    assert_eq!(newest_backup(&vec!["readme.md".to_owned()]), None);
}

#[test]
fn an_integrity_check_reads_ok_or_lists_its_complaints() {
    assert_eq!(launch_deck::store::integrity_summary(&vec!["ok".to_owned()]), "ok");
    assert_eq!(launch_deck::store::integrity_summary(&vec![]), "ok");
    assert_eq!(
        launch_deck::store::integrity_summary(&vec!["row 3 missing".to_owned(), "page 7 unused".to_owned()]),
        "row 3 missing; page 7 unused"
    );
}
