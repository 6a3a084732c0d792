use launch_deck::log::{LogLine, LogStream};
use launch_deck::command::Lifecycle;
use launch_deck::error::DeckError;
use launch_deck::log::RunOutcome;
use launch_deck::program::Invocation;
use launch_deck::runtime::{RunState, StopMode};
use launch_deck::supervisor::{
    begin_stop, check_start, classify_spawn_error, detect_exit_reason, exit_outcome, extract_port, finished_state,
    quoted_after, spawn_argv, FloodWatch,
};

fn tail(lines: &[(LogStream, &str)]) -> Vec<LogLine> {
    lines
        .iter()
        .enumerate()
        .map(|(i, (stream, text))| LogLine { seq: i as u64, stream: *stream, text: (*text).to_owned(), at_ms: 0 })
        .collect()
}

#[test]
fn port_extraction_ignores_small_numbers() {
    assert_eq!(extract_port("port 5173 in use"), Some(5173));
    assert_eq!(extract_port("listen on :::3000"), Some(3000));
    assert_eq!(extract_port("error 1 of 2"), None);
}

#[test]
fn port_conflicts_are_named_with_the_port() {
    let log = tail(&[(LogStream::Stderr, "Error: listen EADDRINUSE: address already in use :::5173")]);
    let reason = detect_exit_reason(&log, Some(1)).unwrap();
    assert!(reason.contains("5173"), "got {reason}");
    assert_eq!(reason, "port 5173 is already in use");
}

#[test]
fn windows_socket_error_wording_is_recognised() {
    let log = tail(&[(
        LogStream::Stderr,
        "Only one usage of each socket address (protocol/network address/port) is normally permitted. 127.0.0.1:3000",
    )]);
    assert!(detect_exit_reason(&log, Some(1)).unwrap().contains("3000"));
}

#[test]
fn missing_dependencies_suggest_install() {
    let log = tail(&[(LogStream::Stderr, "Error: Cannot find module 'express'")]);
    assert!(detect_exit_reason(&log, Some(1)).unwrap().contains("Install"));
}

#[test]
fn a_missing_python_module_is_named() {
    let log = tail(&[(LogStream::Stderr, "ModuleNotFoundError: No module named 'mutagen'")]);
    let reason = detect_exit_reason(&log, Some(1)).expect("should diagnose");
    assert_eq!(reason, "the Python module `mutagen` is not installed");
}

#[test]
fn a_submodule_failure_reports_the_installable_package() {
    let log = tail(&[(LogStream::Stderr, "ModuleNotFoundError: No module named 'google.protobuf'")]);
    let reason = detect_exit_reason(&log, Some(1)).expect("should diagnose");
    assert!(reason.contains("google"), "got {reason}");
    assert!(!reason.contains("protobuf"), "should not name a submodule: {reason}");
}

#[test]
fn a_clean_exit_gets_no_diagnosis() {
    let log = tail(&[(LogStream::Stdout, "address already in use somewhere in prose")]);
    assert!(detect_exit_reason(&log, Some(0)).is_none());
}

#[test]
fn an_unrecognised_failure_gets_no_invented_reason() {
    let log = tail(&[(LogStream::Stderr, "something went wrong in a way we do not model")]);
    assert!(detect_exit_reason(&log, Some(1)).is_none());
}

#[test]
fn the_newest_explaining_line_wins_and_old_lines_are_ignored() {
    let mut lines = vec![(LogStream::Stderr, "permission denied")];
    for _ in 0..60 {
        lines.push((LogStream::Stdout, "ok"));
    }
    assert!(detect_exit_reason(&tail(&lines), None).is_none());
    let log = tail(&[
        (LogStream::Stderr, "Access is denied."),
        (LogStream::Stderr, "\u{1b}[31mbash: foo: command not found\u{1b}[0m"),
    ]);
    assert_eq!(
        detect_exit_reason(&log, Some(127)).as_deref(),
        Some("the command is not installed or not on PATH")
    );
}

#[test]
fn quoted_names_are_trimmed_and_bounded() {
    assert_eq!(quoted_after("no module named \" yaml \"", "no module named").as_deref(), Some("yaml"));
    assert_eq!(quoted_after("no module named mutagen", "no module named"), None);
    let long = format!("no module named '{}'", "x".repeat(65));
    assert_eq!(quoted_after(&long, "no module named"), None);
    assert_eq!(quoted_after("no module named '.hidden'", "no module named"), None);
}

#[test]
fn out_of_range_numbers_are_not_ports() {
    assert_eq!(extract_port("pid 123456 on 8080"), Some(8080));
    assert_eq!(extract_port("port 99999"), None);
    assert_eq!(extract_port("0080"), Some(80));
}

#[test]
fn refuses_to_start_a_project_twice() {
    let running = RunState::Running { pid: 4242, started_at: 0, healthy: None };
    match check_start(Some(&running), "Web App") {
        Err(DeckError::AlreadyRunning { name, pid }) => {
            assert_eq!(name, "Web App");
            assert_eq!(pid, 4242);
        }
        other => panic!("unexpected {other:?}"),
    }
    assert!(check_start(Some(&RunState::Exited { code: Some(0), at: 0 }), "Web App").is_ok());
    assert!(check_start(None, "Web App").is_ok());
}

#[test]
fn stopping_something_not_running_is_an_error() {
    let err = begin_stop(Some(&RunState::Idle), StopMode::default(), "p-1").unwrap_err();
    assert_eq!(err.code(), "not_running");
    assert_eq!(begin_stop(None, StopMode::Immediate, "p-1").unwrap_err().code(), "not_running");
}

#[test]
fn a_stop_moves_to_stopping_with_the_grace_period() {
    let running = RunState::Running { pid: 7, started_at: 0, healthy: Some(true) };
    let (next, grace) = begin_stop(Some(&running), StopMode::default(), "p").unwrap();
    assert!(matches!(next, RunState::Stopping { pid: 7 }));
    assert_eq!(grace, 5000);
    let (next, grace) = begin_stop(Some(&RunState::Starting), StopMode::Immediate, "p").unwrap();
    assert!(matches!(next, RunState::Stopping { pid: 0 }));
    assert_eq!(grace, 0);
}

#[test]
fn a_batch_script_is_spawned_through_the_shell() {
    let args = vec!["run".to_owned(), "dev".to_owned()];
    let (program, argv) =
        spawn_argv("npm", Some(Invocation::ViaShell(r"C:\nodejs\npm.cmd".to_owned())), &args).unwrap();
    assert_eq!(program, "cmd.exe");
    assert_eq!(argv, ["/c", r"C:\nodejs\npm.cmd", "run", "dev"]);

    let (program, argv) = spawn_argv("node", Some(Invocation::Direct(r"C:\nodejs\node.exe".to_owned())), &args).unwrap();
    assert_eq!(program, r"C:\nodejs\node.exe");
    assert_eq!(argv, args);
}

#[test]
fn a_missing_program_reports_program_not_found() {
    match spawn_argv("nonexistent-program-xyz", None, &vec![]) {
        Err(DeckError::ProgramNotFound { program }) => assert_eq!(program, "nonexistent-program-xyz"),
        other => panic!("unexpected {other:?}"),
    }
    assert_eq!(classify_spawn_error("x", true, "gone").code(), "program_not_found");
    match classify_spawn_error("x", false, "denied") {
        DeckError::Io { context, message } => {
            assert_eq!(context, "spawning \"x\"");
            assert_eq!(message, "denied");
        }
        other => panic!("unexpected {other:?}"),
    }
}

#[test]
fn a_child_that_floods_instead_of_exiting_is_cut_short() {
    let mut w = FloodWatch::new(0);
    assert!(!w.observe(250), "one noisy window may be a final flush");
    assert!(w.observe(500), "two in a row is flooding");

    let mut w = FloodWatch::new(10);
    assert!(w.observe(2010), "past anything a flush can be");

    let mut w = FloodWatch::new(0);
    assert!(!w.observe(250));
    assert!(!w.observe(260), "a quiet window clears the suspicion");
    assert!(!w.observe(510));
}

#[test]
fn a_long_running_step_exiting_cleanly_is_not_a_success() {
    assert_eq!(exit_outcome(false, Some(0), Lifecycle::Run), RunOutcome::Stopped);
    assert_eq!(exit_outcome(false, Some(0), Lifecycle::Build), RunOutcome::Succeeded);
    assert_eq!(exit_outcome(false, Some(3), Lifecycle::Build), RunOutcome::Failed);
    assert_eq!(exit_outcome(false, None, Lifecycle::Run), RunOutcome::Failed);
}

#[test]
fn stopping_is_reported_as_stopped_not_crashed() {
    assert_eq!(exit_outcome(true, Some(0), Lifecycle::Run), RunOutcome::Stopped);
    assert_eq!(exit_outcome(true, None, Lifecycle::Run), RunOutcome::Killed);
    assert!(matches!(finished_state(RunOutcome::Stopped, Some(0), 5, None), RunState::Exited { code: Some(0), at: 5 }));
    match finished_state(RunOutcome::Failed, Some(1), 9, Some("port 3000 in use".into())) {
        RunState::Crashed { code, at, reason } => {
            assert_eq!(code, Some(1));
            assert_eq!(at, 9);
            assert_eq!(reason.as_deref(), Some("port 3000 in use"));
        }
        other => panic!("unexpected {other:?}"),
    }
}
