use launch_deck::runtime::{restart_decision, running_count, with_health, RestartDecision, RunState, StopMode};
use launch_deck::log::RunOutcome;
use launch_deck::project::RestartPolicy;

fn running() -> RunState {
    RunState::Running { pid: 4242, started_at: 1_700_000_000_000, healthy: None }
}

#[test]
fn default_stop_mode_is_graceful_with_a_real_grace_period() {
    match StopMode::default() {
        StopMode::Graceful { grace_ms } => assert!(grace_ms >= 1_000),
        StopMode::Immediate => panic!("default stop must not be immediate"),
    }
}

#[test]
fn liveness_includes_stopping() {
    assert!(running().is_live());
    assert!(RunState::Stopping { pid: 1 }.is_live());
    assert!(!RunState::Idle.is_live());
    assert!(!RunState::Starting.is_live());
}

#[test]
fn start_and_stop_affordances_are_mutually_exclusive() {
    let states = [
        RunState::Idle,
        RunState::Starting,
        running(),
        RunState::Stopping { pid: 1 },
        RunState::Exited { code: Some(0), at: 5 },
        RunState::Crashed { code: Some(1), at: 5, reason: None },
        RunState::Restarting { attempt: 2, next_attempt_at: 9 },
    ];
    for s in states {
        assert!(!(s.can_start() && s.can_stop()), "{} offered both start and stop", s.tag());
    }
}

#[test]
fn stopping_offers_neither_action() {
    let s = RunState::Stopping { pid: 9 };
    assert!(!s.can_start());
    assert!(!s.can_stop());
}

#[test]
fn crashed_projects_can_be_restarted() {
    let s = RunState::Crashed { code: Some(1), at: 5, reason: Some("port 5173 in use".into()) };
    assert!(s.can_start());
}

#[test]
fn pid_is_present_exactly_when_live() {
    assert_eq!(running().pid(), Some(4242));
    assert_eq!(RunState::Stopping { pid: 7 }.pid(), Some(7));
    assert_eq!(RunState::Idle.pid(), None);
    assert_eq!(RunState::Starting.pid(), None);
}

#[test]
fn transitional_states_are_the_three_in_flight_ones() {
    assert!(RunState::Starting.is_transitional());
    assert!(RunState::Stopping { pid: 1 }.is_transitional());
    assert!(RunState::Restarting { attempt: 1, next_attempt_at: 3 }.is_transitional());
    assert!(!running().is_transitional());
    assert!(!RunState::Idle.is_transitional());
}

#[test]
fn tags_name_the_state() {
    assert_eq!(RunState::default().tag(), "idle");
    assert_eq!(running().tag(), "running");
    assert_eq!(RunState::Restarting { attempt: 1, next_attempt_at: 3 }.tag(), "restarting");
}

#[test]
fn failures_climb_the_backoff_until_the_ceiling_trips() {
    let p = RestartPolicy::OnFailure { max_attempts: 3 };
    assert_eq!(
        restart_decision(p, RunOutcome::Failed, Some(1), 0),
        RestartDecision::Restart { attempt: 1, max: 3, delay_ms: 500 }
    );
    assert_eq!(
        restart_decision(p, RunOutcome::Failed, Some(1), 2),
        RestartDecision::Restart { attempt: 3, max: 3, delay_ms: 2_000 }
    );
    assert_eq!(restart_decision(p, RunOutcome::Failed, Some(1), 3), RestartDecision::BreakOut { attempts: 3 });
}

#[test]
fn a_clean_exit_resets_the_count_and_never_policy_never_restarts() {
    let p = RestartPolicy::Always { max_attempts: 2 };
    assert_eq!(
        restart_decision(p, RunOutcome::Succeeded, Some(0), 7),
        RestartDecision::Restart { attempt: 1, max: 2, delay_ms: 500 }
    );
    assert_eq!(
        restart_decision(RestartPolicy::Never, RunOutcome::Failed, Some(1), 0),
        RestartDecision::NoRestart
    );
    assert_eq!(
        restart_decision(RestartPolicy::OnFailure { max_attempts: 3 }, RunOutcome::Succeeded, Some(0), 0),
        RestartDecision::NoRestart
    );
}

use launch_deck::runtime::{RunId, RunRecord};
use launch_deck::project::ProjectId;
use launch_deck::command::Lifecycle;

#[test]
fn run_ids_are_unique_and_round_trip() {
    let a = RunId::new();
    assert_ne!(a, RunId::new());
    assert_eq!(RunId::parse(&a.to_string()).unwrap(), a);
}

#[test]
fn a_finished_run_knows_how_long_it_took() {
    let mut r = RunRecord {
        run_id: RunId::from_uuid(1),
        project_id: ProjectId::from_uuid(2),
        lifecycle: Lifecycle::Run,
        command: "npm run dev".into(),
        started_at: 1_000,
        finished_at: None,
        exit_code: None,
        outcome: RunOutcome::Running,
        log_path: "run.log".into(),
    };
    assert_eq!(r.duration(), None);
    r.finished_at = Some(4_500);
    assert_eq!(r.duration(), Some(3_500));
}

#[test]
fn a_fresh_run_id_is_a_version_four_uuid() {
    let v = RunId::new().as_uuid();
    assert_eq!((v >> 76) & 0xF, 4);
    assert_eq!((v >> 62) & 0x3, 2);
}

#[test]
fn readiness_changes_only_a_running_state() {
    let running = RunState::Running { pid: 7, started_at: 100, healthy: None };
    match with_health(&running, Some(true)) {
        Some(RunState::Running { pid: 7, started_at: 100, healthy: Some(true) }) => {}
        other => panic!("expected a healthy running state, got {other:?}"),
    }
    let healthy = RunState::Running { pid: 7, started_at: 100, healthy: Some(true) };
    assert!(with_health(&healthy, Some(true)).is_none(), "no change, no event");
    let exited = RunState::Exited { code: Some(0), at: 5 };
    assert!(with_health(&exited, Some(true)).is_none(), "a stale sample cannot resurrect an exited run");
}

#[test]
fn only_live_states_count_as_running() {
    let states = vec![
        RunState::Idle,
        RunState::Running { pid: 1, started_at: 0, healthy: None },
        RunState::Stopping { pid: 2 },
        RunState::Starting,
        RunState::Crashed { code: Some(1), at: 0, reason: None },
    ];
    assert_eq!(running_count(&states), 2);
    assert_eq!(running_count(&[]), 0);
}

#[test]
fn a_success_resets_the_count_even_at_the_top_of_the_range() {
    match restart_decision(RestartPolicy::Always { max_attempts: 3 }, RunOutcome::Succeeded, Some(0), u32::MAX) {
        RestartDecision::Restart { attempt: 1, max: 3, .. } => {}
        other => panic!("expected a first restart, got {other:?}"),
    }
}
