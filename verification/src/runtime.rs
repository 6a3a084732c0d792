//! Live process state and the restart decision.
use vstd::prelude::*;

use crate::log::RunOutcome;
use crate::command::Lifecycle;
use crate::project::{backoff_spec, random_uuid, uuid_from_text, uuid_parsed, hyphenated, hyphenated_value, uuid_to_text, ProjectId, RestartPolicy};

verus! {

/// Where a project is in its lifecycle. Timestamps are milliseconds since
/// the Unix epoch.
#[derive(Debug, Clone)]
pub enum RunState {
    /// Not running, and not scheduled to. The default.
    Idle,
    /// Spawn requested; no process confirmed yet.
    Starting,
    /// Process is alive.
    Running { pid: u32, started_at: i64, healthy: Option<bool> },
    /// Graceful stop requested; waiting for the process to exit.
    Stopping { pid: u32 },
    /// Exited on request or of its own accord.
    Exited { code: Option<i32>, at: i64 },
    /// Exited with a non-zero code, or vanished unexpectedly.
    Crashed { code: Option<i32>, at: i64, reason: Option<String> },
    /// Waiting out a restart backoff after a crash.
    Restarting { attempt: u32, next_attempt_at: i64 },
}

/// The short lower-case discriminant of a state.
pub open spec fn state_tag(s: RunState) -> Seq<char> {
    match s {
        RunState::Idle => "idle"@,
        RunState::Starting => "starting"@,
        RunState::Running { .. } => "running"@,
        RunState::Stopping { .. } => "stopping"@,
        RunState::Exited { .. } => "exited"@,
        RunState::Crashed { .. } => "crashed"@,
        RunState::Restarting { .. } => "restarting"@,
    }
}

/// Whether a process exists for the state.
pub open spec fn live(s: RunState) -> bool {
    s is Running || s is Stopping
}

/// Whether starting is a valid action in the state.
pub open spec fn startable(s: RunState) -> bool {
    s is Idle || s is Exited || s is Crashed
}

/// Whether stopping is a valid action in the state.
pub open spec fn stoppable(s: RunState) -> bool {
    s is Running || s is Starting || s is Restarting
}

impl RunState {
    /// The default state.
    pub fn default() -> (r: RunState)
        ensures
            r is Idle,
    {
        RunState::Idle
    }

    /// Whether a process currently exists; true while stopping.
    pub fn is_live(&self) -> (r: bool)
        ensures
            r == live(*self),
    {
        match self {
            RunState::Running { .. } | RunState::Stopping { .. } => true,
            _ => false,
        }
    }

    /// Whether a transition is in flight.
    pub fn is_transitional(&self) -> (r: bool)
        ensures
            r <==> (self is Starting || self is Stopping || self is Restarting),
    {
        match self {
            RunState::Starting | RunState::Stopping { .. } | RunState::Restarting { .. } => true,
            _ => false,
        }
    }

    /// Whether starting this project is a valid action right now.
    pub fn can_start(&self) -> (r: bool)
        ensures
            r == startable(*self),
    {
        match self {
            RunState::Idle | RunState::Exited { .. } | RunState::Crashed { .. } => true,
            _ => false,
        }
    }

    /// Whether stopping this project is a valid action right now.
    pub fn can_stop(&self) -> (r: bool)
        ensures
            r == stoppable(*self),
    {
        match self {
            RunState::Running { .. } | RunState::Starting | RunState::Restarting { .. } => true,
            _ => false,
        }
    }

    /// The live process id, when there is one.
    pub fn pid(&self) -> (r: Option<u32>)
        ensures
            r == match *self {
                RunState::Running { pid, .. } => Some(pid),
                RunState::Stopping { pid } => Some(pid),
                _ => None,
            },
    {
        match self {
            RunState::Running { pid, .. } => Some(*pid),
            RunState::Stopping { pid } => Some(*pid),
            _ => None,
        }
    }

    /// Short lower-case discriminant for the frontend.
    pub fn tag(&self) -> (r: &'static str)
        ensures
            r@ == state_tag(*self),
    {
        match self {
            RunState::Idle => "idle",
            RunState::Starting => "starting",
            RunState::Running { .. } => "running",
            RunState::Stopping { .. } => "stopping",
            RunState::Exited { .. } => "exited",
            RunState::Crashed { .. } => "crashed",
            RunState::Restarting { .. } => "restarting",
        }
    }
}

/// The state once readiness is judged: a running process takes the new
/// `healthy` value; any other state is left alone, so a judgement that
/// arrives after the process exited cannot resurrect it.
pub open spec fn health_applied(s: RunState, healthy: Option<bool>) -> RunState {
    match s {
        RunState::Running { pid, started_at, .. } => RunState::Running { pid, started_at, healthy },
        other => other,
    }
}

/// Records how ready a project is: the new state when it changed, `None`
/// when nothing changed (the state is not running, or already says as
/// much), so callers announce only real transitions.
pub fn with_health(s: &RunState, healthy: Option<bool>) -> (r: Option<RunState>)
    ensures
        match *s {
            RunState::Running { healthy: current, .. } => if current != healthy {
                r == Some(health_applied(*s, healthy))
            } else {
                r is None
            },
            _ => r is None,
        },
{
    match s {
        RunState::Running { pid, started_at, healthy: current } => {
            if *current != healthy {
                Some(RunState::Running { pid: *pid, started_at: *started_at, healthy })
            } else {
                None
            }
        },
        _ => None,
    }
}

/// How many of the states have a live process.
pub open spec fn live_count(states: Seq<RunState>) -> nat
    decreases states.len(),
{
    if states.len() == 0 {
        0
    } else {
        live_count(states.drop_last()) + if live(states.last()) {
            1nat
        } else {
            0nat
        }
    }
}

/// How many projects are live: the count the quit path warns about.
pub fn running_count(states: &[RunState]) -> (r: usize)
    ensures
        r == live_count(states@),
{
    let mut n: usize = 0;
    let mut i: usize = 0;
    while i < states.len()
        invariant
            i <= states.len(),
            n == live_count(states@.take(i as int)),
            n <= i,
        decreases states.len() - i,
    {
        assert(states@.take(i + 1).drop_last() =~= states@.take(i as int));
        if states[i].is_live() {
            n += 1;
        }
        i += 1;
    }
    assert(states@.take(states.len() as int) =~= states@);
    n
}

/// No state offers both Start and Stop, and a process id is present exactly
/// when a process is live.
pub proof fn start_and_stop_are_exclusive(s: RunState)
    ensures
        !(startable(s) && stoppable(s)),
        live(s) <==> (s is Running || s is Stopping),
{
}

/// How forcefully to stop a process.
#[derive(Debug, Clone, Copy, PartialEq, Eq, Structural)]
pub enum StopMode {
    /// Ask first, then terminate the tree after `grace_ms`.
    Graceful { grace_ms: u64 },
    /// Terminate the whole tree immediately.
    Immediate,
}

impl StopMode {
    /// The default stop: graceful, with five seconds to exit.
    pub fn default() -> (r: StopMode)
        ensures
            r == (StopMode::Graceful { grace_ms: 5_000 }),
    {
        StopMode::Graceful { grace_ms: 5_000 }
    }
}

/// What the supervisor does after a run ends.
#[derive(Debug, Clone, Copy, PartialEq, Eq, Structural)]
pub enum RestartDecision {
    /// The policy does not restart on this exit.
    NoRestart,
    /// The circuit breaker tripped after `attempts` consecutive tries.
    BreakOut { attempts: u32 },
    /// Restart after `delay_ms`, as attempt `attempt` of `max`.
    Restart { attempt: u32, max: u32, delay_ms: u64 },
}

/// Whether the policy restarts after an exit with `exit_code`.
pub open spec fn restarts_on(policy: RestartPolicy, exit_code: Option<i32>) -> bool {
    match policy {
        RestartPolicy::Never => false,
        RestartPolicy::Always { .. } => true,
        RestartPolicy::OnFailure { .. } => exit_code != Some(0i32),
    }
}

/// Whether a run outcome counts as a failure, accumulating attempts.
pub open spec fn failed_outcome(outcome: RunOutcome) -> bool {
    outcome == RunOutcome::Failed || outcome == RunOutcome::FailedToStart
}

/// The restart decision for a run that ended with `outcome` and `exit_code`,
/// after `previous` consecutive restart attempts.
pub open spec fn restart_spec(policy: RestartPolicy, outcome: RunOutcome, exit_code: Option<i32>, previous: u32) -> RestartDecision {
    let restarts = restarts_on(policy, exit_code);
    if !restarts {
        RestartDecision::NoRestart
    } else {
        let max = match policy {
            RestartPolicy::OnFailure { max_attempts } => max_attempts,
            RestartPolicy::Always { max_attempts } => max_attempts,
            RestartPolicy::Never => 0,
        };
        let failed = failed_outcome(outcome);
        let attempt: int = if failed { previous + 1 } else { 1 };
        if attempt > max {
            RestartDecision::BreakOut { attempts: previous }
        } else {
            RestartDecision::Restart { attempt: attempt as u32, max, delay_ms: backoff_spec(attempt as u32) as u64 }
        }
    }
}

/// Applies restart policy: failures accumulate attempts, a success resets
/// the count to one, and passing the ceiling trips the breaker. The count
/// can only grow by one where another failure would be counted, so it must
/// not already be at `u32::MAX` there.
pub fn restart_decision(
    policy: RestartPolicy,
    outcome: RunOutcome,
    exit_code: Option<i32>,
    previous: u32,
) -> (r: RestartDecision)
    requires
        previous < u32::MAX || !failed_outcome(outcome) || !restarts_on(policy, exit_code),
    ensures
        r == restart_spec(policy, outcome, exit_code, previous),
{
    if !policy.should_restart(exit_code) {
        return RestartDecision::NoRestart;
    }
    let max = match policy.max_attempts() {
        Some(m) => m,
        None => return RestartDecision::NoRestart,
    };
    let attempt = if outcome.is_failure() {
        previous + 1
    } else {
        1
    };
    if attempt > max {
        RestartDecision::BreakOut { attempts: previous }
    } else {
        RestartDecision::Restart {
            attempt,
            max,
            delay_ms: RestartPolicy::backoff_ms(attempt),
        }
    }
}

/// A scheduled restart never exceeds the policy's ceiling, and `Never`
/// never restarts.
pub proof fn restarts_stay_under_the_ceiling(
    policy: RestartPolicy,
    outcome: RunOutcome,
    exit_code: Option<i32>,
    previous: u32,
)
    ensures
        restart_spec(policy, outcome, exit_code, previous) matches RestartDecision::Restart { attempt, max, .. }
            ==> 1 <= attempt <= max,
        policy == RestartPolicy::Never ==> restart_spec(policy, outcome, exit_code, previous)
            == RestartDecision::NoRestart,
        (policy matches RestartPolicy::OnFailure { .. } && exit_code == Some(0i32)) ==> restart_spec(
            policy,
            outcome,
            exit_code,
            previous,
        ) == RestartDecision::NoRestart,
{
}


/// Identity for one launch of a project.
#[derive(Debug, Clone, Copy, PartialEq, Eq, Structural)]
pub struct RunId {
    /// The UUID's 128-bit value.
    pub value: u128,
}

impl RunId {
    /// A fresh random identifier.
    pub fn new() -> (r: RunId)
        ensures
            crate::project::is_v4(r.value),
    {
        RunId { value: random_uuid() }
    }

    /// The identifier with a given UUID value.
    pub fn from_uuid(value: u128) -> (r: RunId)
        ensures
            r.value == value,
    {
        RunId { value }
    }

    /// The UUID value.
    pub fn as_uuid(&self) -> (r: u128)
        ensures
            r == self.value,
    {
        self.value
    }

    /// The hyphenated text of the identifier.
    pub fn to_string(&self) -> (r: String)
        ensures
            r@ == hyphenated(self.value),
    {
        uuid_to_text(self.value)
    }

    /// Reads an identifier back from its text.
    pub fn parse(text: &str) -> (r: Option<RunId>)
        ensures
            match uuid_parsed(text@) {
                None => r is None,
                Some(v) => r == Some(RunId { value: v }),
            },
            hyphenated_value(text@) is Some ==> r == Some(RunId { value: hyphenated_value(text@).unwrap() }),
    {
        match uuid_from_text(text) {
            None => None,
            Some(v) => Some(RunId { value: v }),
        }
    }
}

/// A persisted record of one run. Timestamps are milliseconds since the Unix
/// epoch.
#[derive(Debug, Clone)]
pub struct RunRecord {
    /// Which run.
    pub run_id: RunId,
    /// Which project.
    pub project_id: ProjectId,
    /// Which lifecycle step.
    pub lifecycle: Lifecycle,
    /// The command line as displayed.
    pub command: String,
    /// When the run started.
    pub started_at: i64,
    /// When it finished, if it has.
    pub finished_at: Option<i64>,
    /// Exit code, if the OS reported one.
    pub exit_code: Option<i32>,
    /// How it ended.
    pub outcome: RunOutcome,
    /// Where the run's log file is.
    pub log_path: String,
}

impl RunRecord {
    /// Wall-clock length of a finished run, in milliseconds.
    pub fn duration(&self) -> (r: Option<i64>)
        requires
            self.finished_at matches Some(end) ==> i64::MIN <= end - self.started_at <= i64::MAX,
        ensures
            r == match self.finished_at {
                Some(end) => Some((end - self.started_at) as i64),
                None => None::<i64>,
            },
    {
        match self.finished_at {
            Some(end) => Some(end - self.started_at),
            None => None,
        }
    }
}

} // verus!
