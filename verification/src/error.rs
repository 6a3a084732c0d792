//! The single error type that crosses module boundaries.
use vstd::prelude::*;

use crate::command::{step_name, Lifecycle};
use crate::text::{chars_of, decimal, decimal_chars, string_of};

verus! {

/// Every failure the library can surface to the user.
///
/// Paths and identifiers are carried in their display form.
#[derive(Debug, Clone)]
pub enum DeckError {
    /// The path the user chose is not a directory that can be read.
    UnreadableDirectory { path: String },
    /// A project is already registered against this directory.
    DuplicateProject { path: String, existing_name: String },
    /// No runner claimed the directory and the user supplied no override.
    NoRunnerMatched { path: String },
    /// A runner exists but does not define the requested lifecycle step.
    LifecycleNotSupported { runner: String, lifecycle: Lifecycle },
    /// A manifest is malformed.
    InvalidManifest { path: String, reason: String },
    /// A command template referenced a variable that cannot be resolved.
    UnknownTemplateVar { variable: String },
    /// Asked to act on a project that is not registered.
    ProjectNotFound(String),
    /// Asked to act on a run that is not tracked.
    RunNotFound(String),
    /// Tried to start a project that is already running.
    AlreadyRunning { name: String, pid: u32 },
    /// Tried to stop a project that is not running.
    NotRunning { name: String },
    /// The executable named by the command could not be found.
    ProgramNotFound { program: String },
    /// A port the project needs is occupied.
    PortInUse { port: u16 },
    /// Auto-restart tripped its circuit breaker.
    RestartLoopBrokenOut { name: String, attempts: u32 },
    /// Persistence failed.
    Storage(String),
    /// An operating-system call failed; `context` says what was attempted.
    Io { context: String, message: String },
}

/// The stable machine-readable discriminant of an error.
pub open spec fn code_of(e: DeckError) -> Seq<char> {
    match e {
        DeckError::UnreadableDirectory { .. } => "unreadable_directory"@,
        DeckError::DuplicateProject { .. } => "duplicate_project"@,
        DeckError::NoRunnerMatched { .. } => "no_runner_matched"@,
        DeckError::LifecycleNotSupported { .. } => "lifecycle_not_supported"@,
        DeckError::InvalidManifest { .. } => "invalid_manifest"@,
        DeckError::UnknownTemplateVar { .. } => "unknown_template_var"@,
        DeckError::ProjectNotFound(_) => "project_not_found"@,
        DeckError::RunNotFound(_) => "run_not_found"@,
        DeckError::AlreadyRunning { .. } => "already_running"@,
        DeckError::NotRunning { .. } => "not_running"@,
        DeckError::ProgramNotFound { .. } => "program_not_found"@,
        DeckError::PortInUse { .. } => "port_in_use"@,
        DeckError::RestartLoopBrokenOut { .. } => "restart_loop_broken_out"@,
        DeckError::Storage(_) => "storage"@,
        DeckError::Io { .. } => "io"@,
    }
}

impl DeckError {
    /// A stable machine-readable discriminant for the frontend.
    pub fn code(&self) -> (r: &'static str)
        ensures
            r@ == code_of(*self),
    {
        match self {
            DeckError::UnreadableDirectory { .. } => "unreadable_directory",
            DeckError::DuplicateProject { .. } => "duplicate_project",
            DeckError::NoRunnerMatched { .. } => "no_runner_matched",
            DeckError::LifecycleNotSupported { .. } => "lifecycle_not_supported",
            DeckError::InvalidManifest { .. } => "invalid_manifest",
            DeckError::UnknownTemplateVar { .. } => "unknown_template_var",
            DeckError::ProjectNotFound(_) => "project_not_found",
            DeckError::RunNotFound(_) => "run_not_found",
            DeckError::AlreadyRunning { .. } => "already_running",
            DeckError::NotRunning { .. } => "not_running",
            DeckError::ProgramNotFound { .. } => "program_not_found",
            DeckError::PortInUse { .. } => "port_in_use",
            DeckError::RestartLoopBrokenOut { .. } => "restart_loop_broken_out",
            DeckError::Storage(_) => "storage",
            DeckError::Io { .. } => "io",
        }
    }

    /// Whether retrying the same operation could plausibly succeed.
    pub fn is_retryable(&self) -> (r: bool)
        ensures
            r <==> (self is PortInUse || self is Io || self is Storage),
    {
        match self {
            DeckError::PortInUse { .. } | DeckError::Io { .. } | DeckError::Storage(_) => true,
            _ => false,
        }
    }
}

/// The text an error is shown with.
pub open spec fn message_of(e: DeckError) -> Seq<char> {
    match e {
        DeckError::UnreadableDirectory { path } => "`"@ + path@ + "` is not a readable directory"@,
        DeckError::DuplicateProject { path, existing_name } => "`"@ + path@ + "` is already registered as \""@
            + existing_name@ + "\""@,
        DeckError::NoRunnerMatched { path } => "could not identify a project type in `"@ + path@
            + "` -- set a run command manually"@,
        DeckError::LifecycleNotSupported { runner, lifecycle } => "runner `"@ + runner@ + "` has no "@ + step_name(
            lifecycle,
        ) + " command"@,
        DeckError::InvalidManifest { path, reason } => "runner manifest `"@ + path@ + "` is invalid: "@ + reason@,
        DeckError::UnknownTemplateVar { variable } => "command template references unknown variable `{"@ + variable@
            + "}`"@,
        DeckError::ProjectNotFound(id) => "no project with id "@ + id@,
        DeckError::RunNotFound(id) => "no run with id "@ + id@,
        DeckError::AlreadyRunning { name, pid } => "\""@ + name@ + "\" is already running (pid "@ + decimal(
            pid as nat,
        ) + ")"@,
        DeckError::NotRunning { name } => "\""@ + name@ + "\" is not running"@,
        DeckError::ProgramNotFound { program } => "`"@ + program@ + "` was not found on PATH -- is it installed?"@,
        DeckError::PortInUse { port } => "port "@ + decimal(port as nat) + " is already in use"@,
        DeckError::RestartLoopBrokenOut { name, attempts } => "\""@ + name@ + "\" crashed "@ + decimal(
            attempts as nat,
        ) + " times in a row -- auto-restart disabled"@,
        DeckError::Storage(m) => "storage error: "@ + m@,
        DeckError::Io { context, message } => context@ + ": "@ + message@,
    }
}

/// Appends the characters of `s`.
fn put(out: &mut Vec<char>, s: &str)
    ensures
        final(out)@ == old(out)@ + s@,
{
    let mut v = chars_of(s);
    out.append(&mut v);
}

/// Appends the decimal digits of `n`.
fn put_number(out: &mut Vec<char>, n: u64)
    ensures
        final(out)@ == old(out)@ + decimal(n as nat),
{
    let mut v = decimal_chars(n);
    out.append(&mut v);
}

impl DeckError {
    /// An operating-system failure, with what was being attempted.
    pub fn io(context: &str, message: &str) -> (r: DeckError)
        ensures
            r matches DeckError::Io { context: c, message: m } && c@ == context@ && m@ == message@,
    {
        DeckError::Io { context: context.to_owned(), message: message.to_owned() }
    }

    /// The text the error is shown with.
    pub fn to_string(&self) -> (r: String)
        ensures
            r@ == message_of(*self),
    {
        let mut o: Vec<char> = Vec::new();
        match self {
            DeckError::UnreadableDirectory { path } => {
                put(&mut o, "`");
                put(&mut o, path.as_str());
                put(&mut o, "` is not a readable directory");
            },
            DeckError::DuplicateProject { path, existing_name } => {
                put(&mut o, "`");
                put(&mut o, path.as_str());
                put(&mut o, "` is already registered as \"");
                put(&mut o, existing_name.as_str());
                put(&mut o, "\"");
            },
            DeckError::NoRunnerMatched { path } => {
                put(&mut o, "could not identify a project type in `");
                put(&mut o, path.as_str());
                put(&mut o, "` -- set a run command manually");
            },
            DeckError::LifecycleNotSupported { runner, lifecycle } => {
                put(&mut o, "runner `");
                put(&mut o, runner.as_str());
                put(&mut o, "` has no ");
                put(&mut o, lifecycle.as_str());
                put(&mut o, " command");
            },
            DeckError::InvalidManifest { path, reason } => {
                put(&mut o, "runner manifest `");
                put(&mut o, path.as_str());
                put(&mut o, "` is invalid: ");
                put(&mut o, reason.as_str());
            },
            DeckError::UnknownTemplateVar { variable } => {
                put(&mut o, "command template references unknown variable `{");
                put(&mut o, variable.as_str());
                put(&mut o, "}`");
            },
            DeckError::ProjectNotFound(id) => {
                put(&mut o, "no project with id ");
                put(&mut o, id.as_str());
            },
            DeckError::RunNotFound(id) => {
                put(&mut o, "no run with id ");
                put(&mut o, id.as_str());
            },
            DeckError::AlreadyRunning { name, pid } => {
                put(&mut o, "\"");
                put(&mut o, name.as_str());
                put(&mut o, "\" is already running (pid ");
                put_number(&mut o, *pid as u64);
                put(&mut o, ")");
            },
            DeckError::NotRunning { name } => {
                put(&mut o, "\"");
                put(&mut o, name.as_str());
                put(&mut o, "\" is not running");
            },
            DeckError::ProgramNotFound { program } => {
                put(&mut o, "`");
                put(&mut o, program.as_str());
                put(&mut o, "` was not found on PATH -- is it installed?");
            },
            DeckError::PortInUse { port } => {
                put(&mut o, "port ");
                put_number(&mut o, *port as u64);
                put(&mut o, " is already in use");
            },
            DeckError::RestartLoopBrokenOut { name, attempts } => {
                put(&mut o, "\"");
                put(&mut o, name.as_str());
                put(&mut o, "\" crashed ");
                put_number(&mut o, *attempts as u64);
                put(&mut o, " times in a row -- auto-restart disabled");
            },
            DeckError::Storage(m) => {
                put(&mut o, "storage error: ");
                put(&mut o, m.as_str());
            },
            DeckError::Io { context, message } => {
                put(&mut o, context.as_str());
                put(&mut o, ": ");
                put(&mut o, message.as_str());
            },
        }
        string_of(&o)
    }
}

} // verus!
