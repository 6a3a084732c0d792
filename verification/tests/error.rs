use launch_deck::command::Lifecycle;
use launch_deck::error::DeckError;

#[test]
fn errors_read_as_sentences() {
    let e = DeckError::LifecycleNotSupported { runner: "lua".into(), lifecycle: Lifecycle::Build };
    assert_eq!(e.to_string(), "runner `lua` has no build command");
    assert_eq!(
        DeckError::UnknownTemplateVar { variable: "pm".into() }.to_string(),
        "command template references unknown variable `{pm}`"
    );
    assert_eq!(
        DeckError::AlreadyRunning { name: "Web App".into(), pid: 4242 }.to_string(),
        "\"Web App\" is already running (pid 4242)"
    );
    assert_eq!(DeckError::PortInUse { port: 3000 }.to_string(), "port 3000 is already in use");
    assert_eq!(
        DeckError::RestartLoopBrokenOut { name: "svc".into(), attempts: 3 }.to_string(),
        "\"svc\" crashed 3 times in a row -- auto-restart disabled"
    );
    assert_eq!(DeckError::io("reading env file .env", "not found").to_string(), "reading env file .env: not found");
    assert_eq!(
        DeckError::ProgramNotFound { program: "npm".into() }.to_string(),
        "`npm` was not found on PATH -- is it installed?"
    );
}

#[test]
fn codes_are_stable_and_retry_is_for_transient_failures() {
    assert_eq!(DeckError::Storage("locked".into()).code(), "storage");
    assert!(DeckError::Storage("locked".into()).is_retryable());
    assert!(DeckError::PortInUse { port: 1 }.is_retryable());
    assert!(!DeckError::NotRunning { name: "x".into() }.is_retryable());
}
