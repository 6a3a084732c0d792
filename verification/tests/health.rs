use launch_deck::health::{evaluate, Readiness};
use launch_deck::manifest::HealthProbe;

#[test]
fn a_bound_declared_port_is_ready() {
    assert_eq!(evaluate(None, &[5173], &[5173], ""), Readiness::Ready);
}

#[test]
fn nothing_bound_yet_is_waiting_not_ready() {
    assert_eq!(evaluate(None, &[5173], &[], ""), Readiness::Waiting);
}

#[test]
fn a_project_with_no_ports_and_no_sockets_is_unknown() {
    assert_eq!(evaluate(None, &[], &[], ""), Readiness::Unknown);
    assert_eq!(evaluate(None, &[], &[], "").as_healthy(), None);
}

#[test]
fn listening_somewhere_else_still_counts_as_ready() {
    assert_eq!(evaluate(None, &[3000, 5173, 8080], &[4321], ""), Readiness::Ready);
}

#[test]
fn a_log_probe_matches_case_insensitively() {
    let probe = HealthProbe::LogContains {
        text: "ready in".into(),
    };
    assert_eq!(
        evaluate(Some(&probe), &[], &[], "VITE v5  Ready in 431ms"),
        Readiness::Ready,
        "capitalisation must not strand a project on Starting"
    );
    assert_eq!(evaluate(Some(&probe), &[], &[], "compiling..."), Readiness::Waiting);
}

#[test]
fn a_log_probe_ignores_ports_entirely() {
    let probe = HealthProbe::LogContains {
        text: "listening on".into(),
    };
    assert_eq!(
        evaluate(Some(&probe), &[3000], &[3000], "still building"),
        Readiness::Waiting
    );
}

#[test]
fn an_http_probe_is_satisfied_by_the_bound_port() {
    let probe = HealthProbe::Http {
        url: "http://localhost:{port}/".into(),
        expect_status: vec![],
    };
    assert_eq!(evaluate(Some(&probe), &[8080], &[8080], ""), Readiness::Ready);
    assert_eq!(evaluate(Some(&probe), &[8080], &[], ""), Readiness::Waiting);
}

#[test]
fn readiness_maps_onto_the_run_state_field() {
    assert_eq!(Readiness::Ready.as_healthy(), Some(true));
    assert_eq!(Readiness::Waiting.as_healthy(), Some(false));
    assert_eq!(Readiness::Unknown.as_healthy(), None);
}

#[test]
fn a_tcp_probe_with_no_declared_port_is_ready_once_anything_binds() {
    let probe = HealthProbe::TcpPort { port: "{port}".into() };
    assert_eq!(evaluate(Some(&probe), &[], &[9000], ""), Readiness::Ready);
    assert_eq!(evaluate(Some(&probe), &[], &[], ""), Readiness::Unknown);
}

#[test]
fn a_log_probe_folds_non_ascii_case() {
    let probe = HealthProbe::LogContains { text: "ÉCOUTE".into() };
    assert_eq!(evaluate(Some(&probe), &[], &[], "serveur: écoute sur 80"), Readiness::Ready);
}
