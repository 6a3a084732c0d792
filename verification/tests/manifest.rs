use launch_deck::manifest::{default_priority, SetupRule, SetupState};

fn rule() -> SetupRule {
    SetupRule {
        when_file_exists: "package.json".into(),
        requires_any: vec!["node_modules".into()],
        hint: "Dependencies are not installed".into(),
    }
}

#[test]
fn a_project_without_the_trigger_file_needs_nothing() {
    let state = rule().evaluate(&|_: &str| false);
    assert_eq!(state, SetupState::Ready);
}

#[test]
fn the_trigger_without_the_marker_is_a_finding() {
    let state = rule().evaluate(&|p: &str| p == "package.json");
    assert!(state.needs_setup(), "missing node_modules went unreported");
    match state {
        SetupState::NeedsSetup { missing, .. } => assert_eq!(missing, "node_modules"),
        SetupState::Ready => unreachable!(),
    }
}

#[test]
fn the_marker_present_is_ready() {
    let state = rule().evaluate(&|p: &str| p == "package.json" || p == "node_modules");
    assert_eq!(state, SetupState::Ready);
}

#[test]
fn any_of_the_accepted_markers_satisfies_the_rule() {
    let py = SetupRule {
        when_file_exists: "requirements.txt".into(),
        requires_any: vec![".venv".into(), "venv".into(), "env".into()],
        hint: "No virtual environment".into(),
    };
    for marker in [".venv", "venv", "env"] {
        let state = py.evaluate(&|p: &str| p == "requirements.txt" || p == marker);
        assert_eq!(state, SetupState::Ready, "{marker} should satisfy the rule");
    }
    assert!(py.evaluate(&|p: &str| p == "requirements.txt").needs_setup());
}

#[test]
fn every_accepted_marker_is_named_when_all_are_missing() {
    let py = SetupRule {
        when_file_exists: "requirements.txt".into(),
        requires_any: vec![".venv".into(), "venv".into()],
        hint: "No virtual environment".into(),
    };
    assert_eq!(
        py.evaluate(&|p: &str| p == "requirements.txt"),
        SetupState::NeedsSetup {
            hint: "No virtual environment".to_owned(),
            missing: ".venv or venv".to_owned()
        }
    );
}

#[test]
fn the_default_priority_is_one_hundred() {
    assert_eq!(default_priority(), 100);
}
