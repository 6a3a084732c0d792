use launch_deck::project::{EnvVar, RestartPolicy};

#[test]
fn credential_shaped_env_names_default_to_masked() {
    assert!(EnvVar::new("STRIPE_SECRET_KEY", "sk_x").secret);
    assert!(EnvVar::new("github_token", "ghp_x").secret);
    assert!(EnvVar::new("DATABASE_PASSWORD", "x").secret);
    assert!(!EnvVar::new("PORT", "3000").secret);
    assert!(!EnvVar::new("NODE_ENV", "development").secret);
}

#[test]
fn never_policy_never_restarts() {
    assert!(!RestartPolicy::Never.should_restart(Some(1)));
    assert!(!RestartPolicy::Never.should_restart(Some(0)));
}

#[test]
fn on_failure_ignores_clean_exit_but_catches_signals() {
    let p = RestartPolicy::OnFailure { max_attempts: 3 };
    assert!(!p.should_restart(Some(0)));
    assert!(p.should_restart(Some(1)));
    assert!(p.should_restart(None));
}

#[test]
fn always_policy_restarts_on_clean_exit() {
    let p = RestartPolicy::Always { max_attempts: 5 };
    assert!(p.should_restart(Some(0)));
}

#[test]
fn backoff_grows_then_saturates() {
    assert_eq!(RestartPolicy::backoff_ms(1), 500);
    assert_eq!(RestartPolicy::backoff_ms(2), 1_000);
    assert_eq!(RestartPolicy::backoff_ms(3), 2_000);
    assert_eq!(RestartPolicy::backoff_ms(7), 30_000);
    assert_eq!(RestartPolicy::backoff_ms(u32::MAX), 30_000);
}

#[test]
fn attempt_ceilings_come_from_the_policy() {
    assert_eq!(RestartPolicy::Never.max_attempts(), None);
    assert_eq!(RestartPolicy::OnFailure { max_attempts: 3 }.max_attempts(), Some(3));
    assert_eq!(RestartPolicy::default(), RestartPolicy::Never);
}

#[test]
fn the_key_and_value_are_kept_verbatim() {
    let v = EnvVar::new("apiKey", "abc");
    assert_eq!(v.key, "apiKey");
    assert_eq!(v.value, "abc");
    assert!(v.secret);
}

use launch_deck::project::{DetectedFacts, Project, ProjectId, ProjectOverrides};

fn facts() -> DetectedFacts {
    DetectedFacts {
        runner_id: "node".into(),
        language: "TypeScript".into(),
        framework: Some("Next.js".into()),
        package_manager: Some("pnpm".into()),
        version: None,
        detected_at: 1_700_000_000_000,
    }
}

fn project() -> Project {
    let now = 1_700_000_000_000;
    Project {
        id: ProjectId::new(),
        name: "Coupon Hunter".into(),
        description: Some("Browser extension for stacking codes".into()),
        root: r"D:\Workspace\Dev\JS\Extensions\Coupon-Hunter".into(),
        detected: facts(),
        overrides: ProjectOverrides::default(),
        tags: vec!["extension".into(), "mv3".into()],
        category: Some("Browser".into()),
        favorite: false,
        pinned: false,
        archived: false,
        restart_policy: RestartPolicy::default(),
        notes: None,
        created_at: now,
        updated_at: now,
        last_launched_at: None,
    }
}

#[test]
fn ids_are_unique() {
    assert_ne!(ProjectId::new(), ProjectId::new());
}

#[test]
fn id_round_trips_through_string() {
    let id = ProjectId::new();
    let parsed = ProjectId::parse(&id.to_hyphenated()).unwrap();
    assert_eq!(id, parsed);
}

#[test]
fn working_dir_falls_back_to_root() {
    let p = project();
    assert_eq!(p.effective_working_dir(), p.root);
}

#[test]
fn working_dir_override_wins() {
    let mut p = project();
    let sub = r"D:\Workspace\Dev\JS\Extensions\Coupon-Hunter\web".to_owned();
    p.overrides.working_dir = Some(sub.clone());
    assert_eq!(p.effective_working_dir(), sub);
}

#[test]
fn kind_label_prefers_framework() {
    assert_eq!(project().kind_label(), "Next.js");
}

#[test]
fn kind_label_falls_back_to_language() {
    let mut p = project();
    p.detected.framework = None;
    assert_eq!(p.kind_label(), "TypeScript");
}

#[test]
fn search_matches_name_case_insensitively() {
    assert!(project().matches_query("coupon"));
    assert!(project().matches_query("COUPON"));
}

#[test]
fn search_matches_tags_framework_and_path() {
    let p = project();
    assert!(p.matches_query("mv3"));
    assert!(p.matches_query("next.js"));
    assert!(p.matches_query("Extensions"));
}

#[test]
fn search_rejects_non_matches() {
    assert!(!project().matches_query("factorio"));
}

#[test]
fn empty_search_matches_everything() {
    assert!(project().matches_query("   "));
}

#[test]
fn ids_parse_only_uuid_text() {
    assert!(ProjectId::parse("not-a-uuid").is_none());
    let id = ProjectId::from_uuid(0x0123_4567_89ab_cdef_0123_4567_89ab_cdef);
    assert_eq!(id.to_hyphenated(), "01234567-89ab-cdef-0123-456789abcdef");
    assert_eq!(id.as_uuid(), 0x0123_4567_89ab_cdef_0123_4567_89ab_cdef);
}

#[test]
fn ports_come_from_the_overrides() {
    let mut p = project();
    assert!(p.effective_ports().is_empty());
    p.overrides.ports = vec![5173];
    assert_eq!(p.effective_ports(), &[5173]);
}

#[test]
fn a_fresh_project_id_is_a_version_four_uuid() {
    let a = ProjectId::new().value;
    let b = ProjectId::new().value;
    assert_eq!((a >> 76) & 0xF, 4);
    assert_eq!((a >> 62) & 0x3, 2);
    assert_ne!(a, b, "two draws differ");
}

#[test]
fn an_id_is_written_as_grouped_lower_case_hex_and_read_back() {
    let id = ProjectId::from_uuid(0x0123_4567_89ab_cdef_0fed_cba9_8765_4321);
    let text = id.to_hyphenated();
    assert_eq!(text, "01234567-89ab-cdef-0fed-cba987654321");
    assert_eq!(ProjectId::parse(&text), Some(id));
    assert_eq!(ProjectId::from_uuid(0).to_hyphenated(), "00000000-0000-0000-0000-000000000000");
}
