use launch_deck::command::{CommandSpec, Lifecycle, TemplateVars};
use launch_deck::manifest::{
    DetectionRule, RunnerManifest, RunnerMeta, SetupRule, SetupState, ValueSource, VarCase, VarRule,
};
use launch_deck::probe::MemoryProject;
use launch_deck::registry::{validate, ManifestProblem, RunnerRegistry};
use launch_deck::runner::{first_matching_entry, ManifestRunner, Runner};

fn project(files: &[(&str, &str)], root: &[&str]) -> MemoryProject {
    MemoryProject {
        files: files.iter().map(|(p, t)| ((*p).to_owned(), (*t).to_owned())).collect(),
        dirs: vec![],
        listings: vec![(String::new(), root.iter().map(|n| (*n).to_owned()).collect())],
    }
}

fn meta(id: &str, priority: i32) -> RunnerMeta {
    RunnerMeta {
        id: id.into(),
        name: id.into(),
        language: "Test".into(),
        framework: None,
        icon: None,
        priority,
        default_ports: vec![],
    }
}

fn case(value: &str, file: &str) -> VarCase {
    VarCase { value: value.into(), when: DetectionRule::FileExists(file.into()) }
}

fn var(name: &str, default: &str, cases: Vec<VarCase>) -> VarRule {
    VarRule {
        name: name.into(),
        default: default.into(),
        cases,
        from_value: None,
        first_match: None,
        first_match_any: vec![],
    }
}

fn node_manifest() -> RunnerManifest {
    RunnerManifest {
        meta: RunnerMeta { language: "JavaScript".into(), name: "Node.js".into(), ..meta("node", 100) },
        detect: vec![DetectionRule::FileExists("package.json".into())],
        vars: vec![
            var("pm", "npm", vec![case("pnpm", "pnpm-lock.yaml"), case("yarn", "yarn.lock"), case("bun", "bun.lockb")]),
            var(
                "script",
                "start",
                vec![
                    VarCase {
                        value: "dev".into(),
                        when: DetectionRule::JsonKeyExists { file: "package.json".into(), pointer: "scripts/dev".into() },
                    },
                    VarCase {
                        value: "serve".into(),
                        when: DetectionRule::JsonKeyExists { file: "package.json".into(), pointer: "scripts/serve".into() },
                    },
                ],
            ),
        ],
        commands: vec![
            (Lifecycle::Run, CommandSpec::exec("{pm}", &["run", "{script}"])),
            (Lifecycle::Install, CommandSpec::exec("{pm}", &["install"])),
        ],
        version: Some(ValueSource::Json { file: "package.json".into(), pointer: "version".into() }),
        health: None,
        setup: vec![],
    }
}

fn runner() -> ManifestRunner {
    ManifestRunner::new(node_manifest(), String::new())
}

fn nothing_exists(_: &str) -> bool {
    false
}

#[test]
fn detects_a_matching_directory() {
    let f = project(&[("package.json", r#"{"version":"1.4.2","scripts":{"dev":"vite"}}"#)], &["package.json"]);
    let m = runner().detect(&f).expect("should match");
    assert_eq!(m.meta.id, "node");
    assert_eq!(m.version.as_deref(), Some("1.4.2"));
}

#[test]
fn declines_a_non_matching_directory() {
    let f = project(&[("Cargo.toml", "[package]\nname=\"x\"\n")], &["Cargo.toml"]);
    assert!(runner().detect(&f).is_none());
}

#[test]
fn resolves_package_manager_from_the_lockfile() {
    let f = project(&[("package.json", r#"{"scripts":{"dev":"vite"}}"#), ("pnpm-lock.yaml", "lockfileVersion: '9.0'")], &[]);
    let m = runner().detect(&f).unwrap();
    assert_eq!(m.vars.get("pm"), Some("pnpm"));
}

#[test]
fn first_matching_var_case_wins() {
    let f = project(&[("package.json", "{}"), ("pnpm-lock.yaml", ""), ("yarn.lock", "")], &[]);
    let m = runner().detect(&f).unwrap();
    assert_eq!(m.vars.get("pm"), Some("pnpm"));
}

#[test]
fn var_falls_back_to_default_when_no_case_matches() {
    let f = project(&[("package.json", "{}")], &[]);
    let m = runner().detect(&f).unwrap();
    assert_eq!(m.vars.get("pm"), Some("npm"));
    assert_eq!(m.vars.get("script"), Some("start"));
}

#[test]
fn builds_the_run_command_from_resolved_vars() {
    let f = project(&[("package.json", r#"{"scripts":{"dev":"vite"}}"#), ("pnpm-lock.yaml", "")], &[]);
    let r = runner();
    let m = r.detect(&f).unwrap();
    let cmd = r.command(Lifecycle::Run, &m.vars, &nothing_exists).unwrap();
    assert_eq!(cmd.program, "pnpm");
    assert_eq!(cmd.args, vec!["run", "dev"]);
    assert_eq!(cmd.to_string(), "pnpm run dev");
}

#[test]
fn unsupported_lifecycle_reports_which_step_is_missing() {
    let r = runner();
    let err = r.command(Lifecycle::Clean, &TemplateVars::new(), &nothing_exists).unwrap_err();
    assert_eq!(err.code(), "lifecycle_not_supported");
}

#[test]
fn supported_reports_only_declared_steps() {
    let r = runner();
    assert_eq!(r.supported(), vec![Lifecycle::Install, Lifecycle::Run]);
    assert!(r.supports(Lifecycle::Run));
    assert!(!r.supports(Lifecycle::Debug));
}

#[test]
fn version_is_none_when_the_project_declares_none() {
    let f = project(&[("package.json", r#"{"scripts":{"dev":"vite"}}"#)], &[]);
    assert!(runner().detect(&f).unwrap().version.is_none());
}

#[test]
fn detection_priority_is_carried_through() {
    let f = project(&[("package.json", "{}")], &[]);
    assert_eq!(runner().detect(&f).unwrap().priority(), 100);
}

/// A project whose directory `dir` holds the files `names`.
fn tree_with(dir: &str, names: &[&str]) -> MemoryProject {
    let mut p = project(&[], &[]);
    p.listings.push((dir.to_owned(), names.iter().map(|n| (*n).to_owned()).collect()));
    p.files.extend(names.iter().map(|n| (format!("{dir}/{n}"), String::new())));
    p
}

#[test]
fn a_pattern_may_reach_into_a_build_directory() {
    let p = tree_with("src-tauri/target/release", &["chess-scout.exe"]);
    assert_eq!(
        first_matching_entry(&p, "src-tauri/target/release/*.exe", &TemplateVars::new()).as_deref(),
        Some("src-tauri/target/release/chess-scout.exe")
    );
}

#[test]
fn directories_are_never_offered_as_binaries() {
    let mut p = tree_with("target/release", &["real.exe"]);
    p.listings.last_mut().unwrap().1.insert(0, "weird.exe".to_owned());
    p.dirs.push("target/release/weird.exe".to_owned());
    assert_eq!(
        first_matching_entry(&p, "target/release/*.exe", &TemplateVars::new()).as_deref(),
        Some("target/release/real.exe"),
        "a directory named *.exe cannot be launched and must be skipped"
    );
}

#[test]
fn a_bare_pattern_still_returns_a_bare_filename() {
    let p = project(&[("deploy.ps1", "")], &["deploy.ps1"]);
    assert_eq!(first_matching_entry(&p, "*.ps1", &TemplateVars::new()).as_deref(), Some("deploy.ps1"));
}

#[test]
fn a_missing_build_directory_yields_nothing_rather_than_erroring() {
    let p = project(&[], &[]);
    assert!(first_matching_entry(&p, "src-tauri/target/release/*.exe", &TemplateVars::new()).is_none());
}

#[test]
fn the_choice_is_stable_rather_than_iteration_order() {
    let p = tree_with("target/release", &["zeta.exe", "alpha.exe", "mid.exe"]);
    assert_eq!(
        first_matching_entry(&p, "target/release/*.exe", &TemplateVars::new()).as_deref(),
        Some("target/release/alpha.exe")
    );
}

#[test]
fn a_pattern_can_name_a_binary_through_a_variable() {
    let p = tree_with("target/release", &["aaa-cli.exe", "pulse-app.exe"]);
    let mut vars = TemplateVars::new();
    vars.set("appname".to_owned(), "pulse-app".to_owned());
    assert_eq!(
        first_matching_entry(&p, "target/release/{appname}.exe", &vars).as_deref(),
        Some("target/release/pulse-app.exe")
    );
    assert_eq!(
        first_matching_entry(&p, "target/release/*.exe", &TemplateVars::new()).as_deref(),
        Some("target/release/aaa-cli.exe")
    );
}

#[test]
fn an_unknown_variable_matches_nothing() {
    let p = tree_with("target/release", &["something.exe"]);
    assert_eq!(first_matching_entry(&p, "target/release/{nosuchvar}.exe", &TemplateVars::new()), None);
}

#[test]
fn a_script_shipped_beside_the_manifest_is_found_there() {
    let mut m = node_manifest();
    m.commands = vec![(Lifecycle::Run, CommandSpec::Script { path: "tools/go.ps1".into(), args: vec![] })];
    let r = ManifestRunner::new(m, r"C:\runners".to_owned());
    let cmd = r
        .command(Lifecycle::Run, &TemplateVars::new(), &|p: &str| p == r"C:\runners\tools/go.ps1")
        .unwrap();
    assert_eq!(cmd.program, "powershell.exe");
    assert_eq!(cmd.args.last().map(String::as_str), Some(r"C:\runners\tools/go.ps1"));
    let cmd = r.command(Lifecycle::Run, &TemplateVars::new(), &nothing_exists).unwrap();
    assert_eq!(cmd.args.last().map(String::as_str), Some("tools/go.ps1"));
}

#[test]
fn first_match_vars_pick_the_least_matching_name() {
    let mut m = node_manifest();
    m.vars.push(VarRule {
        name: "exe".into(),
        default: "none".into(),
        cases: vec![],
        from_value: None,
        first_match: Some("bin/*.exe".into()),
        first_match_any: vec![],
    });
    let mut p = project(&[("package.json", "{}"), ("bin/b.exe", ""), ("bin/a.EXE", ""), ("bin/c.txt", "")], &["package.json"]);
    p.listings.push(("bin".to_owned(), vec!["b.exe".into(), "a.EXE".into(), "c.txt".into()]));
    let d = ManifestRunner::new(m, String::new()).detect(&p).unwrap();
    assert_eq!(d.vars.get("exe"), Some("bin/a.EXE"));
}

// ---------------------------------------------------------------------------
// Registry
// ---------------------------------------------------------------------------

fn marker_manifest(id: &str, priority: i32) -> RunnerManifest {
    RunnerManifest {
        meta: meta(id, priority),
        detect: vec![DetectionRule::FileExists("marker".into())],
        vars: vec![],
        commands: vec![(Lifecycle::Run, CommandSpec::exec(id, &[]))],
        version: None,
        health: None,
        setup: vec![],
    }
}

fn registry(list: &[(&str, i32)]) -> RunnerRegistry {
    let mut r = RunnerRegistry::new();
    for (id, p) in list {
        r.insert(ManifestRunner::new(marker_manifest(id, *p), String::new()));
    }
    r
}

#[test]
fn highest_priority_runner_wins() {
    let reg = registry(&[("aaa-low", 10), ("bbb-high", 900)]);
    let proj = project(&[("marker", "")], &["marker"]);
    assert_eq!(reg.detect(&proj).unwrap().meta.id, "bbb-high");
}

#[test]
fn equal_priority_ties_break_deterministically_by_id() {
    let proj = project(&[("marker", "")], &["marker"]);
    for order in [[("alpha", 500), ("omega", 500)], [("omega", 500), ("alpha", 500)]] {
        assert_eq!(registry(&order).detect(&proj).unwrap().meta.id, "omega");
    }
}

#[test]
fn unclaimed_directory_detects_as_none() {
    let reg = registry(&[("a", 1), ("b", 2)]);
    let proj = project(&[("notes.txt", "just some text")], &["notes.txt"]);
    assert!(reg.detect(&proj).is_none());
    assert!(reg.detect_all(&proj).is_empty());
}

#[test]
fn detect_all_returns_every_match_best_first() {
    let reg = registry(&[("lo", 10), ("mid", 300), ("hi", 800), ("mid2", 300)]);
    let proj = project(&[("marker", "")], &["marker"]);
    let ids: Vec<String> = reg.detect_all(&proj).into_iter().map(|m| m.meta.id).collect();
    assert_eq!(ids, vec!["hi", "mid2", "mid", "lo"]);
}

#[test]
fn a_user_manifest_replaces_a_bundled_one_with_the_same_id() {
    let mut reg = registry(&[("node", 100), ("rust", 100)]);
    let mut replacement = marker_manifest("node", 5);
    replacement.meta.language = "Replaced".into();
    reg.insert(ManifestRunner::new(replacement, "user".to_owned()));
    let nodes: Vec<_> = reg.runners().iter().filter(|r| r.meta().id == "node").collect();
    assert_eq!(nodes.len(), 1);
    assert_eq!(nodes[0].meta().language, "Replaced");
    assert_eq!(reg.runners()[0].meta().id, "node", "replacement keeps its slot");
    assert_eq!(reg.get("node").unwrap().base_dir(), "user");
    assert!(reg.get("go").is_none());
}

#[test]
fn problems_are_recorded_alongside_runners() {
    let mut reg = registry(&[("zig", 150)]);
    reg.add_problem(ManifestProblem { path: "aaa-broken.toml".into(), id: None, reason: "bad".into() });
    assert_eq!(reg.problems().len(), 1);
    assert!(reg.get("zig").is_some());
}

#[test]
fn manifest_without_detection_rules_is_rejected() {
    let mut m = marker_manifest("bad", 100);
    m.detect.clear();
    let err = validate(&m).unwrap_err();
    assert!(err.contains("detection rules"));
    assert!(err.contains("[[detect]]"));
}

#[test]
fn manifest_without_a_run_command_is_rejected() {
    let mut m = marker_manifest("bad", 100);
    m.commands = vec![(Lifecycle::Build, CommandSpec::exec("x", &[]))];
    assert!(validate(&m).unwrap_err().contains("commands.run"));
}

#[test]
fn manifest_with_a_path_unsafe_id_is_rejected() {
    let m = marker_manifest("../evil", 100);
    assert_eq!(
        validate(&m).unwrap_err(),
        "meta.id `../evil` must contain only letters, digits, hyphen and underscore (it is used in file paths)"
    );
    assert_eq!(validate(&marker_manifest("  ", 1)).unwrap_err(), "meta.id must not be empty");
    assert!(validate(&marker_manifest("ok_id-2", 1)).is_ok());
}

#[test]
fn an_unnamed_variable_is_rejected() {
    let mut m = marker_manifest("x", 1);
    m.vars.push(var(" ", "d", vec![]));
    assert_eq!(validate(&m).unwrap_err(), "a [[vars]] entry has an empty name");
}

#[test]
fn the_first_unsatisfied_rule_wins() {
    let mut m = marker_manifest("t", 1);
    m.setup = vec![
        SetupRule { when_file_exists: "a".into(), requires_any: vec!["ok".into()], hint: "first".into() },
        SetupRule { when_file_exists: "b".into(), requires_any: vec!["nope".into()], hint: "second".into() },
    ];
    match m.setup_state(&|p: &str| matches!(p, "a" | "b" | "ok")) {
        SetupState::NeedsSetup { hint, .. } => assert_eq!(hint, "second"),
        SetupState::Ready => panic!("the unsatisfied second rule was not reported"),
    }
    assert_eq!(m.setup_state(&|p: &str| matches!(p, "a" | "b" | "ok" | "nope")), SetupState::Ready);
}

#[test]
fn the_runner_trait_answers_as_the_manifest_does() {
    let r = runner();
    assert_eq!(Runner::meta(&r).id, "node");
    assert!(Runner::supports(&r, Lifecycle::Run));
    assert!(!Runner::supports(&r, Lifecycle::Build));
    assert_eq!(Runner::supported(&r), vec![Lifecycle::Install, Lifecycle::Run]);
    let f = project(&[("package.json", "{}")], &["package.json"]);
    assert!(Runner::detect(&r, &f).is_some());
}

#[test]
fn detect_gives_the_first_of_detect_all() {
    let reg = registry(&[("lo", 10), ("mid", 300), ("hi", 800), ("mid2", 300)]);
    let proj = project(&[("marker", "")], &["marker"]);
    assert_eq!(reg.detect(&proj).unwrap().meta.id, reg.detect_all(&proj)[0].meta.id);
    let none = project(&[], &[]);
    assert!(reg.detect(&none).is_none());
    assert!(reg.detect_all(&none).is_empty());
}
