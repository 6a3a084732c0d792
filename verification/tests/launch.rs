use launch_deck::command::{CommandSpec, Lifecycle, ResolvedCommand};
use launch_deck::error::DeckError;
use launch_deck::launch::{env_file_path, parse_env_text, plan, unwrap_package_script, LaunchPlan};
use launch_deck::manifest::{DetectionRule, RunnerManifest, RunnerMeta, VarCase, VarRule};
use launch_deck::probe::MemoryProject;
use launch_deck::project::{DetectedFacts, EnvVar, Project, ProjectId, ProjectOverrides, RestartPolicy};
use launch_deck::registry::RunnerRegistry;
use launch_deck::runner::ManifestRunner;

const ROOT: &str = r"D:\Dev\web-app";

fn tree(files: &[(&str, &str)]) -> MemoryProject {
    MemoryProject {
        files: files.iter().map(|(p, t)| ((*p).to_owned(), (*t).to_owned())).collect(),
        dirs: vec![],
        listings: vec![(String::new(), files.iter().map(|(p, _)| (*p).to_owned()).collect())],
    }
}

fn meta(id: &str, ports: Vec<u16>) -> RunnerMeta {
    RunnerMeta {
        id: id.into(),
        name: id.into(),
        language: "JavaScript".into(),
        framework: None,
        icon: None,
        priority: 100,
        default_ports: ports,
    }
}

fn case(value: &str, when: DetectionRule) -> VarCase {
    VarCase { value: value.into(), when }
}

fn var(name: &str, default: &str, cases: Vec<VarCase>) -> VarRule {
    VarRule { name: name.into(), default: default.into(), cases, from_value: None, first_match: None, first_match_any: vec![] }
}

fn manifest(id: &str, ports: Vec<u16>, vars: Vec<VarRule>, commands: Vec<(Lifecycle, CommandSpec)>) -> RunnerManifest {
    RunnerManifest {
        meta: meta(id, ports),
        detect: vec![DetectionRule::FileExists("package.json".into())],
        vars,
        commands,
        version: None,
        health: None,
        setup: vec![],
    }
}

fn node() -> RunnerManifest {
    let json = |p: &str| DetectionRule::JsonKeyExists { file: "package.json".into(), pointer: p.into() };
    manifest(
        "node",
        vec![3000, 5173, 8080],
        vec![
            var(
                "pm",
                "npm",
                vec![
                    case("pnpm", DetectionRule::FileExists("pnpm-lock.yaml".into())),
                    case("yarn", DetectionRule::FileExists("yarn.lock".into())),
                ],
            ),
            var("script", "start", vec![case("dev", json("scripts/dev")), case("serve", json("scripts/serve"))]),
        ],
        vec![
            (Lifecycle::Install, CommandSpec::exec("{pm}", &["install"])),
            (Lifecycle::Build, CommandSpec::exec("{pm}", &["run", "build"])),
            (Lifecycle::Run, CommandSpec::exec("{pm}", &["run", "{script}"])),
        ],
    )
}

fn lua() -> RunnerManifest {
    manifest("lua", vec![], vec![], vec![(Lifecycle::Run, CommandSpec::exec("lua", &["main.lua"]))])
}

fn batch() -> RunnerManifest {
    let mut entry = var("entry", "run.bat", vec![]);
    entry.first_match = Some("*.bat".into());
    manifest(
        "batch",
        vec![],
        vec![entry],
        vec![(Lifecycle::Run, CommandSpec::Script { path: "{projectRoot}\\{entry}".into(), args: vec![] })],
    )
}

fn registry() -> RunnerRegistry {
    let mut r = RunnerRegistry::new();
    for m in [node(), lua(), batch()] {
        r.insert(ManifestRunner::new(m, String::new()));
    }
    r
}

fn node_project() -> Project {
    let now = 1_700_000_000_000;
    Project {
        id: ProjectId::new(),
        name: "Web App".into(),
        description: None,
        root: ROOT.into(),
        detected: DetectedFacts {
            runner_id: "node".into(),
            language: "JavaScript".into(),
            framework: None,
            package_manager: Some("npm".into()),
            version: None,
            detected_at: now,
        },
        overrides: ProjectOverrides::default(),
        tags: vec![],
        category: None,
        favorite: false,
        pinned: false,
        archived: false,
        restart_policy: RestartPolicy::Never,
        notes: None,
        created_at: now,
        updated_at: now,
        last_launched_at: None,
    }
}

const VITE: &str = r#"{"scripts":{"dev":"vite"}}"#;

fn nothing_exists(_: &str) -> bool {
    false
}

fn plan_with(p: &Project, files: &[(&str, &str)], step: Lifecycle, env: Option<Result<String, DeckError>>) -> Result<LaunchPlan, DeckError> {
    let probe = tree(files);
    let package = files.iter().find(|(n, _)| *n == "package.json").map(|(_, t)| *t);
    plan(p, &registry(), step, &probe, &nothing_exists, package, env)
}

#[test]
fn runner_default_ports_are_likely_never_required() {
    let p = node_project();
    let run = plan_with(&p, &[("package.json", VITE)], Lifecycle::Run, None).unwrap();
    assert!(run.required_ports.is_empty(), "a guessed port must never gate a launch: {:?}", run.required_ports);
    assert!(!run.likely_ports.is_empty(), "runner defaults should warn");

    let build = plan_with(&p, &[("package.json", VITE)], Lifecycle::Build, None).unwrap();
    assert!(build.required_ports.is_empty());
    assert!(build.likely_ports.is_empty());
}

#[test]
fn a_user_configured_port_is_required_and_supersedes_the_guess() {
    let mut p = node_project();
    p.overrides.ports = vec![4321];
    let run = plan_with(&p, &[("package.json", VITE)], Lifecycle::Run, None).unwrap();
    assert_eq!(run.required_ports, vec![4321]);
    assert!(run.likely_ports.is_empty(), "an explicit list should not also warn about guessed ports");
}

#[test]
fn plans_the_runner_command_with_fresh_vars() {
    let p = node_project();
    let plan = plan_with(&p, &[("package.json", VITE), ("pnpm-lock.yaml", "")], Lifecycle::Run, None).unwrap();
    assert_eq!(plan.command.to_string(), "pnpm run dev");
    assert_eq!(plan.working_dir, ROOT);
}

#[test]
fn a_user_override_beats_the_runner() {
    let mut p = node_project();
    p.overrides.commands.push((Lifecycle::Run, CommandSpec::exec("node", &["server.js"])));
    let plan = plan_with(&p, &[("package.json", VITE)], Lifecycle::Run, None).unwrap();
    assert_eq!(plan.command.to_string(), "node server.js");
}

#[test]
fn extra_args_reach_run_but_not_build() {
    let mut p = node_project();
    p.overrides.args = vec!["--port".into(), "4100".into()];
    let run = plan_with(&p, &[("package.json", VITE)], Lifecycle::Run, None).unwrap();
    assert!(run.command.args.ends_with(&["--port".into(), "4100".into()]));

    let build = plan_with(&p, &[("package.json", VITE)], Lifecycle::Build, None).unwrap();
    assert!(!build.command.args.contains(&"--port".to_owned()));
}

#[test]
fn unsupported_step_is_reported_not_guessed() {
    let mut p = node_project();
    p.detected.runner_id = "lua".into();
    let err = plan_with(&p, &[("main.lua", "print('hi')")], Lifecycle::Build, None).unwrap_err();
    assert_eq!(err.code(), "lifecycle_not_supported");
}

#[test]
fn a_vanished_runner_id_is_reported() {
    let mut p = node_project();
    p.detected.runner_id = "runner-that-was-uninstalled".into();
    let err = plan_with(&p, &[], Lifecycle::Run, None).unwrap_err();
    assert_eq!(err.code(), "lifecycle_not_supported");
    match err {
        DeckError::LifecycleNotSupported { runner, lifecycle } => {
            assert_eq!(runner, "runner-that-was-uninstalled");
            assert_eq!(lifecycle, Lifecycle::Run);
        }
        other => panic!("unexpected {other:?}"),
    }
}

#[test]
fn working_dir_override_is_honoured() {
    let sub = r"D:\Dev\web-app\packages\web";
    let mut p = node_project();
    p.overrides.working_dir = Some(sub.into());
    let plan = plan_with(&p, &[("package.json", "{}")], Lifecycle::Run, None).unwrap();
    assert_eq!(plan.working_dir, sub);
}

#[test]
fn env_file_loads_and_explicit_vars_win() {
    let mut p = node_project();
    p.overrides.env_file = Some(".env".into());
    p.overrides.env.push(EnvVar::new("PORT", "4000"));
    let body = "# comment\nPORT=3000\nexport API_URL=\"http://localhost:9000\"\nEMPTY=\n";
    let plan = plan_with(&p, &[("package.json", "{}")], Lifecycle::Run, Some(Ok(body.to_owned()))).unwrap();
    let ports: Vec<&str> = plan.env.iter().filter(|(k, _)| k == "PORT").map(|(_, v)| v.as_str()).collect();
    assert_eq!(ports, vec!["3000", "4000"]);
    assert!(plan.env.contains(&("API_URL".into(), "http://localhost:9000".into())));
    assert!(plan.env.contains(&("EMPTY".into(), String::new())));
}

#[test]
fn a_missing_env_file_is_an_error_not_a_silent_skip() {
    let mut p = node_project();
    p.overrides.env_file = Some(".env.production".into());
    let read = Err(DeckError::Io { context: "reading env file".into(), message: "not found".into() });
    let err = plan_with(&p, &[("package.json", "{}")], Lifecycle::Run, Some(read)).unwrap_err();
    assert_eq!(err.code(), "io");
}

#[test]
fn script_runners_resolve_entries_to_absolute_paths() {
    let mut p = node_project();
    p.detected.runner_id = "batch".into();
    let plan = plan_with(&p, &[("run.bat", "@echo off\necho hi\n")], Lifecycle::Run, None).unwrap();
    assert_eq!(plan.command.program, "cmd.exe");
    let script = &plan.command.args[1];
    assert!(script.starts_with(ROOT), "batch entry must be absolute, got `{script}`");
    assert!(script.ends_with("run.bat"));
}

#[test]
fn env_file_dialect_details() {
    let vars = parse_env_text("A='single quoted'\nB=\"double quoted\"\nC=un quoted with spaces\nnot a var line\n");
    assert_eq!(
        vars,
        vec![
            ("A".into(), "single quoted".into()),
            ("B".into(), "double quoted".into()),
            ("C".into(), "un quoted with spaces".into()),
        ]
    );
}

fn unwrap_for(script: &str) -> ResolvedCommand {
    let escaped = script.replace('\\', "\\\\").replace('"', "\\\"");
    let package = format!(r#"{{"scripts":{{"dev":"{escaped}"}}}}"#);
    let mut cmd = ResolvedCommand { program: "npm".to_owned(), args: vec!["run".to_owned(), "dev".to_owned()] };
    unwrap_package_script(&mut cmd, Some(package.as_str()));
    cmd
}

#[test]
fn a_plain_node_script_is_run_directly() {
    let cmd = unwrap_for("node --watch server.js");
    assert_eq!(cmd.program, "node");
    assert_eq!(cmd.args, ["--watch", "server.js"]);
}

#[test]
fn a_local_binary_keeps_the_package_manager() {
    let cmd = unwrap_for("vite --host");
    assert_eq!(cmd.program, "npm");
    assert_eq!(cmd.args, ["run", "dev"]);
}

#[test]
fn shell_syntax_keeps_the_package_manager() {
    for script in ["node a.js && node b.js", "node a.js > out.log", "node $FOO.js"] {
        assert_eq!(unwrap_for(script).program, "npm", "rewrote {script}");
    }
}

#[test]
fn unwrapping_keeps_arguments_after_the_script_name() {
    let mut cmd = ResolvedCommand {
        program: "pnpm".to_owned(),
        args: vec!["run".to_owned(), "dev".to_owned(), "--port".to_owned(), "4100".to_owned()],
    };
    unwrap_package_script(&mut cmd, Some(r#"{"scripts":{"dev":"node server.js"}}"#));
    assert_eq!(cmd.program, "node");
    assert_eq!(cmd.args, ["server.js", "--port", "4100"]);
}

#[test]
fn unwrapping_needs_a_readable_string_script() {
    let original = ResolvedCommand { program: "npm".to_owned(), args: vec!["run".to_owned(), "dev".to_owned()] };
    for package in [None, Some("not json"), Some(r#"{"scripts":{"dev":7}}"#), Some(r#"{"scripts":{}}"#)] {
        let mut cmd = original.clone();
        unwrap_package_script(&mut cmd, package);
        assert_eq!(cmd.program, "npm");
        assert_eq!(cmd.args, original.args);
    }
    let mut other = ResolvedCommand { program: "cargo".to_owned(), args: vec!["run".to_owned(), "dev".to_owned()] };
    unwrap_package_script(&mut other, Some(r#"{"scripts":{"dev":"node x.js"}}"#));
    assert_eq!(other.program, "cargo");
}

#[test]
fn a_script_name_with_a_slash_is_looked_up_as_one_key() {
    let mut cmd = ResolvedCommand { program: "npm".to_owned(), args: vec!["run".to_owned(), "dev/api".to_owned()] };
    unwrap_package_script(&mut cmd, Some(r#"{"scripts":{"dev/api":"node api.js"}}"#));
    assert_eq!(cmd.program, "node");
    assert_eq!(cmd.args, ["api.js"]);
}

#[test]
fn the_env_file_path_is_joined_under_the_root_unless_rooted() {
    let mut p = node_project();
    assert_eq!(env_file_path(&p), None);
    p.overrides.env_file = Some(".env".into());
    assert_eq!(env_file_path(&p).as_deref(), Some(r"D:\Dev\web-app\.env"));
    p.overrides.env_file = Some(r"C:\secrets\prod.env".into());
    assert_eq!(env_file_path(&p).as_deref(), Some(r"C:\secrets\prod.env"));
}

#[test]
fn an_unknown_template_variable_names_it() {
    let mut p = node_project();
    p.overrides.commands.push((Lifecycle::Run, CommandSpec::exec("{nosuch}", &[])));
    match plan_with(&p, &[("package.json", "{}")], Lifecycle::Run, None).unwrap_err() {
        DeckError::UnknownTemplateVar { variable } => assert_eq!(variable, "nosuch"),
        other => panic!("unexpected {other:?}"),
    }
}

#[test]
fn project_variables_override_the_runners() {
    let mut p = node_project();
    p.overrides.commands.push((Lifecycle::Run, CommandSpec::exec("echo", &["{projectName}", "{dirName}", "{pm}"])));
    let plan = plan_with(&p, &[("package.json", "{}"), ("yarn.lock", "")], Lifecycle::Run, None).unwrap();
    assert_eq!(plan.command.args, ["Web App", "web-app", "yarn"]);
}
