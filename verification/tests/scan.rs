use launch_deck::command::{CommandSpec, Lifecycle};
use launch_deck::manifest::{DetectionRule, RunnerManifest, RunnerMeta, ValueSource, VarCase, VarRule};
use launch_deck::probe::MemoryProject;
use launch_deck::registry::RunnerRegistry;
use launch_deck::runner::ManifestRunner;
use launch_deck::scan::{ScanOptions, ScanResult, Scanner};

const ROOT: &str = r"W:\ws";

fn var(name: &str, default: &str, cases: Vec<VarCase>) -> VarRule {
    VarRule { name: name.into(), default: default.into(), cases, from_value: None, first_match: None, first_match_any: vec![] }
}

fn runner(id: &str, priority: i32, detect: Vec<DetectionRule>, vars: Vec<VarRule>, run: CommandSpec) -> ManifestRunner {
    let manifest = RunnerManifest {
        meta: RunnerMeta {
            id: id.into(),
            name: id.into(),
            language: "Test".into(),
            framework: None,
            icon: None,
            priority,
            default_ports: vec![],
        },
        detect,
        vars,
        commands: vec![(Lifecycle::Run, run)],
        version: Some(ValueSource::Json { file: "package.json".into(), pointer: "version".into() }),
        health: None,
        setup: vec![],
    };
    ManifestRunner::new(manifest, String::new())
}

fn registry() -> RunnerRegistry {
    let file = |f: &str| DetectionRule::FileExists(f.into());
    let json = |p: &str| DetectionRule::JsonKeyExists { file: "package.json".into(), pointer: p.into() };
    let mut r = RunnerRegistry::new();
    r.insert(runner(
        "node",
        100,
        vec![file("package.json")],
        vec![
            var("pm", "npm", vec![VarCase { value: "pnpm".into(), when: file("pnpm-lock.yaml") }]),
            var("script", "start", vec![VarCase { value: "dev".into(), when: json("scripts/dev") }]),
        ],
        CommandSpec::exec("{pm}", &["run", "{script}"]),
    ));
    r.insert(runner(
        "tauri",
        200,
        vec![file("package.json"), json("devDependencies/@tauri-apps~1cli")],
        vec![],
        CommandSpec::exec("npm", &["run", "tauri", "dev"]),
    ));
    r.insert(runner("rust", 100, vec![file("Cargo.toml")], vec![], CommandSpec::exec("cargo", &["run"])));
    r.insert(runner("go", 100, vec![file("go.mod")], vec![], CommandSpec::exec("go", &["run", "."])));
    r
}

/// A directory tree held in memory: file paths relative to the root.
struct Tree(Vec<(String, String)>);

impl Tree {
    fn new(files: &[(&str, &str)]) -> Self {
        Tree(files.iter().map(|(p, t)| ((*p).to_owned(), (*t).to_owned())).collect())
    }

    /// The path of `dir` relative to the root, with `/` separators.
    fn rel(dir: &str) -> Option<String> {
        let rest = dir.strip_prefix(ROOT)?;
        Some(rest.trim_start_matches('\\').replace('\\', "/"))
    }

    fn dirs(&self) -> Vec<String> {
        let mut out = vec![String::new()];
        for (path, _) in &self.0 {
            let parts: Vec<&str> = path.split('/').collect();
            for n in 1..parts.len() {
                let d = parts[..n].join("/");
                if !out.contains(&d) {
                    out.push(d);
                }
            }
        }
        out
    }

    fn exists_dir(&self, rel: &str) -> bool {
        self.dirs().iter().any(|d| d == rel)
    }

    /// The names of the subdirectories of `rel`.
    fn subdirs(&self, rel: &str) -> Option<Vec<String>> {
        if !self.exists_dir(rel) {
            return None;
        }
        let mut names = Vec::new();
        for d in self.dirs() {
            let inner = if rel.is_empty() { Some(d.as_str()) } else { d.strip_prefix(&format!("{rel}/")) };
            if let Some(name) = inner {
                if !name.is_empty() && !name.contains('/') && !names.contains(&name.to_owned()) {
                    names.push(name.to_owned());
                }
            }
        }
        names.reverse();
        Some(names)
    }

    /// A probe looking at `rel` as a project root.
    fn probe(&self, rel: &str) -> MemoryProject {
        let prefix = if rel.is_empty() { String::new() } else { format!("{rel}/") };
        let files: Vec<(String, String)> = self
            .0
            .iter()
            .filter_map(|(p, t)| p.strip_prefix(&prefix).map(|r| (r.to_owned(), t.clone())))
            .collect();
        let names: Vec<String> = files.iter().map(|(p, _)| p.split('/').next().unwrap().to_owned()).collect();
        MemoryProject { files, dirs: vec![], listings: vec![(String::new(), names)] }
    }
}

fn scan(tree: &Tree, root: &str, options: ScanOptions) -> ScanResult {
    let reg = registry();
    let mut s = Scanner::new(root, options);
    while let Some(dir) = s.next() {
        if !s.enter(&dir) {
            continue;
        }
        let Some(rel) = Tree::rel(&dir) else {
            s.found(None, &reg, &|_: &str| false, 0);
            s.listed(None);
            continue;
        };
        let probe = tree.probe(&rel);
        let detected = if tree.exists_dir(&rel) { reg.detect(&probe) } else { None };
        if s.found(detected.as_ref(), &reg, &|_: &str| false, 0) {
            s.listed(tree.subdirs(&rel));
        }
    }
    s.finish()
}

fn names(result: &ScanResult) -> Vec<&str> {
    result.drafts.iter().map(|d| d.name.as_str()).collect()
}

fn opts(f: impl FnOnce(&mut ScanOptions)) -> ScanOptions {
    let mut o = ScanOptions::default();
    f(&mut o);
    o
}

#[test]
fn finds_projects_one_level_down() {
    let t = Tree::new(&[
        ("web/package.json", r#"{"scripts":{"dev":"vite"}}"#),
        ("cli/Cargo.toml", "[package]\nname=\"cli\"\n"),
        ("svc/go.mod", "module svc\n"),
    ]);
    let r = scan(&t, ROOT, ScanOptions::default());
    assert_eq!(names(&r), vec!["cli", "svc", "web"], "breadth-first, in string order");
}

#[test]
fn never_enters_ignored_directories() {
    let t = Tree::new(&[
        ("app/package.json", "{}"),
        ("app/node_modules/left-pad/package.json", r#"{"name":"left-pad"}"#),
        ("app/node_modules/.bin/placeholder", ""),
    ]);
    let r = scan(&t, ROOT, opts(|o| o.prune_nested = false));
    assert_eq!(names(&r), vec!["app"]);
    assert!(!r.drafts.iter().any(|d| d.root.contains("node_modules")), "scan descended into node_modules");
}

#[test]
fn skips_build_output_and_vcs_directories() {
    let t = Tree::new(&[
        ("app/Cargo.toml", "[package]\nname=\"a\"\n"),
        ("app/target/debug/build/x/Cargo.toml", "[package]\nname=\"gen\"\n"),
        ("app/.git/objects/pack", ""),
    ]);
    let r = scan(&t, ROOT, opts(|o| o.prune_nested = false));
    assert_eq!(names(&r), vec!["app"]);
    assert!(r.directories_skipped > 0);
}

#[test]
fn dotted_directories_are_skipped_wholesale() {
    let t = Tree::new(&[("real/package.json", "{}"), (".hidden-tooling/package.json", "{}")]);
    assert_eq!(names(&scan(&t, ROOT, ScanOptions::default())), vec!["real"]);
}

#[test]
fn pruning_stops_at_the_outermost_project() {
    let t = Tree::new(&[
        ("app/package.json", r#"{"devDependencies":{"@tauri-apps/cli":"^2"}}"#),
        ("app/src-tauri/Cargo.toml", "[package]\nname=\"app\"\n"),
    ]);
    let r = scan(&t, ROOT, ScanOptions::default());
    assert_eq!(names(&r), vec!["app"]);
    assert_eq!(r.drafts[0].detected.as_ref().unwrap().runner_id, "tauri");
}

#[test]
fn disabling_pruning_surfaces_nested_projects() {
    let t = Tree::new(&[
        ("mono/package.json", r#"{"name":"mono"}"#),
        ("mono/packages-a/package.json", r#"{"name":"a"}"#),
        ("mono/apps/web/package.json", r#"{"name":"web"}"#),
    ]);
    assert_eq!(names(&scan(&t, ROOT, ScanOptions::default())), vec!["mono"]);
    let all = scan(&t, ROOT, opts(|o| o.prune_nested = false));
    let mut found = names(&all);
    found.sort_unstable();
    assert_eq!(found, vec!["mono", "packages-a", "web"]);
}

#[test]
fn depth_cap_is_respected() {
    let t = Tree::new(&[("a/b/c/d/e/package.json", "{}")]);
    assert!(scan(&t, ROOT, opts(|o| o.max_depth = 2)).drafts.is_empty());
    assert_eq!(names(&scan(&t, ROOT, opts(|o| o.max_depth = 6))), vec!["e"]);
}

#[test]
fn unknown_directories_are_excluded_by_default_and_optional() {
    let t = Tree::new(&[("real/go.mod", "module real\n"), ("notes/todo.txt", "buy milk")]);
    assert_eq!(names(&scan(&t, ROOT, ScanOptions::default())), vec!["real"]);
    let with_unknown = scan(&t, ROOT, opts(|o| o.include_unknown = true));
    let found = names(&with_unknown);
    assert!(found.contains(&"notes"));
    assert!(found.contains(&"real"));
    assert_eq!(found.len(), 3, "the root itself is unidentified too");
}

#[test]
fn max_results_truncates_and_says_so() {
    let files: Vec<(String, String)> = (0..12).map(|i| (format!("p{i:02}/go.mod"), format!("module p{i}\n"))).collect();
    let borrowed: Vec<(&str, &str)> = files.iter().map(|(a, b)| (a.as_str(), b.as_str())).collect();
    let t = Tree::new(&borrowed);
    let r = scan(&t, ROOT, opts(|o| o.max_results = 5));
    assert_eq!(r.drafts.len(), 5);
    assert!(r.truncated);
    assert_eq!(names(&r), vec!["p00", "p01", "p02", "p03", "p04"]);
}

#[test]
fn complete_scan_is_not_marked_truncated() {
    let t = Tree::new(&[("one/go.mod", "module one\n")]);
    assert!(!scan(&t, ROOT, ScanOptions::default()).truncated);
}

#[test]
fn extra_ignores_are_honoured() {
    let t = Tree::new(&[("keep/go.mod", "module keep\n"), ("scratch/go.mod", "module scratch\n")]);
    let r = scan(&t, ROOT, opts(|o| o.extra_ignores = vec!["SCRATCH".to_owned()]));
    assert_eq!(names(&r), vec!["keep"]);
}

#[test]
fn drafts_carry_the_command_that_would_run() {
    let t = Tree::new(&[
        ("web/package.json", r#"{"version":"3.0.0","scripts":{"dev":"vite"}}"#),
        ("web/pnpm-lock.yaml", ""),
    ]);
    let r = scan(&t, ROOT, ScanOptions::default());
    let draft = &r.drafts[0];
    let facts = draft.detected.as_ref().unwrap();
    assert_eq!(facts.package_manager.as_deref(), Some("pnpm"));
    assert_eq!(facts.version.as_deref(), Some("3.0.0"));
    assert_eq!(draft.proposed_run.as_deref(), Some("pnpm run dev"));
    assert_eq!(draft.root, r"W:\ws\web");
}

#[test]
fn scanning_a_missing_root_yields_nothing_and_does_not_panic() {
    let t = Tree::new(&[]);
    let r = scan(&t, r"D:\no-such-scan-root-xyz", ScanOptions::default());
    assert!(r.drafts.is_empty());
    assert_eq!(r.directories_skipped, 1);
}

#[test]
fn a_project_at_the_scan_root_itself_is_found() {
    let t = Tree::new(&[("Cargo.toml", "[package]\nname=\"here\"\n")]);
    let r = scan(&t, ROOT, ScanOptions::default());
    assert_eq!(r.drafts.len(), 1);
    assert_eq!(r.drafts[0].detected.as_ref().unwrap().runner_id, "rust");
    assert_eq!(r.drafts[0].name, "ws");
}

#[test]
fn results_are_stable_across_repeated_scans() {
    let t = Tree::new(&[("a/go.mod", "module a\n"), ("b/Cargo.toml", "[package]\nname=\"b\"\n"), ("c/package.json", "{}")]);
    let first: Vec<String> = names(&scan(&t, ROOT, ScanOptions::default())).iter().map(|s| (*s).to_owned()).collect();
    for _ in 0..3 {
        let again: Vec<String> = names(&scan(&t, ROOT, ScanOptions::default())).iter().map(|s| (*s).to_owned()).collect();
        assert_eq!(again, first);
    }
}

#[test]
fn a_directory_reached_twice_is_visited_once() {
    let mut s = Scanner::new(ROOT, ScanOptions::default());
    let dir = s.next().unwrap();
    assert!(s.enter(&dir));
    assert!(s.found(None, &registry(), &|_: &str| false, 0));
    s.listed(Some(vec!["link".to_owned(), "real".to_owned(), "node_modules".to_owned()]));
    assert_eq!(s.result().directories_skipped, 1);
    let first = s.next().unwrap();
    assert!(s.enter("W:\\ws\\real"), "{first} resolves to the real directory");
    if s.found(None, &registry(), &|_: &str| false, 0) {
        s.listed(Some(vec![]));
    }
    let second = s.next().unwrap();
    assert!(!s.enter("W:\\ws\\real"), "{second} is the same directory again");
    assert!(s.next().is_none());
    assert_eq!(s.finish().directories_visited, 2);
}

#[test]
fn a_kept_draft_is_built_for_the_directory_being_visited() {
    let options = ScanOptions { include_unknown: true, ..ScanOptions::default() };
    let mut s = Scanner::new(ROOT, options);
    let dir = s.next().unwrap();
    assert!(s.enter(&dir));
    s.found(None, &registry(), &|_: &str| false, 0);
    assert_eq!(s.result().drafts.last().unwrap().root, dir);
}
