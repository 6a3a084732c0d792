use launch_deck::manifest::{DetectionRule, ValueSource};
use launch_deck::probe::{json_parse_error, MemoryProject};
use launch_deck::rule::{evaluate, evaluate_all, read_value};

fn project(files: &[(&str, &str)], dirs: &[&str], root: &[&str]) -> MemoryProject {
    MemoryProject {
        files: files.iter().map(|(p, t)| ((*p).to_owned(), (*t).to_owned())).collect(),
        dirs: dirs.iter().map(|d| (*d).to_owned()).collect(),
        listings: vec![(String::new(), root.iter().map(|n| (*n).to_owned()).collect())],
    }
}

fn node_fixture() -> MemoryProject {
    project(
        &[
            (
                "package.json",
                r#"{
                "name": "web",
                "version": "2.1.0",
                "private": true,
                "scripts": { "dev": "vite", "build": "vite build" },
                "dependencies": { "next": "15.1.0" }
            }"#,
            ),
            ("pnpm-lock.yaml", "lockfileVersion: '9.0'"),
            ("src/index.ts", "export {};"),
        ],
        &["src"],
        &["package.json", "pnpm-lock.yaml", "src"],
    )
}

#[test]
fn file_exists_matches_files_not_directories() {
    let c = node_fixture();
    assert!(evaluate(&DetectionRule::FileExists("package.json".into()), &c));
    assert!(!evaluate(&DetectionRule::FileExists("src".into()), &c));
    assert!(!evaluate(&DetectionRule::FileExists("Cargo.toml".into()), &c));
}

#[test]
fn dir_exists_matches_directories_only() {
    let c = node_fixture();
    assert!(evaluate(&DetectionRule::DirExists("src".into()), &c));
    assert!(!evaluate(&DetectionRule::DirExists("package.json".into()), &c));
}

#[test]
fn glob_matches_only_the_root_directory() {
    let c = project(
        &[("App.csproj", "<Project/>"), ("nested/Deep.csproj", "<Project/>")],
        &["nested"],
        &["App.csproj", "nested"],
    );
    assert!(evaluate(&DetectionRule::GlobMatches("*.csproj".into()), &c));
    assert!(!evaluate(&DetectionRule::GlobMatches("*.sln".into()), &c));

    let g = project(&[("nested/Deep.csproj", "<Project/>")], &["nested"], &["nested"]);
    assert!(!evaluate(&DetectionRule::GlobMatches("*.csproj".into()), &g));
}

#[test]
fn json_key_exists_walks_nested_pointers() {
    let c = node_fixture();
    assert!(evaluate(
        &DetectionRule::JsonKeyExists { file: "package.json".into(), pointer: "scripts/dev".into() },
        &c
    ));
    assert!(evaluate(
        &DetectionRule::JsonKeyExists { file: "package.json".into(), pointer: "dependencies/next".into() },
        &c
    ));
    assert!(!evaluate(
        &DetectionRule::JsonKeyExists { file: "package.json".into(), pointer: "dependencies/svelte".into() },
        &c
    ));
}

#[test]
fn json_key_equals_compares_values() {
    let c = node_fixture();
    assert!(evaluate(
        &DetectionRule::JsonKeyEquals {
            file: "package.json".into(),
            pointer: "scripts/dev".into(),
            value: "vite".into(),
        },
        &c
    ));
    assert!(!evaluate(
        &DetectionRule::JsonKeyEquals {
            file: "package.json".into(),
            pointer: "scripts/dev".into(),
            value: "next dev".into(),
        },
        &c
    ));
}

#[test]
fn json_key_equals_coerces_non_string_scalars() {
    let c = node_fixture();
    assert!(evaluate(
        &DetectionRule::JsonKeyEquals {
            file: "package.json".into(),
            pointer: "private".into(),
            value: "true".into(),
        },
        &c
    ));
}

#[test]
fn toml_key_exists_walks_dotted_paths() {
    let c = project(
        &[("pyproject.toml", "[tool.poetry]\nname = \"svc\"\nversion = \"0.9.1\"\n")],
        &[],
        &["pyproject.toml"],
    );
    assert!(evaluate(
        &DetectionRule::TomlKeyExists { file: "pyproject.toml".into(), path: "tool.poetry".into() },
        &c
    ));
    assert!(!evaluate(
        &DetectionRule::TomlKeyExists { file: "pyproject.toml".into(), path: "tool.pdm".into() },
        &c
    ));
}

#[test]
fn file_contains_searches_text() {
    let c = project(&[("Makefile", "all:\n\tgcc -o app main.c\n")], &[], &["Makefile"]);
    assert!(evaluate(
        &DetectionRule::FileContains { file: "Makefile".into(), text: "gcc".into() },
        &c
    ));
    assert!(!evaluate(
        &DetectionRule::FileContains { file: "Makefile".into(), text: "clang".into() },
        &c
    ));
}

#[test]
fn not_inverts() {
    let c = node_fixture();
    assert!(evaluate(
        &DetectionRule::Not(Box::new(DetectionRule::FileExists("Cargo.toml".into()))),
        &c
    ));
    assert!(!evaluate(
        &DetectionRule::Not(Box::new(DetectionRule::FileExists("package.json".into()))),
        &c
    ));
}

#[test]
fn all_of_and_any_of_combine() {
    let c = node_fixture();
    assert!(evaluate(
        &DetectionRule::AllOf(vec![
            DetectionRule::FileExists("package.json".into()),
            DetectionRule::FileExists("pnpm-lock.yaml".into()),
        ]),
        &c
    ));
    assert!(!evaluate(
        &DetectionRule::AllOf(vec![
            DetectionRule::FileExists("package.json".into()),
            DetectionRule::FileExists("yarn.lock".into()),
        ]),
        &c
    ));
    assert!(evaluate(
        &DetectionRule::AnyOf(vec![
            DetectionRule::FileExists("yarn.lock".into()),
            DetectionRule::FileExists("pnpm-lock.yaml".into()),
        ]),
        &c
    ));
    assert!(!evaluate(&DetectionRule::AnyOf(vec![]), &c));
}

#[test]
fn malformed_json_is_a_non_match_not_a_panic() {
    let c = project(&[("package.json", "{ not json at all ")], &[], &["package.json"]);
    assert!(evaluate(&DetectionRule::FileExists("package.json".into()), &c));
    assert!(!evaluate(
        &DetectionRule::JsonKeyExists { file: "package.json".into(), pointer: "scripts/dev".into() },
        &c
    ));
    assert!(json_parse_error(&c, "package.json").is_some());
}

#[test]
fn empty_top_level_detect_list_never_matches() {
    assert!(!evaluate_all(&[], &node_fixture()));
}

#[test]
fn evaluate_all_requires_every_rule() {
    let c = node_fixture();
    assert!(evaluate_all(
        &[
            DetectionRule::FileExists("package.json".into()),
            DetectionRule::DirExists("src".into()),
        ],
        &c
    ));
    assert!(!evaluate_all(
        &[
            DetectionRule::FileExists("package.json".into()),
            DetectionRule::DirExists("nope".into()),
        ],
        &c
    ));
}

#[test]
fn reads_versions_from_json_and_toml() {
    let f = node_fixture();
    assert_eq!(
        read_value(
            &ValueSource::Json { file: "package.json".into(), pointer: "version".into() },
            &f
        )
        .as_deref(),
        Some("2.1.0")
    );

    let g = project(
        &[("Cargo.toml", "[package]\nname = \"thing\"\nversion = \"0.3.7\"\n")],
        &[],
        &["Cargo.toml"],
    );
    assert_eq!(
        read_value(
            &ValueSource::Toml { file: "Cargo.toml".into(), path: "package.version".into() },
            &g
        )
        .as_deref(),
        Some("0.3.7")
    );
}

#[test]
fn value_read_from_a_missing_file_is_none() {
    let f = project(&[], &[], &[]);
    assert!(read_value(
        &ValueSource::Json { file: "package.json".into(), pointer: "version".into() },
        &f
    )
    .is_none());
}

#[test]
fn rules_cannot_escape_the_project_root() {
    // The probe would answer for these paths; the rules must never ask.
    let c = project(
        &[
            ("..\\..\\..\\Windows\\System32\\drivers\\etc\\hosts", "127.0.0.1 localhost"),
            ("C:\\Windows\\win.ini", "[fonts]"),
        ],
        &[],
        &[],
    );
    assert!(!evaluate(
        &DetectionRule::FileExists("..\\..\\..\\Windows\\System32\\drivers\\etc\\hosts".into()),
        &c
    ));
    assert!(!evaluate(
        &DetectionRule::FileContains { file: "C:\\Windows\\win.ini".into(), text: "[fonts]".into() },
        &c
    ));
}

#[test]
fn a_path_that_dips_down_and_back_stays_inside() {
    let c = project(&[("inside.txt", "x"), ("./inside.txt", "x")], &["sub"], &["inside.txt", "sub"]);
    assert!(evaluate(&DetectionRule::FileExists("./inside.txt".into()), &c));
    assert!(!evaluate(&DetectionRule::FileExists("../".into()), &c));
    assert!(!evaluate(&DetectionRule::DirExists("/etc".into()), &c));
}

#[test]
fn toml_values_of_other_kinds_read_as_text() {
    let g = project(&[("x.toml", "[a]\nn = 3\nflag = true\n")], &[], &["x.toml"]);
    assert_eq!(
        read_value(&ValueSource::Toml { file: "x.toml".into(), path: "a.n".into() }, &g).as_deref(),
        Some("3")
    );
    assert_eq!(
        read_value(&ValueSource::Toml { file: "x.toml".into(), path: "a.flag".into() }, &g).as_deref(),
        Some("true")
    );
    assert!(read_value(&ValueSource::Toml { file: "x.toml".into(), path: "a".into() }, &g).is_none());
}

#[test]
fn glob_rules_may_look_into_a_subdirectory() {
    let mut c = project(&[("bin/Debug/app.dll", "")], &["bin", "bin/Debug"], &["bin"]);
    c.listings.push(("bin/Debug".to_owned(), vec!["app.dll".to_owned()]));
    assert!(evaluate(&DetectionRule::GlobMatches("bin/Debug/*.DLL".into()), &c));
    assert!(!evaluate(&DetectionRule::GlobMatches("bin/*.dll".into()), &c));
}
