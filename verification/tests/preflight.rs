use launch_deck::preflight::{cargo_ambiguity, missing_entry};
use launch_deck::probe::MemoryProject;

const ROOT: &str = r"C:\Dev\video-forge";

fn args(list: &[&str]) -> Vec<String> {
    list.iter().map(|s| (*s).to_owned()).collect()
}

fn tree(files: &[(&str, &str)], dirs: &[&str], listings: &[(&str, &[&str])]) -> MemoryProject {
    MemoryProject {
        files: files.iter().map(|(p, t)| ((*p).to_owned(), (*t).to_owned())).collect(),
        dirs: dirs.iter().map(|d| (*d).to_owned()).collect(),
        listings: listings
            .iter()
            .map(|(d, names)| ((*d).to_owned(), names.iter().map(|n| (*n).to_owned()).collect()))
            .collect(),
    }
}

#[test]
fn a_missing_script_argument_is_named() {
    let nothing = |_: &str| false;
    assert_eq!(missing_entry(ROOT, &args(&["main.py"]), &nothing).as_deref(), Some("main.py"));

    let present = |p: &str| p == r"C:\Dev\video-forge\main.py";
    assert_eq!(missing_entry(ROOT, &args(&["main.py"]), &present), None);
}

#[test]
fn subcommands_and_flags_are_not_files() {
    let nothing = |_: &str| false;
    assert_eq!(missing_entry(ROOT, &args(&["run", "dev"]), &nothing), None);
    assert_eq!(missing_entry(ROOT, &args(&["-m", "pytest"]), &nothing), None);
    assert_eq!(missing_entry(ROOT, &args(&["run", "--bin", "pulse"]), &nothing), None);
    assert_eq!(missing_entry(ROOT, &args(&["-m", "videoforge.cli"]), &nothing), None);
    assert_eq!(missing_entry(ROOT, &args(&["--config=x.py"]), &nothing), None);
}

#[test]
fn an_absolute_entry_is_checked_as_given_and_case_is_ignored() {
    let present = |p: &str| p == r"D:\tools\app.EXE";
    assert_eq!(missing_entry(ROOT, &args(&[r"D:\tools\app.EXE"]), &present), None);
    let nothing = |_: &str| false;
    assert_eq!(missing_entry(ROOT, &args(&["serve", "script.R"]), &nothing).as_deref(), Some("script.R"));
}

const MAIN: (&str, &str) = ("src/main.rs", "fn main() {}");

#[test]
fn two_cargo_targets_without_a_default_are_ambiguous() {
    let p = tree(
        &[("Cargo.toml", "[package]\nname = \"pulse\"\n"), MAIN, ("src/bin/pulse-app.rs", "fn main() {}")],
        &["src", "src/bin"],
        &[("src/bin", &["pulse-app.rs"])],
    );
    let found = cargo_ambiguity(&p, "cargo", &args(&["run"])).expect("ambiguous");
    assert_eq!(found, vec!["pulse".to_owned(), "pulse-app".to_owned()]);
}

#[test]
fn a_default_run_or_an_explicit_bin_settles_it() {
    let files_with = |manifest: &'static str| {
        tree(
            &[("Cargo.toml", manifest), MAIN, ("src/bin/other.rs", "fn main() {}")],
            &["src", "src/bin"],
            &[("src/bin", &["other.rs"])],
        )
    };
    let p = files_with("[package]\nname = \"x\"\n");
    assert_eq!(cargo_ambiguity(&p, "cargo", &args(&["run", "--bin", "x"])), None);

    let p = files_with("[package]\nname = \"x\"\ndefault-run = \"x\"\n");
    assert_eq!(cargo_ambiguity(&p, "cargo", &args(&["run"])), None);
}

#[test]
fn one_target_is_not_ambiguous_and_other_programs_are_ignored() {
    let p = tree(&[("Cargo.toml", "[package]\nname = \"solo\"\n"), MAIN], &["src"], &[]);
    assert_eq!(cargo_ambiguity(&p, "cargo", &args(&["run"])), None);
    assert_eq!(cargo_ambiguity(&p, "npm", &args(&["run"])), None);
    assert_eq!(cargo_ambiguity(&p, "cargo", &args(&["build"])), None);
}

#[test]
fn a_virtual_workspace_with_several_binary_members_is_ambiguous() {
    let p = tree(
        &[
            ("Cargo.toml", "[workspace]\nresolver = \"2\"\nmembers = [\"crates/*\", \"src-tauri\"]\n"),
            ("crates/pulse-core/Cargo.toml", "[package]\nname = \"pulse-core\"\n"),
            ("crates/pulse-cli/Cargo.toml", "[package]\nname = \"pulse-cli\"\n"),
            ("crates/pulse-cli/src/main.rs", "fn main() {}"),
            ("src-tauri/Cargo.toml", "[package]\nname = \"pulse-app\"\n"),
            ("src-tauri/src/main.rs", "fn main() {}"),
        ],
        &["crates", "crates/pulse-core", "crates/pulse-cli", "src-tauri"],
        &[("crates", &["pulse-core", "pulse-cli", "README.md"])],
    );
    let found = cargo_ambiguity(&p, "cargo", &args(&["run"])).expect("ambiguous");
    assert_eq!(found, vec!["pulse-app".to_owned(), "pulse-cli".to_owned()]);
}

#[test]
fn a_project_with_no_cargo_manifest_reports_nothing() {
    let p = tree(&[], &[], &[]);
    assert_eq!(cargo_ambiguity(&p, "cargo", &args(&["run"])), None);
}

#[test]
fn declared_bin_targets_win_and_repeats_collapse() {
    let manifest = "[package]\nname = \"tool\"\n\n[[bin]]\nname = \"zeta\"\n\n[[bin]]\nname = \"alpha\"\n\n[[bin]]\nname = \"zeta\"\n";
    let p = tree(&[("Cargo.toml", manifest), MAIN], &["src"], &[]);
    assert_eq!(cargo_ambiguity(&p, "Cargo", &args(&["run"])), Some(vec!["alpha".to_owned(), "zeta".to_owned()]));

    let one = "[package]\nname = \"tool\"\n\n[[bin]]\nname = \"a\"\n\n[[bin]]\nname = \"a\"\n";
    let p = tree(&[("Cargo.toml", one), MAIN], &["src"], &[]);
    assert_eq!(cargo_ambiguity(&p, "cargo", &args(&["run"])), None);
}

#[test]
fn an_unparseable_manifest_reports_nothing() {
    let p = tree(&[("Cargo.toml", "[package\nname = "), MAIN], &["src"], &[]);
    assert_eq!(cargo_ambiguity(&p, "cargo", &args(&["run"])), None);
}

#[test]
fn a_package_name_that_is_not_a_string_counts_as_main() {
    let p = tree(
        &[("Cargo.toml", "[package]\nname = 5\n"), MAIN, ("src/bin/tool.rs", "fn main() {}")],
        &["src", "src/bin"],
        &[("src/bin", &["tool.rs"])],
    );
    assert_eq!(cargo_ambiguity(&p, "cargo", &args(&["run"])), Some(vec!["main".to_owned(), "tool".to_owned()]));
}
