use launch_deck::manual::{docs, find_readme, first_paragraph, read, scripts, strip_markdown, truncate_on_word};
use launch_deck::probe::MemoryProject;

fn tree(files: &[(&str, &str)], dirs: &[&str], listings: &[(&str, &[&str])]) -> MemoryProject {
    MemoryProject {
        files: files.iter().map(|(p, t)| ((*p).to_owned(), (*t).to_owned())).collect(),
        dirs: dirs.iter().map(|d| (*d).to_owned()).collect(),
        listings: listings
            .iter()
            .map(|(d, names)| ((*d).to_owned(), names.iter().map(|n| (*n).to_owned()).collect()))
            .collect(),
    }
}

#[test]
fn the_summary_skips_the_title_and_badges() {
    let md = "# Launch Deck\n\n\
              [![build](https://img.shields.io/x.svg)](https://ci.example)\n\
              ![screenshot](docs/shot.png)\n\n\
              A local control centre for **running**, debugging and\n\
              prompting the apps on this machine.\n\n\
              Second paragraph is not part of the summary.";
    let s = first_paragraph(md).expect("a summary");
    assert_eq!(
        s,
        "A local control centre for running, debugging and prompting the apps on this machine."
    );
}

#[test]
fn link_targets_are_dropped_and_labels_kept() {
    let md = "Text\n\nSee the [roadmap](docs/ROADMAP.md) and `tools/build.ps1`.";
    assert_eq!(
        strip_markdown("See the [roadmap](docs/ROADMAP.md) and `tools/build.ps1`."),
        "See the roadmap and tools/build.ps1."
    );
    assert_eq!(first_paragraph(md).unwrap(), "Text");
}

#[test]
fn a_readme_with_only_a_title_yields_no_summary() {
    assert!(first_paragraph("# Just a title\n").is_none());
    assert!(first_paragraph("").is_none());
}

#[test]
fn a_long_paragraph_is_cut_on_a_word_boundary() {
    let long = "word ".repeat(200);
    let s = truncate_on_word(long.trim(), 50);
    assert!(s.chars().count() <= 51, "cap plus the ellipsis");
    assert!(s.ends_with('…'));
    assert!(!s.contains("wor…"), "must not cut mid-word");
}

#[test]
fn nested_parentheses_in_a_link_target_are_consumed() {
    assert_eq!(strip_markdown("a [w](https://x/(y)) b"), "a w b");
    assert_eq!(strip_markdown("an [unclosed label"), "an unclosed label");
    assert_eq!(strip_markdown("[x] (y)"), "x (y)");
}

#[test]
fn truncation_drops_trailing_punctuation_and_keeps_short_text() {
    assert_eq!(truncate_on_word("one, two three", 8), "one…");
    assert_eq!(truncate_on_word("short", 10), "short");
    assert_eq!(truncate_on_word("abcdefgh", 4), "abcd…");
}

#[test]
fn a_badge_only_paragraph_is_skipped() {
    let md = "<p align=\"center\">\n> quoted\n---\n\nReal *prose* here.\nMore.\n\nNext.";
    assert_eq!(first_paragraph(md).as_deref(), Some("Real prose here. More."));
}

#[test]
fn scripts_come_from_the_real_manifests() {
    let dir = tree(
        &[
            ("package.json", r#"{"name":"x","scripts":{"dev":"vite","build":"tsc && vite build"}}"#),
            ("Cargo.toml", "[package]\nname = \"x\"\n\n[[bin]]\nname = \"probe\"\npath = \"src/bin/probe.rs\"\n"),
        ],
        &[],
        &[("", &["package.json", "Cargo.toml"])],
    );
    let found = scripts(&dir);
    let by = |n: &str| found.iter().find(|s| s.name == n).map(|s| s.command.clone());
    assert_eq!(by("dev").as_deref(), Some("vite"));
    assert_eq!(by("build").as_deref(), Some("tsc && vite build"));
    assert_eq!(by("probe").as_deref(), Some("cargo run --bin probe"));
}

#[test]
fn docs_list_readme_first_and_include_the_docs_folder() {
    let dir = tree(
        &[
            ("CHANGELOG.md", "x"),
            ("README.md", "# T\n\nProse."),
            ("docs/ROADMAP.md", "x"),
            ("notes.txt", "not markdown"),
        ],
        &["docs"],
        &[("", &["CHANGELOG.md", "README.md", "docs", "notes.txt"]), ("docs", &["ROADMAP.md"])],
    );
    let found = docs(&dir, r"C:\p");
    assert_eq!(found[0].name, "README.md", "the README leads");
    let names: Vec<&str> = found.iter().map(|d| d.name.as_str()).collect();
    assert!(names.contains(&"docs/ROADMAP.md"));
    assert!(!names.iter().any(|n| n.to_lowercase().ends_with(".txt")));
}

#[test]
fn a_project_with_nothing_reads_as_empty_not_as_an_error() {
    let dir = tree(&[], &[], &[]);
    let m = read(&dir, r"C:\bare");
    assert!(m.summary.is_none());
    assert!(m.readme.is_none());
    assert!(m.docs.is_empty());
    assert!(m.scripts.is_empty());
}

#[test]
fn read_pulls_the_summary_and_the_readme_path_together() {
    let dir = tree(&[("readme.MD", "# X\n\nDoes a thing.\n")], &[], &[("", &["readme.MD"])]);
    let m = read(&dir, r"C:\read");
    assert_eq!(m.summary.as_deref(), Some("Does a thing."));
    assert!(m.readme.is_some(), "any spelling of readme counts");
}

#[test]
fn scripts_are_sorted_by_name_and_skip_non_string_commands() {
    let dir = tree(
        &[
            ("package.json", r#"{"scripts":{"zeta":"z","alpha":"a","odd":42}}"#),
            ("Cargo.toml", "[[bin]]\nname = \"beta\"\n\n[[bin]]\npath = \"x.rs\"\n"),
        ],
        &[],
        &[],
    );
    let found = scripts(&dir);
    let names: Vec<&str> = found.iter().map(|s| s.name.as_str()).collect();
    assert_eq!(names, vec!["alpha", "beta", "zeta"]);
    assert_eq!(found[1].command, "cargo run --bin beta");
}

#[test]
fn docs_sort_case_insensitively_and_carry_absolute_paths() {
    let dir = tree(
        &[
            ("b.md", ""),
            ("A.md", ""),
            ("Readme.md", ""),
            ("readme.markdown", ""),
            ("docs/c.MD", ""),
            ("docs/readme.md", ""),
        ],
        &["docs"],
        &[("", &["b.md", "A.md", "readme.markdown", "Readme.md"]), ("docs", &["readme.md", "c.MD"])],
    );
    let found = docs(&dir, r"C:\p");
    let names: Vec<&str> = found.iter().map(|d| d.name.as_str()).collect();
    assert_eq!(names, vec!["Readme.md", "A.md", "b.md", "docs/c.MD", "docs/readme.md"]);
    assert_eq!(found[0].path, r"C:\p\Readme.md");
    assert_eq!(found[3].path, r"C:\p\docs\c.MD");
}

#[test]
fn the_readme_is_the_first_file_whose_stem_is_readme() {
    let dir = tree(
        &[("README.tar.gz", ""), ("Readme.txt", "Hi.")],
        &["readme"],
        &[("", &["readme", "README.tar.gz", "Readme.txt"])],
    );
    assert_eq!(find_readme(&dir).as_deref(), Some("Readme.txt"));
    let m = read(&dir, r"C:\r");
    assert_eq!(m.readme.as_deref(), Some(r"C:\r\Readme.txt"));
    assert_eq!(m.summary.as_deref(), Some("Hi."));
}
