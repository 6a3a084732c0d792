use launch_deck::probe::{
    json_parse_error, json_pointer, parse_error, read_text, stays_inside, toml_path, MemoryProject, ProjectProbe,
};

fn files(list: &[(&str, &str)]) -> MemoryProject {
    MemoryProject {
        files: list.iter().map(|(p, t)| ((*p).to_owned(), (*t).to_owned())).collect(),
        dirs: vec![],
        listings: vec![("".to_owned(), list.iter().map(|(p, _)| (*p).to_owned()).collect())],
    }
}

#[test]
fn reads_json_pointers_with_and_without_leading_slash() {
    let dir = files(&[("package.json", r#"{"name":"app","version":"1.2.3","scripts":{"dev":"vite"}}"#)]);
    assert_eq!(json_pointer(&dir, "package.json", "scripts/dev"), Some((0, "vite".to_owned())));
    assert_eq!(json_pointer(&dir, "package.json", "/version"), Some((0, "1.2.3".to_owned())));
    assert!(json_pointer(&dir, "package.json", "scripts/build").is_none());
}

#[test]
fn reads_dotted_toml_paths() {
    let dir = files(&[("pyproject.toml", "[tool.poetry]\nname = \"app\"\nversion = \"0.4.0\"\n")]);
    assert!(toml_path(&dir, "pyproject.toml", "tool.poetry").is_some());
    assert_eq!(toml_path(&dir, "pyproject.toml", "tool.poetry.version"), Some(Some("0.4.0".to_owned())));
    assert!(toml_path(&dir, "pyproject.toml", "tool.pdm").is_none());
}

#[test]
fn malformed_json_is_reported_rather_than_read_as_absent() {
    let dir = files(&[("package.json", r#"{"name": "app",}"#)]);
    assert!(json_pointer(&dir, "package.json", "name").is_none());
    assert!(json_parse_error(&dir, "package.json").is_some());
    // The file itself is still there, which is the distinction that matters.
    assert!(dir.has_path("package.json"));
    assert!(json_parse_error(&files(&[("package.json", "{}")]), "package.json").is_none());
}

#[test]
fn path_traversal_is_refused() {
    let dir = files(&[("inside.txt", "x"), ("../outside.txt", "secret")]);
    assert!(!stays_inside("../"));
    assert!(!stays_inside("..\\..\\..\\Windows\\System32\\drivers\\etc\\hosts"));
    assert!(!stays_inside("C:\\Windows\\System32\\config\\SAM"));
    assert!(!stays_inside("/etc/passwd"));
    assert!(read_text(&dir, "../outside.txt").is_none(), "a probe never hands out text from outside");
    // A path that dips into a subdirectory and back out stays inside.
    assert!(stays_inside("./inside.txt"));
    assert!(stays_inside("src/../inside.txt"));
    assert_eq!(read_text(&dir, "inside.txt").as_deref(), Some("x"));
}

#[test]
fn lists_root_entries_once() {
    let dir = files(&[("App.csproj", "<Project/>"), ("App.sln", "")]);
    let first = dir.root_entries();
    assert!(first.contains(&"App.csproj".to_owned()));
    assert!(first.contains(&"App.sln".to_owned()));
    assert_eq!(dir.root_entries(), first);
}

#[test]
fn a_parse_error_is_reported_for_the_form_the_file_was_read_as() {
    let dir = files(&[("Cargo.toml", "[package]\nname = \"x\"\n"), ("bad.toml", "[package\nname = 1"), ("package.json", "{,}")]);
    assert!(parse_error(&dir, "Cargo.toml", false, true).is_none(), "valid TOML read as TOML");
    assert!(parse_error(&dir, "Cargo.toml", true, false).is_some(), "the same text read as JSON fails");
    assert!(parse_error(&dir, "bad.toml", false, true).is_some());
    assert!(parse_error(&dir, "bad.toml", false, false).is_none(), "a form it was not read as is not reported");
    assert!(parse_error(&dir, "package.json", true, true).is_some());
    assert!(parse_error(&dir, "missing.toml", true, true).is_none());
}
