use std::cell::{Cell, RefCell};

use launch_deck::program::{extension_list, find_program, Invocation, ProgramCache};

const SYSTEM32: &str = r"C:\Windows\System32";
const NODEJS: &str = r"C:\Program Files\nodejs";

/// The files of a small Windows machine.
const FILES: &[&str] = &[
    r"C:\Windows\System32\cmd.exe",
    r"C:\Windows\System32\where.exe",
    r"C:\Program Files\nodejs\node.exe",
    r"C:\Program Files\nodejs\npm",
    r"C:\Program Files\nodejs\npm.cmd",
    r"C:\Temp\deck-prog\thing.cmd",
    r"C:\Temp\deck-prog-ext\tool.cmd",
    r"C:\Temp\deck-prog-both\dual.exe",
    r"C:\Temp\deck-prog-both\dual.cmd",
];

/// Whether a file is at `p`, ignoring case as Windows does.
fn is_file(p: &str) -> bool {
    FILES.iter().any(|f| f.eq_ignore_ascii_case(p))
}

fn path_dirs() -> Vec<String> {
    vec![SYSTEM32.to_owned(), NODEJS.to_owned()]
}

fn resolve(program: &str) -> Option<Invocation> {
    find_program(program, &path_dirs(), None, &is_file)
}

fn ends_with_ci(found: &Invocation, suffix: &str) -> bool {
    found.path().to_ascii_lowercase().ends_with(suffix)
}

#[test]
fn resolves_a_bare_exe_on_path() {
    let found = resolve("cmd").expect("cmd should resolve");
    assert!(matches!(found, Invocation::Direct(_)), "got {found:?}");
    assert!(ends_with_ci(&found, "cmd.exe"));
}

#[test]
fn resolves_an_exe_given_with_its_extension() {
    let found = resolve("cmd.exe").expect("cmd.exe should resolve");
    assert!(matches!(found, Invocation::Direct(_)));
}

#[test]
fn resolves_npm_and_marks_it_as_needing_the_shell() {
    let found = resolve("npm").expect("npm should resolve");
    assert!(matches!(found, Invocation::ViaShell(_)), "npm must be invoked via cmd.exe, got {found:?}");
    assert!(ends_with_ci(&found, ".cmd"), "resolved to {}", found.path());
}

#[test]
fn resolves_an_absolute_path_to_a_batch_file() {
    let script = r"C:\Temp\deck-prog\thing.cmd";
    let found = resolve(script).expect("should resolve");
    assert_eq!(found, Invocation::ViaShell(script.to_owned()));
}

#[test]
fn completes_an_extensionless_path_using_pathext() {
    let found = resolve(r"C:\Temp\deck-prog-ext\tool").expect("should complete to .cmd");
    assert!(matches!(found, Invocation::ViaShell(_)), "got {found:?}");
    assert_eq!(found.path(), r"C:\Temp\deck-prog-ext\tool.CMD");
}

#[test]
fn prefers_exe_over_cmd_when_both_exist() {
    let found = resolve(r"C:\Temp\deck-prog-both\dual").unwrap();
    assert!(matches!(found, Invocation::Direct(_)), "should prefer the .exe, got {found:?}");
}

#[test]
fn an_unknown_program_does_not_resolve() {
    assert!(resolve("definitely-not-a-real-program-xyz").is_none());
}

#[test]
fn an_empty_name_does_not_resolve() {
    assert!(resolve("").is_none());
}

#[test]
fn a_directory_is_not_a_program() {
    assert!(resolve(r"C:\Temp").is_none());
}

#[test]
fn the_second_resolution_of_a_bare_name_is_much_faster() {
    let probes = Cell::new(0_u32);
    let counting = |p: &str| {
        probes.set(probes.get() + 1);
        is_file(p)
    };
    let mut cache = ProgramCache::new();

    let found = cache.resolve("where", &path_dirs(), None, &counting);
    assert!(found.is_some());
    let cold = probes.replace(0);

    assert!(cache.resolve("where", &path_dirs(), None, &counting).is_some());
    let warm = probes.get();

    assert_eq!(warm, 1, "a hit is one existence check");
    assert!(warm < cold, "cache did not help: cold {cold}, warm {warm}");
}

#[test]
fn a_cached_program_that_disappears_is_not_returned() {
    let present = RefCell::new(vec![r"C:\Tools\deck-vanish.exe".to_owned()]);
    let exists = |p: &str| present.borrow().iter().any(|f| f.eq_ignore_ascii_case(p));
    let dirs = vec![r"C:\Tools".to_owned()];
    let mut cache = ProgramCache::new();

    assert!(cache.resolve("deck-vanish", &dirs, None, &exists).is_some(), "should resolve while present");

    present.borrow_mut().clear();
    assert!(cache.resolve("deck-vanish", &dirs, None, &exists).is_none(), "a deleted program was served from the cache");
}

#[test]
fn a_miss_is_not_remembered() {
    let present = RefCell::new(Vec::<String>::new());
    let exists = |p: &str| present.borrow().iter().any(|f| f.eq_ignore_ascii_case(p));
    let dirs = vec![r"C:\Program Files\nodejs".to_owned()];
    let mut cache = ProgramCache::new();

    assert!(cache.resolve("node", &dirs, None, &exists).is_none());
    assert!(cache.cached("node").is_none());

    present.borrow_mut().push(r"C:\Program Files\nodejs\node.EXE".to_owned());
    let found = cache.resolve("node", &dirs, None, &exists).expect("installed since");
    assert_eq!(found.path(), r"C:\Program Files\nodejs\node.EXE");
    assert_eq!(cache.cached("node"), Some(found));
}

#[test]
fn path_directories_are_searched_in_order() {
    let files = [r"C:\a\tool.exe", r"C:\b\tool.exe"];
    let exists = |p: &str| files.contains(&p);
    let dirs = vec![r"C:\b".to_owned(), r"C:\a\".to_owned()];
    assert_eq!(
        find_program("tool.exe", &dirs, None, &exists),
        Some(Invocation::Direct(r"C:\b\tool.exe".to_owned()))
    );
    assert_eq!(
        find_program("tool.exe", &dirs[1..], None, &exists),
        Some(Invocation::Direct(r"C:\a\tool.exe".to_owned()))
    );
}

#[test]
fn pathext_order_decides_and_a_file_without_extension_is_skipped() {
    let files = [r"C:\t\x", r"C:\t\x.bat", r"C:\t\x.com"];
    let exists = |p: &str| files.iter().any(|f| f.eq_ignore_ascii_case(p));
    let dirs = vec![r"C:\t".to_owned()];
    assert_eq!(
        find_program("x", &dirs, Some(".BAT;.COM"), &exists),
        Some(Invocation::ViaShell(r"C:\t\x.BAT".to_owned()))
    );
    assert_eq!(
        find_program("x", &dirs, Some(".COM;.BAT"), &exists),
        Some(Invocation::Direct(r"C:\t\x.COM".to_owned()))
    );
}

#[test]
fn the_extension_list_drops_empty_entries_and_leading_dots() {
    assert_eq!(extension_list(".COM;.EXE;;..BAT;cmd;"), ["COM", "EXE", "BAT", "cmd"]);
    assert!(extension_list("").is_empty());
}
