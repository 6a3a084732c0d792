use launch_deck::glob::{split_dir, wildcard_match};

#[test]
fn literal_names_match_exactly() {
    assert!(launch_deck::glob::matches("CMakeLists.txt", "CMakeLists.txt"));
    assert!(!launch_deck::glob::matches("CMakeLists.txt", "Makefile"));
}

#[test]
fn matching_is_case_insensitive() {
    assert!(launch_deck::glob::matches("Cargo.toml", "cargo.toml"));
    assert!(launch_deck::glob::matches("MAKEFILE", "Makefile"));
}

#[test]
fn trailing_extension_wildcards() {
    assert!(launch_deck::glob::matches("Server.csproj", "*.csproj"));
    assert!(launch_deck::glob::matches("App.sln", "*.sln"));
    assert!(!launch_deck::glob::matches("Server.csproj.user", "*.csproj"));
}

#[test]
fn star_matches_empty_run() {
    assert!(launch_deck::glob::matches(".csproj", "*.csproj"));
    assert!(launch_deck::glob::matches("abc", "abc*"));
    assert!(launch_deck::glob::matches("abc", "*abc"));
}

#[test]
fn question_mark_matches_exactly_one() {
    assert!(launch_deck::glob::matches("a.c", "?.c"));
    assert!(!launch_deck::glob::matches("ab.c", "?.c"));
    assert!(!launch_deck::glob::matches(".c", "?.c"));
}

#[test]
fn interior_wildcards() {
    assert!(launch_deck::glob::matches("my-app.esproj", "*app*"));
    assert!(launch_deck::glob::matches("build.gradle.kts", "build.gradle*"));
    assert!(!launch_deck::glob::matches("gradle.build", "build.gradle*"));
}

#[test]
fn multiple_stars_backtrack_correctly() {
    assert!(launch_deck::glob::matches("aXbXc", "a*b*c"));
    assert!(launch_deck::glob::matches("abc", "a*b*c"));
    assert!(!launch_deck::glob::matches("acb", "a*b*c"));
}

#[test]
fn pathological_pattern_terminates() {
    let name = "a".repeat(40);
    assert!(!launch_deck::glob::matches(&name, "*a*a*a*a*a*a*b"));
}

#[test]
fn dot_is_literal_not_any_char() {
    assert!(!launch_deck::glob::matches("axcsproj", "*.csproj"));
}

#[test]
fn bare_star_matches_anything_including_empty() {
    assert!(launch_deck::glob::matches("", "*"));
    assert!(launch_deck::glob::matches("whatever.ext", "*"));
}

#[test]
fn empty_pattern_matches_only_empty_name() {
    assert!(launch_deck::glob::matches("", ""));
    assert!(!launch_deck::glob::matches("x", ""));
}

#[test]
fn handles_non_ascii_names() {
    assert!(launch_deck::glob::matches("café.csproj", "*.csproj"));
    assert!(launch_deck::glob::matches("Ünïcode.sln", "*.SLN"));
}

#[test]
fn non_ascii_letters_fold_case_too() {
    assert!(launch_deck::glob::matches("ÉCOLE.txt", "école.TXT"));
    assert!(!launch_deck::glob::matches("école.txt", "ecole.txt"));
}

#[test]
fn wildcard_match_is_case_sensitive_on_folded_input() {
    let n: Vec<char> = "Abc".chars().collect();
    let p: Vec<char> = "abc".chars().collect();
    assert!(!wildcard_match(&n, &p));
    let q: Vec<char> = "A?c".chars().collect();
    assert!(wildcard_match(&n, &q));
}

#[test]
fn trailing_stars_after_the_name_is_used_up() {
    assert!(launch_deck::glob::matches("abc", "abc***"));
    assert!(!launch_deck::glob::matches("abc", "abc*?"));
}

#[test]
fn split_dir_separates_the_last_segment() {
    assert_eq!(
        split_dir("src-tauri/target/release/*.exe"),
        (Some("src-tauri/target/release".to_owned()), "*.exe".to_owned())
    );
    assert_eq!(split_dir("*.csproj"), (None, "*.csproj".to_owned()));
    assert_eq!(split_dir(r"bin\Debug\*.dll"), (Some(r"bin\Debug".to_owned()), "*.dll".to_owned()));
    assert_eq!(split_dir("/x"), (Some(String::new()), "x".to_owned()));
}
