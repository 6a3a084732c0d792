use launch_deck::appicon::{
    bgra_to_rgba, find_icon_source, find_project_exe, icon_png, is_helper, plausible_icon_size, IconSource,
};
use launch_deck::probe::MemoryProject;

/// A project tree holding empty files at the given paths; each file is also
/// listed in its directory.
fn tree(files: &[&str]) -> MemoryProject {
    let mut listings: Vec<(String, Vec<String>)> = Vec::new();
    for f in files {
        let (dir, name) = match f.rfind('/') {
            Some(i) => (&f[..i], &f[i + 1..]),
            None => (".", *f),
        };
        match listings.iter_mut().find(|(d, _)| d == dir) {
            Some((_, names)) => names.push(name.to_owned()),
            None => listings.push((dir.to_owned(), vec![name.to_owned()])),
        }
    }
    MemoryProject {
        files: files.iter().map(|f| ((*f).to_owned(), "x".to_owned())).collect(),
        dirs: vec![],
        listings,
    }
}

#[test]
fn tauri_icon_beats_everything() {
    let t = tree(&["src-tauri/icons/icon.ico", "icon.ico", "target/release/app.exe"]);
    match find_icon_source(&t, r"D:\p") {
        Some(IconSource::Ico(p)) => assert!(p.ends_with("src-tauri/icons/icon.ico")),
        other => panic!("expected the tauri ico, got {other:?}"),
    }
}

#[test]
fn favicon_is_used_when_nothing_better_exists() {
    let t = tree(&["public/favicon.ico"]);
    assert!(matches!(find_icon_source(&t, r"D:\p"), Some(IconSource::Ico(_))));
}

#[test]
fn png_icons_are_typed_as_png() {
    let t = tree(&["icon.png"]);
    assert_eq!(find_icon_source(&t, r"D:\p"), Some(IconSource::Png(r"D:\p\icon.png".to_owned())));
}

#[test]
fn exe_is_the_last_resort() {
    let t = tree(&["target/release/thing.exe"]);
    assert_eq!(
        find_icon_source(&t, r"D:\p"),
        Some(IconSource::Exe(r"D:\p\target/release\thing.exe".to_owned()))
    );
}

#[test]
fn a_name_matching_exe_beats_alphabetical_order() {
    let t = tree(&["target/release/aaa-helper.exe", "target/release/my_app.exe"]);
    let exe = find_project_exe(&t, r"D:\Work\My-App").unwrap();
    assert!(exe.ends_with("my_app.exe"), "got {exe:?}");
}

#[test]
fn build_helpers_are_not_mistaken_for_the_product() {
    let t = tree(&["build/juce_vst3_helper.exe"]);
    assert_eq!(find_project_exe(&t, r"D:\Work\Vesper"), None);
}

#[test]
fn a_real_product_exe_beats_a_helper_beside_it() {
    let t = tree(&["build/juce_vst3_helper.exe", "build/aaa-product.exe"]);
    let exe = find_project_exe(&t, r"D:\Work\Thing").unwrap();
    assert!(exe.ends_with("aaa-product.exe"), "got {exe:?}");
}

#[test]
fn a_project_named_like_a_helper_still_matches_itself() {
    let t = tree(&["target/release/test_runner.exe"]);
    let exe = find_project_exe(&t, r"D:\Work\Test-Runner").unwrap();
    assert!(exe.ends_with("test_runner.exe"), "got {exe:?}");
}

#[test]
fn no_candidates_means_none() {
    let t = tree(&["README.md"]);
    assert_eq!(find_icon_source(&t, r"D:\p"), None);
}

#[test]
fn exe_search_is_not_recursive() {
    let t = tree(&["some/deep/nested/dir/thing.exe"]);
    assert_eq!(find_project_exe(&t, r"D:\p"), None);
}

#[test]
fn the_root_directory_is_searched_first_and_names_are_ordered() {
    let t = tree(&["zeta.exe", "Alpha.EXE", "bin/first.exe"]);
    assert_eq!(find_project_exe(&t, r"D:\p"), Some(r"D:\p\.\Alpha.EXE".to_owned()));
}

#[test]
fn helper_markers_match_case_insensitively() {
    assert!(is_helper("Setup"));
    assert!(is_helper("my-UPDATER"));
    assert!(!is_helper("product"));
}

#[test]
fn pixels_swap_to_rgba_and_alpha_less_icons_become_opaque() {
    assert_eq!(bgra_to_rgba(&[1, 2, 3, 4, 5, 6, 7, 8]), vec![3, 2, 1, 4, 7, 6, 5, 8]);
    assert_eq!(bgra_to_rgba(&[1, 2, 3, 0, 5, 6, 7, 0]), vec![3, 2, 1, 255, 7, 6, 5, 255]);
    assert_eq!(bgra_to_rgba(&[1, 2, 3, 0, 9]), vec![3, 2, 1, 255]);
}

#[test]
fn an_encoded_icon_is_a_png() {
    let bgra = vec![10u8; 2 * 2 * 4];
    let png = icon_png(&bgra, 2).unwrap();
    assert_eq!(&png[..8], b"\x89PNG\r\n\x1a\n");
    assert!(icon_png(&bgra, 3).is_err());
    assert!(icon_png(&[], 0).is_err());
}

#[test]
fn icon_sizes_outside_one_to_1024_are_refused() {
    assert!(plausible_icon_size(256, 256));
    assert!(!plausible_icon_size(0, 16));
    assert!(!plausible_icon_size(16, 1025));
}

#[test]
fn a_plain_icons_directory_is_found() {
    let t = tree(&["icons/icon.ico"]);
    match find_icon_source(&t, r"D:\p") {
        Some(IconSource::Ico(p)) => assert!(p.ends_with("icons/icon.ico")),
        other => panic!("expected the icons/ ico, got {other:?}"),
    }
}

#[test]
fn a_generated_png_set_is_found_without_an_ico() {
    let t = tree(&["icons/icon256.png"]);
    assert!(
        matches!(find_icon_source(&t, r"D:\p"), Some(IconSource::Png(_))),
        "a PNG-only icon set must still resolve"
    );
}

#[test]
fn a_public_directory_png_beats_a_bare_favicon() {
    let t = tree(&["public/icon-512.png", "public/favicon.ico"]);
    assert!(
        matches!(find_icon_source(&t, r"D:\p"), Some(IconSource::Png(_))),
        "the larger PNG should win over favicon.ico"
    );
}

#[test]
fn a_tauri_icon_set_still_wins_over_a_plain_icons_dir() {
    let t = tree(&["src-tauri/icons/icon.ico", "icons/icon.ico"]);
    match find_icon_source(&t, r"D:\p") {
        Some(IconSource::Ico(p)) => assert!(p.contains("src-tauri"), "the Tauri set must take precedence, got {p:?}"),
        other => panic!("expected an ico, got {other:?}"),
    }
}

#[test]
fn a_project_with_nothing_reports_nothing() {
    let t = tree(&[]);
    assert!(find_icon_source(&t, r"D:\p").is_none());
}
