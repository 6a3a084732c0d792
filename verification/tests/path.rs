use launch_deck::path::file_name;

fn name(p: &str) -> Option<String> {
    let v: Vec<char> = p.chars().collect();
    file_name(&v).map(|n| n.into_iter().collect())
}

#[test]
fn a_file_name_is_the_last_component() {
    assert_eq!(name(r"C:\Dev\app").as_deref(), Some("app"));
    assert_eq!(name("dir/sub/").as_deref(), Some("sub"));
    assert_eq!(name("a/.").as_deref(), Some("a"));
    assert_eq!(name("a/.."), None);
    assert_eq!(name("C:"), None);
}

#[test]
fn a_drive_relative_path_names_what_follows_the_drive() {
    assert_eq!(name("C:foo").as_deref(), Some("foo"));
    assert_eq!(name("C:."), None);
    assert_eq!(name("1:foo").as_deref(), Some("1:foo"));
}
