use launch_deck::disk::{rank_children, DiskWalk, Entry, Usage};

/// A tree of directories, each with its entries.
fn walk(tree: &[(&str, Option<Vec<Entry>>)], root: &str) -> Usage {
    let mut w = DiskWalk::new(root);
    while let Some(dir) = w.next() {
        let entries = tree.iter().find(|(d, _)| *d == dir).and_then(|(_, e)| e.clone());
        w.read(entries);
    }
    w.total()
}

#[test]
fn usage_sums_a_nested_tree() {
    let tree = [
        ("root", Some(vec![Entry::File(100), Entry::Dir("root/a".into()), Entry::Dir("root/b".into())])),
        ("root/a", Some(vec![Entry::File(20), Entry::File(30), Entry::Dir("root/a/deep".into())])),
        ("root/a/deep", Some(vec![Entry::File(5)])),
        ("root/b", Some(vec![])),
    ];
    assert_eq!(walk(&tree, "root"), Usage { bytes: 155, files: 4, skipped: 0 });
}

#[test]
fn a_missing_directory_reports_zero_and_says_it_skipped() {
    assert_eq!(walk(&[], "nowhere"), Usage { bytes: 0, files: 0, skipped: 1 });
}

#[test]
fn a_directory_junction_is_skipped_not_followed() {
    let tree = [
        ("p", Some(vec![Entry::File(10), Entry::Link, Entry::Unreadable, Entry::Dir("p/real".into())])),
        ("p/real", Some(vec![Entry::File(1)])),
    ];
    assert_eq!(walk(&tree, "p"), Usage { bytes: 11, files: 2, skipped: 2 });
}

#[test]
fn an_endless_nesting_stops_at_the_depth_ceiling() {
    let mut w = DiskWalk::new("d");
    let mut reads = 0;
    while let Some(dir) = w.next() {
        reads += 1;
        w.read(Some(vec![Entry::Dir(format!("{dir}/d"))]));
    }
    assert_eq!(reads, 41);
    assert_eq!(w.total(), Usage { bytes: 0, files: 0, skipped: 1 });
}

#[test]
fn children_are_measured_and_sorted_largest_first() {
    let names: Vec<String> = ["small.txt", "node_modules", "src", "b", "a"].iter().map(|s| (*s).to_owned()).collect();
    let bytes = [10, 5000, 300, 7, 7];
    let order = rank_children(&bytes, &names);
    let shown: Vec<&str> = order.iter().map(|&i| names[i].as_str()).collect();
    assert_eq!(shown, vec!["node_modules", "src", "small.txt", "a", "b"]);
}

#[test]
fn usage_counts_saturate() {
    let mut u = Usage::zero();
    u.add_file(u64::MAX);
    u.add_file(1);
    u.skip();
    assert_eq!(u, Usage { bytes: u64::MAX, files: 2, skipped: 1 });
}
