use devil::render::{is_ignored, render};
use devil::Entry;

fn file(name: &str) -> Entry {
    Entry { name: name.to_string(), is_dir: false, children: Vec::new() }
}

fn dir(name: &str, children: Vec<Entry>) -> Entry {
    Entry { name: name.to_string(), is_dir: true, children }
}

fn strings(v: &[&str]) -> Vec<String> {
    v.iter().map(|s| s.to_string()).collect()
}

#[test]
fn ignored_entry_and_its_contents_absent() {
    let root = dir(
        "root",
        vec![file("b.txt"), file("a.txt"), dir("node_modules", vec![file("x.txt")])],
    );
    let ignore = strings(&["node_modules"]);
    let lines = render(root, &ignore);
    assert_eq!(
        lines,
        strings(&["\u{251c}\u{2500}\u{2500} a.txt", "\u{2514}\u{2500}\u{2500} b.txt"])
    );
}

#[test]
fn unfiltered_tree_lists_everything_sorted() {
    let root = dir(
        "root",
        vec![file("b.txt"), file("a.txt"), dir("node_modules", vec![file("x.txt")])],
    );
    let ignore: Vec<String> = Vec::new();
    let lines = render(root, &ignore);
    assert_eq!(
        lines,
        strings(&[
            "\u{251c}\u{2500}\u{2500} a.txt",
            "\u{251c}\u{2500}\u{2500} b.txt",
            "\u{2514}\u{2500}\u{2500} node_modules",
            "    \u{2514}\u{2500}\u{2500} x.txt",
        ])
    );
}

#[test]
fn empty_directory_renders_to_zero_lines() {
    let root = dir("root", Vec::new());
    let ignore: Vec<String> = Vec::new();
    let lines = render(root, &ignore);
    assert!(lines.is_empty());
}

#[test]
fn non_directory_root_renders_to_zero_lines() {
    let root = file("root.txt");
    let ignore: Vec<String> = Vec::new();
    let lines = render(root, &ignore);
    assert!(lines.is_empty());
}

#[test]
fn directory_of_only_ignored_entries_renders_to_zero_lines() {
    let root = dir("root", vec![file("a"), file("b")]);
    let ignore = strings(&["a", "b"]);
    let lines = render(root, &ignore);
    assert!(lines.is_empty());
}

#[test]
fn nested_prefixes_follow_branch_structure() {
    let root = dir(
        "root",
        vec![dir("a", vec![dir("b", vec![file("c.txt")]), file("d.txt")]), file("e.txt")],
    );
    let ignore: Vec<String> = Vec::new();
    let lines = render(root, &ignore);
    assert_eq!(
        lines,
        strings(&[
            "\u{251c}\u{2500}\u{2500} a",
            "\u{2502}   \u{251c}\u{2500}\u{2500} b",
            "\u{2502}   \u{2502}   \u{2514}\u{2500}\u{2500} c.txt",
            "\u{2502}   \u{2514}\u{2500}\u{2500} d.txt",
            "\u{2514}\u{2500}\u{2500} e.txt",
        ])
    );
}

#[test]
fn siblings_sorted_whatever_the_listing_order() {
    let root = dir("root", vec![file("zebra"), file("mango"), file("apple"), file("kiwi")]);
    let ignore: Vec<String> = Vec::new();
    let lines = render(root, &ignore);
    assert_eq!(
        lines,
        strings(&[
            "\u{251c}\u{2500}\u{2500} apple",
            "\u{251c}\u{2500}\u{2500} kiwi",
            "\u{251c}\u{2500}\u{2500} mango",
            "\u{2514}\u{2500}\u{2500} zebra",
        ])
    );
}

#[test]
fn ignore_matches_nested_names_too() {
    let root = dir(
        "root",
        vec![dir("src", vec![file("main.rs"), dir("build", vec![file("junk")])]), dir(
            "build",
            vec![file("out")],
        )],
    );
    let ignore = strings(&["build"]);
    let lines = render(root, &ignore);
    assert_eq!(
        lines,
        strings(&["\u{2514}\u{2500}\u{2500} src", "    \u{2514}\u{2500}\u{2500} main.rs"])
    );
}

#[test]
fn rendering_twice_gives_identical_output() {
    let make = || {
        dir(
            "root",
            vec![file("b.txt"), dir("d", vec![file("y"), file("x")]), file("a.txt")],
        )
    };
    let ignore = strings(&["y"]);
    let first = render(make(), &ignore);
    let second = render(make(), &ignore);
    assert_eq!(first, second);
}

#[test]
fn exactly_one_closing_glyph_per_level() {
    let root = dir(
        "root",
        vec![dir("a", vec![file("one"), file("two")]), file("b"), file("c")],
    );
    let ignore: Vec<String> = Vec::new();
    let lines = render(root, &ignore);
    let top: Vec<&String> = lines.iter().filter(|l| !l.starts_with("\u{2502}") && !l.starts_with(" ")).collect();
    let closing = "\u{2514}\u{2500}\u{2500} ";
    let count = top.iter().filter(|l| l.starts_with(closing)).count();
    assert_eq!(count, 1);
    assert!(top.last().unwrap().starts_with(closing));
}

#[test]
fn ignore_membership_is_exact_and_case_sensitive() {
    let ignore = strings(&["node_modules", "target"]);
    assert!(is_ignored(&"node_modules".to_string(), &ignore));
    assert!(is_ignored(&"target".to_string(), &ignore));
    assert!(!is_ignored(&"Target".to_string(), &ignore));
    assert!(!is_ignored(&"node_module".to_string(), &ignore));
    assert!(!is_ignored(&"node_modules2".to_string(), &ignore));
    assert!(!is_ignored(&"anything".to_string(), &Vec::new()));
}

#[test]
fn files_with_same_name_as_ignored_dir_are_dropped() {
    let root = dir("root", vec![file("skipme"), file("keep")]);
    let ignore = strings(&["skipme"]);
    let lines = render(root, &ignore);
    assert_eq!(lines, strings(&["\u{2514}\u{2500}\u{2500} keep"]));
}
