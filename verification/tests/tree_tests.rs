use devkit::tree::build_tree_lines;
use devkit::tree::is_excluded_name;
use devkit::tree::DirSnapshot;
use devkit::tree::RelPath;

fn rel(parts: &[&str]) -> RelPath {
    RelPath { parts: parts.iter().map(|p| p.to_string()).collect() }
}

fn listed(paths: &[&[&str]]) -> DirSnapshot {
    DirSnapshot::Listed(paths.iter().map(|p| rel(p)).collect())
}

#[test]
fn missing_path_yields_sentinel_line() {
    let lines = build_tree_lines("nowhere", &DirSnapshot::Missing, 3);
    assert_eq!(lines, vec!["  (path does not exist)".to_string()]);
}

#[test]
fn empty_listing_yields_header_only() {
    let lines = build_tree_lines("demo", &listed(&[]), 3);
    assert_eq!(lines, vec!["\u{1f4c2} demo (./)".to_string()]);
}

#[test]
fn renders_nested_tree_with_connectors() {
    let snap = listed(&[&["tests"], &["src", "app"], &["src"]]);
    let lines = build_tree_lines("demo", &snap, 3);
    assert_eq!(
        lines,
        vec![
            "\u{1f4c2} demo (./)".to_string(),
            "\u{251c}\u{2500}\u{2500} \u{1f4c1} src (./src)".to_string(),
            "\u{2502}   \u{2514}\u{2500}\u{2500} \u{1f4c1} app (./src/app)".to_string(),
            "\u{2514}\u{2500}\u{2500} \u{1f4c1} tests (./tests)".to_string(),
        ]
    );
}

#[test]
fn header_names_last_path_component() {
    let lines = build_tree_lines("a/b/demo", &listed(&[]), 3);
    assert_eq!(lines, vec!["\u{1f4c2} demo (./)".to_string()]);
}

#[test]
fn output_is_deterministic_across_walk_orders() {
    let one = listed(&[&["b"], &["a"], &["a", "x"], &["c"]]);
    let two = listed(&[&["c"], &["a", "x"], &["a"], &["b"]]);
    let lines_one = build_tree_lines("demo", &one, 3);
    let lines_two = build_tree_lines("demo", &two, 3);
    assert_eq!(lines_one, lines_two);
}

#[test]
fn entries_beyond_depth_bound_are_omitted() {
    let shallow = listed(&[&["a"], &["a", "b"]]);
    let deep = listed(&[&["a"], &["a", "b"], &["a", "b", "c"], &["a", "b", "c", "d"]]);
    let bounded = build_tree_lines("demo", &deep, 2);
    assert_eq!(bounded, build_tree_lines("demo", &shallow, 2));
    for line in &bounded {
        assert!(!line.contains("c"), "depth-three entry leaked: {}", line);
    }
}

#[test]
fn hidden_and_denylisted_entries_are_omitted() {
    let clean = listed(&[&["src"]]);
    let noisy = listed(&[
        &["src"],
        &[".git"],
        &[".git", "objects"],
        &["node_modules"],
        &["node_modules", "left-pad"],
        &["target"],
        &["dist"],
        &["build"],
        &["src", ".cache"],
    ]);
    assert_eq!(build_tree_lines("demo", &noisy, 3), build_tree_lines("demo", &clean, 3));
}

#[test]
fn exclusion_policy_on_single_names() {
    assert!(is_excluded_name(".git"));
    assert!(is_excluded_name(".x"));
    assert!(is_excluded_name("node_modules"));
    assert!(is_excluded_name("target"));
    assert!(is_excluded_name("dist"));
    assert!(is_excluded_name("build"));
    assert!(!is_excluded_name("src"));
    assert!(!is_excluded_name("builds"));
    assert!(!is_excluded_name(""));
}
