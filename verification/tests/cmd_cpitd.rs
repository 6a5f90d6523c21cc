use chainlink::commands::cpitd::{dedup_marker, format_clone_description, shorten_path, CloneGroup, CloneReport};


#[test]
fn test_dedup_marker_commutative() {
    let m1 = dedup_marker("src/a.rs", "src/b.rs");
    let m2 = dedup_marker("src/b.rs", "src/a.rs");
    assert_eq!(m1, m2);
}

#[test]
fn test_dedup_marker_contains_paths() {
    let marker = dedup_marker("foo.py", "bar.py");
    assert!(marker.contains("bar.py"));
    assert!(marker.contains("foo.py"));
    assert!(marker.starts_with("<!-- cpitd:"));
    assert!(marker.ends_with(" -->"));
}

#[test]
fn test_shorten_path_basic() {
    assert_eq!(shorten_path("src/commands/foo.rs"), "foo.rs");
    assert_eq!(shorten_path("bar.py"), "bar.py");
    assert_eq!(shorten_path("a/b/c/d.txt"), "d.txt");
}

#[test]
fn test_format_clone_description() {
    let report = CloneReport {
        file_a: "src/foo.rs".to_string(),
        file_b: "src/bar.rs".to_string(),
        total_cloned_lines: 10,
        groups: vec![CloneGroup {
            lines_a: vec![1, 10],
            lines_b: vec![20, 29],
            line_count: 10,
            token_count: 80,
        }],
    };
    let desc = format_clone_description(&report);
    assert!(desc.contains("<!-- cpitd:"));
    assert!(desc.contains("src/bar.rs"));
    assert!(desc.contains("src/foo.rs"));
    assert!(desc.contains("10"));
    assert!(desc.contains("80 tokens"));
}
