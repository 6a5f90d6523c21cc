use chainlink::commands::list::run;
use chainlink::utils::truncate;
use chainlink::db::Database;


#[test]
fn list_test_truncate_short_string() {
    assert_eq!(truncate("hello", 10), "hello");
}

#[test]
fn list_test_truncate_exact_length() {
    assert_eq!(truncate("hello", 5), "hello");
}

#[test]
fn list_test_truncate_long_string() {
    assert_eq!(truncate("hello world", 8), "hello...");
}

#[test]
fn list_test_truncate_unicode() {
    // Multi-byte UTF-8 characters
    assert_eq!(truncate("← → ↑ ↓", 10), "← → ↑ ↓");
    let result = truncate("←←←←←←←←←←←←", 5);
    assert!(result.ends_with("..."));
    assert_eq!(result.chars().count(), 5);
}

#[test]
fn list_test_truncate_emoji() {
    // Emoji are multi-byte
    let result = truncate("🎉🎊🎈🎁🎂🎄🎃🎇🎆", 6);
    assert!(result.ends_with("..."));
    assert_eq!(result.chars().count(), 6);
}

#[test]
fn test_truncate_mixed_unicode() {
    let result = truncate("Hello 世界! 🌍", 8);
    assert!(result.ends_with("..."));
}

#[test]
fn test_truncate_edge_cases() {
    assert_eq!(truncate("", 5), "");
    assert_eq!(truncate("ab", 3), "ab");
    assert_eq!(truncate("abcd", 3), "...");
}

#[test]
fn test_run_empty() {
    let mut db = Database::new();
    let result = run(&db, None, None, None);
    assert!(result.is_ok());
}

#[test]
fn list_test_run_with_issues() {
    let mut db = Database::new();
    db.create_issue("Issue 1", None, "high").unwrap();
    db.create_issue("Issue 2", None, "medium").unwrap();
    db.create_issue("Issue 3", None, "low").unwrap();

    let result = run(&db, None, None, None);
    assert!(result.is_ok());
}

#[test]
fn test_run_status_filter_open() {
    let mut db = Database::new();
    let id1 = db.create_issue("Open issue", None, "medium").unwrap();
    let id2 = db.create_issue("Closed issue", None, "medium").unwrap();
    db.close_issue(id2).unwrap();

    let issues = db.list_issues(Some("open"), None, None).unwrap();
    assert!(issues.iter().any(|i| i.id == id1));
    assert!(!issues.iter().any(|i| i.id == id2));

    let result = run(&db, Some("open"), None, None);
    assert!(result.is_ok());
}

#[test]
fn test_run_status_filter_closed() {
    let mut db = Database::new();
    let id1 = db.create_issue("Open issue", None, "medium").unwrap();
    let id2 = db.create_issue("Closed issue", None, "medium").unwrap();
    db.close_issue(id2).unwrap();

    let issues = db.list_issues(Some("closed"), None, None).unwrap();
    assert!(!issues.iter().any(|i| i.id == id1));
    assert!(issues.iter().any(|i| i.id == id2));

    let result = run(&db, Some("closed"), None, None);
    assert!(result.is_ok());
}

#[test]
fn test_run_status_filter_all() {
    let mut db = Database::new();
    let id1 = db.create_issue("Open issue", None, "medium").unwrap();
    let id2 = db.create_issue("Closed issue", None, "medium").unwrap();
    db.close_issue(id2).unwrap();

    let result = run(&db, Some("all"), None, None);
    assert!(result.is_ok());
}

#[test]
fn test_run_label_filter() {
    let mut db = Database::new();
    let id1 = db.create_issue("Bug issue", None, "high").unwrap();
    let id2 = db.create_issue("Feature issue", None, "medium").unwrap();
    db.add_label(id1, "bug").unwrap();
    db.add_label(id2, "feature").unwrap();

    let issues = db.list_issues(None, Some("bug"), None).unwrap();
    assert!(issues.iter().any(|i| i.id == id1));
    assert!(!issues.iter().any(|i| i.id == id2));

    let result = run(&db, None, Some("bug"), None);
    assert!(result.is_ok());
}

#[test]
fn test_run_priority_filter() {
    let mut db = Database::new();
    let id1 = db.create_issue("High priority", None, "high").unwrap();
    let id2 = db.create_issue("Low priority", None, "low").unwrap();

    let issues = db.list_issues(None, None, Some("high")).unwrap();
    assert!(issues.iter().any(|i| i.id == id1));
    assert!(!issues.iter().any(|i| i.id == id2));

    let result = run(&db, None, None, Some("high"));
    assert!(result.is_ok());
}

#[test]
fn test_run_combined_filters() {
    let mut db = Database::new();
    let id1 = db.create_issue("High bug", None, "high").unwrap();
    let id2 = db.create_issue("Low bug", None, "low").unwrap();
    let id3 = db.create_issue("High feature", None, "high").unwrap();
    db.add_label(id1, "bug").unwrap();
    db.add_label(id2, "bug").unwrap();
    db.add_label(id3, "feature").unwrap();

    let issues = db
        .list_issues(Some("open"), Some("bug"), Some("high"))
        .unwrap();
    assert!(issues.iter().any(|i| i.id == id1));
    assert!(!issues.iter().any(|i| i.id == id2));
    assert!(!issues.iter().any(|i| i.id == id3));

    let result = run(&db, Some("open"), Some("bug"), Some("high"));
    assert!(result.is_ok());
}

#[test]
fn test_run_long_title_truncation() {
    let mut db = Database::new();
    let long_title = "A".repeat(100);
    db.create_issue(&long_title, None, "medium").unwrap();

    let result = run(&db, None, None, None);
    assert!(result.is_ok());
}

#[test]
fn test_run_unicode_title() {
    let mut db = Database::new();
    db.create_issue("日本語タイトル 🎉", None, "medium")
        .unwrap();

    let result = run(&db, None, None, None);
    assert!(result.is_ok());
}

#[test]
fn test_run_no_matching_filter() {
    let mut db = Database::new();
    db.create_issue("Issue", None, "medium").unwrap();

    let result = run(&db, None, Some("nonexistent-label"), None);
    assert!(result.is_ok());
}
