use chainlink::commands::label::{add, remove};
use chainlink::db::Database;


#[test]
fn test_add_label_to_existing_issue() {
    let mut db = Database::new();
    let issue_id = db.create_issue("Test issue", None, "medium").unwrap();

    let result = add(&mut db, issue_id, "bug");
    assert!(result.is_ok());

    let labels = db.get_labels(issue_id).unwrap();
    assert!(labels.contains(&"bug".to_string()));
}

#[test]
fn test_add_label_to_nonexistent_issue() {
    let mut db = Database::new();

    let result = add(&mut db, 99999, "bug");
    assert!(result.is_err());
    assert!(result.unwrap_err().message().contains("not found"));
}

#[test]
fn test_add_duplicate_label() {
    let mut db = Database::new();
    let issue_id = db.create_issue("Test issue", None, "medium").unwrap();

    add(&mut db, issue_id, "bug").unwrap();
    let result = add(&mut db, issue_id, "bug"); // Duplicate
    assert!(result.is_ok()); // Should succeed but not add duplicate

    let labels = db.get_labels(issue_id).unwrap();
    assert_eq!(labels.len(), 1);
}

#[test]
fn test_add_multiple_labels() {
    let mut db = Database::new();
    let issue_id = db.create_issue("Test issue", None, "medium").unwrap();

    add(&mut db, issue_id, "bug").unwrap();
    add(&mut db, issue_id, "urgent").unwrap();
    add(&mut db, issue_id, "backend").unwrap();

    let labels = db.get_labels(issue_id).unwrap();
    assert_eq!(labels.len(), 3);
    assert!(labels.contains(&"bug".to_string()));
    assert!(labels.contains(&"urgent".to_string()));
    assert!(labels.contains(&"backend".to_string()));
}

#[test]
fn test_add_empty_label() {
    let mut db = Database::new();
    let issue_id = db.create_issue("Test issue", None, "medium").unwrap();

    let result = add(&mut db, issue_id, "");
    assert!(result.is_ok());

    let labels = db.get_labels(issue_id).unwrap();
    assert!(labels.contains(&"".to_string()));
}

#[test]
fn test_add_unicode_label() {
    let mut db = Database::new();
    let issue_id = db.create_issue("Test issue", None, "medium").unwrap();

    let result = add(&mut db, issue_id, "バグ");
    assert!(result.is_ok());

    let labels = db.get_labels(issue_id).unwrap();
    assert!(labels.contains(&"バグ".to_string()));
}

#[test]
fn test_add_label_with_special_chars() {
    let mut db = Database::new();
    let issue_id = db.create_issue("Test issue", None, "medium").unwrap();

    let result = add(&mut db, issue_id, "high-priority");
    assert!(result.is_ok());

    let result = add(&mut db, issue_id, "v2.0");
    assert!(result.is_ok());

    let result = add(&mut db, issue_id, "team:backend");
    assert!(result.is_ok());

    let labels = db.get_labels(issue_id).unwrap();
    assert_eq!(labels.len(), 3);
}

#[test]
fn test_add_label_sql_injection() {
    let mut db = Database::new();
    let issue_id = db.create_issue("Test issue", None, "medium").unwrap();

    let malicious = "'; DROP TABLE labels; --";
    let result = add(&mut db, issue_id, malicious);
    assert!(result.is_ok());

    // Verify label was stored literally
    let labels = db.get_labels(issue_id).unwrap();
    assert!(labels.contains(&malicious.to_string()));

    // Verify database integrity
    let issues = db.list_issues(None, None, None).unwrap();
    assert!(!issues.is_empty());
}

#[test]
fn test_remove_existing_label() {
    let mut db = Database::new();
    let issue_id = db.create_issue("Test issue", None, "medium").unwrap();

    add(&mut db, issue_id, "bug").unwrap();
    let result = remove(&mut db, issue_id, "bug");
    assert!(result.is_ok());

    let labels = db.get_labels(issue_id).unwrap();
    assert!(!labels.contains(&"bug".to_string()));
}

#[test]
fn test_remove_nonexistent_label() {
    let mut db = Database::new();
    let issue_id = db.create_issue("Test issue", None, "medium").unwrap();

    let result = remove(&mut db, issue_id, "nonexistent");
    assert!(result.is_ok()); // Should succeed but report not found
}

#[test]
fn test_remove_label_from_nonexistent_issue() {
    let mut db = Database::new();

    let result = remove(&mut db, 99999, "bug");
    assert!(result.is_err());
    assert!(result.unwrap_err().message().contains("not found"));
}

#[test]
fn test_remove_one_of_many_labels() {
    let mut db = Database::new();
    let issue_id = db.create_issue("Test issue", None, "medium").unwrap();

    add(&mut db, issue_id, "bug").unwrap();
    add(&mut db, issue_id, "urgent").unwrap();
    add(&mut db, issue_id, "backend").unwrap();

    remove(&mut db, issue_id, "urgent").unwrap();

    let labels = db.get_labels(issue_id).unwrap();
    assert_eq!(labels.len(), 2);
    assert!(labels.contains(&"bug".to_string()));
    assert!(labels.contains(&"backend".to_string()));
    assert!(!labels.contains(&"urgent".to_string()));
}

#[test]
fn test_add_label_to_closed_issue() {
    let mut db = Database::new();
    let issue_id = db.create_issue("Test issue", None, "medium").unwrap();
    db.close_issue(issue_id).unwrap();

    let result = add(&mut db, issue_id, "bug");
    assert!(result.is_ok());

    let labels = db.get_labels(issue_id).unwrap();
    assert!(labels.contains(&"bug".to_string()));
}
