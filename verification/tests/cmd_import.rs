use chainlink::commands::import::{import_issues, ExportedIssue};
use chainlink::db::Database;


fn make_issue(id: i64, title: &str, parent_id: Option<i64>, status: &str) -> ExportedIssue {
    ExportedIssue {
        id,
        title: title.to_string(),
        description: None,
        status: status.to_string(),
        priority: "medium".to_string(),
        parent_id,
        labels: vec![],
        comments: vec![],
        created_at: "2024-01-01T00:00:00Z".to_string(),
        updated_at: "2024-01-01T00:00:00Z".to_string(),
        closed_at: None,
    }
}


#[test]
fn test_import_single_issue() {
    let mut db = Database::new();
    let issues = vec![make_issue(1, "Test issue", None, "open")];
    let result = import_issues(&mut db, &issues);
    assert!(result.is_ok());
    let issues = db.list_issues(Some("all"), None, None).unwrap();
    assert_eq!(issues.len(), 1);
}

#[test]
fn test_import_multiple_issues() {
    let mut db = Database::new();
    let issues = vec![
        make_issue(1, "Issue 1", None, "open"),
        make_issue(2, "Issue 2", None, "open"),
    ];
    import_issues(&mut db, &issues).unwrap();
    let issues = db.list_issues(Some("all"), None, None).unwrap();
    assert_eq!(issues.len(), 2);
}

#[test]
fn test_import_closed_issue() {
    let mut db = Database::new();
    let issues = vec![make_issue(1, "Closed", None, "closed")];
    import_issues(&mut db, &issues).unwrap();
    let issues = db.list_issues(Some("closed"), None, None).unwrap();
    assert_eq!(issues.len(), 1);
}

#[test]
fn test_import_with_labels() {
    let mut db = Database::new();
    let mut issue = make_issue(1, "Labeled", None, "open");
    issue.labels = vec!["bug".to_string()];
    let issues = vec![issue];
    import_issues(&mut db, &issues).unwrap();
    let issues = db.list_issues(Some("all"), None, None).unwrap();
    let labels = db.get_labels(issues[0].id).unwrap();
    assert!(labels.contains(&"bug".to_string()));
}

#[test]
fn test_import_empty_issues() {
    let mut db = Database::new();
    let issues = vec![];
    let result = import_issues(&mut db, &issues);
    assert!(result.is_ok());
}
