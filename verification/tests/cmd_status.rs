use chainlink::commands::status::{close, determine_changelog_category, reopen};
use chainlink::db::Database;


#[test]
fn test_close_existing_issue() {
    let mut db = Database::new();

    let issue_id = db.create_issue("Test issue", None, "medium").unwrap();

    let result = close(&mut db, issue_id);
    assert!(result.is_ok());

    let issue = db.get_issue(issue_id).unwrap().unwrap();
    assert_eq!(issue.status, "closed");
    assert!(issue.closed_at.is_some());
}

#[test]
fn test_close_nonexistent_issue() {
    let mut db = Database::new();

    let result = close(&mut db, 99999);
    assert!(result.is_err());
    assert!(result.unwrap_err().message().contains("not found"));
}

#[test]
fn test_close_already_closed_issue() {
    let mut db = Database::new();

    let issue_id = db.create_issue("Test issue", None, "medium").unwrap();
    db.close_issue(issue_id).unwrap();

    // Closing again should be fine (idempotent at db level)
    let result = close(&mut db, issue_id);
    assert!(result.is_ok());
}

#[test]
fn test_reopen_closed_issue() {
    let mut db = Database::new();

    let issue_id = db.create_issue("Test issue", None, "medium").unwrap();
    db.close_issue(issue_id).unwrap();

    let result = reopen(&mut db, issue_id);
    assert!(result.is_ok());

    let issue = db.get_issue(issue_id).unwrap().unwrap();
    assert_eq!(issue.status, "open");
    assert!(issue.closed_at.is_none());
}

#[test]
fn test_reopen_nonexistent_issue() {
    let mut db = Database::new();

    let result = reopen(&mut db, 99999);
    assert!(result.is_err());
    assert!(result.unwrap_err().message().contains("not found"));
}

#[test]
fn test_reopen_already_open_issue() {
    let mut db = Database::new();

    let issue_id = db.create_issue("Test issue", None, "medium").unwrap();

    // Reopening an open issue - succeeds (idempotent operation)
    let result = reopen(&mut db, issue_id);
    assert!(result.is_ok());

    let issue = db.get_issue(issue_id).unwrap().unwrap();
    assert_eq!(issue.status, "open");
}

#[test]
fn test_determine_changelog_category_bug() {
    assert_eq!(determine_changelog_category(&["bug".to_string()]), "Fixed");
    assert_eq!(determine_changelog_category(&["fix".to_string()]), "Fixed");
    assert_eq!(
        determine_changelog_category(&["bugfix".to_string()]),
        "Fixed"
    );
}

#[test]
fn test_determine_changelog_category_feature() {
    assert_eq!(
        determine_changelog_category(&["feature".to_string()]),
        "Added"
    );
    assert_eq!(
        determine_changelog_category(&["enhancement".to_string()]),
        "Added"
    );
}

#[test]
fn test_determine_changelog_category_breaking() {
    assert_eq!(
        determine_changelog_category(&["breaking".to_string()]),
        "Changed"
    );
    assert_eq!(
        determine_changelog_category(&["breaking-change".to_string()]),
        "Changed"
    );
}

#[test]
fn test_determine_changelog_category_other() {
    assert_eq!(
        determine_changelog_category(&["deprecated".to_string()]),
        "Deprecated"
    );
    assert_eq!(
        determine_changelog_category(&["removed".to_string()]),
        "Removed"
    );
    assert_eq!(
        determine_changelog_category(&["security".to_string()]),
        "Security"
    );
}

#[test]
fn test_determine_changelog_category_default() {
    assert_eq!(
        determine_changelog_category(&["unknown".to_string()]),
        "Changed"
    );
    assert_eq!(determine_changelog_category(&[]), "Changed");
}

#[test]
fn test_determine_changelog_category_first_match_wins() {
    // Bug comes before feature, so Fixed should win
    assert_eq!(
        determine_changelog_category(&["bug".to_string(), "feature".to_string()]),
        "Fixed"
    );
}

#[test]
fn test_determine_changelog_category_case_insensitive() {
    assert_eq!(determine_changelog_category(&["BUG".to_string()]), "Fixed");
    assert_eq!(
        determine_changelog_category(&["Feature".to_string()]),
        "Added"
    );
}

#[test]
fn test_close_reopen_cycle() {
    let mut db = Database::new();

    let issue_id = db.create_issue("Test issue", None, "medium").unwrap();

    // Close
    close(&mut db, issue_id).unwrap();
    let issue = db.get_issue(issue_id).unwrap().unwrap();
    assert_eq!(issue.status, "closed");

    // Reopen
    reopen(&mut db, issue_id).unwrap();
    let issue = db.get_issue(issue_id).unwrap().unwrap();
    assert_eq!(issue.status, "open");

    // Close again
    close(&mut db, issue_id).unwrap();
    let issue = db.get_issue(issue_id).unwrap().unwrap();
    assert_eq!(issue.status, "closed");
}
