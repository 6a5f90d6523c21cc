use chainlink::commands::show::run;
use chainlink::db::Database;


#[test]
fn test_show_existing_issue() {
    let mut db = Database::new();
    let issue_id = db.create_issue("Test issue", None, "medium").unwrap();

    run(&db, issue_id).unwrap();
    let issue = db.get_issue(issue_id).unwrap().unwrap();
    assert_eq!(issue.title, "Test issue");
    assert_eq!(issue.priority, "medium");
    assert_eq!(issue.status, "open");
}

#[test]
fn show_test_show_nonexistent_issue() {
    let mut db = Database::new();

    let result = run(&db, 99999);
    assert!(result.is_err());
    assert!(result.unwrap_err().message().contains("not found"));
}

#[test]
fn test_show_issue_with_description() {
    let mut db = Database::new();
    let issue_id = db
        .create_issue("Test issue", Some("A detailed description"), "high")
        .unwrap();

    run(&db, issue_id).unwrap();
    let issue = db.get_issue(issue_id).unwrap().unwrap();
    assert_eq!(
        issue.description,
        Some("A detailed description".to_string())
    );
}

#[test]
fn test_show_issue_with_labels() {
    let mut db = Database::new();
    let issue_id = db.create_issue("Test issue", None, "medium").unwrap();
    db.add_label(issue_id, "bug").unwrap();
    db.add_label(issue_id, "urgent").unwrap();

    run(&db, issue_id).unwrap();
    let labels = db.get_labels(issue_id).unwrap();
    assert_eq!(labels.len(), 2);
    assert!(labels.contains(&"bug".to_string()));
    assert!(labels.contains(&"urgent".to_string()));
}

#[test]
fn test_show_issue_with_comments() {
    let mut db = Database::new();
    let issue_id = db.create_issue("Test issue", None, "medium").unwrap();
    db.add_comment(issue_id, "First comment").unwrap();
    db.add_comment(issue_id, "Second comment").unwrap();

    run(&db, issue_id).unwrap();
    let comments = db.get_comments(issue_id).unwrap();
    assert_eq!(comments.len(), 2);
    assert_eq!(comments[0].content, "First comment");
    assert_eq!(comments[1].content, "Second comment");
}

#[test]
fn test_show_issue_with_blockers() {
    let mut db = Database::new();
    let blocker_id = db.create_issue("Blocker", None, "high").unwrap();
    let issue_id = db.create_issue("Blocked issue", None, "medium").unwrap();
    db.add_dependency(issue_id, blocker_id).unwrap();

    run(&db, issue_id).unwrap();
    let blockers = db.get_blockers(issue_id).unwrap();
    assert_eq!(blockers.len(), 1);
    assert!(blockers.contains(&blocker_id));
}

#[test]
fn test_show_issue_with_subissues() {
    let mut db = Database::new();
    let parent_id = db.create_issue("Parent", None, "high").unwrap();
    let c1 = db
        .create_subissue(parent_id, "Child 1", None, "medium")
        .unwrap();
    let c2 = db
        .create_subissue(parent_id, "Child 2", None, "low")
        .unwrap();

    run(&db, parent_id).unwrap();
    let subs = db.get_subissues(parent_id).unwrap();
    assert_eq!(subs.len(), 2);
    assert!(subs.iter().any(|s| s.id == c1 && s.title == "Child 1"));
    assert!(subs.iter().any(|s| s.id == c2 && s.title == "Child 2"));
}

#[test]
fn test_show_subissue_shows_parent() {
    let mut db = Database::new();
    let parent_id = db.create_issue("Parent", None, "high").unwrap();
    let child_id = db
        .create_subissue(parent_id, "Child", None, "medium")
        .unwrap();

    run(&db, child_id).unwrap();
    let child = db.get_issue(child_id).unwrap().unwrap();
    assert_eq!(child.parent_id, Some(parent_id));
}

#[test]
fn test_show_issue_with_related() {
    let mut db = Database::new();
    let issue1 = db.create_issue("Issue 1", None, "medium").unwrap();
    let issue2 = db.create_issue("Issue 2", None, "medium").unwrap();
    db.add_relation(issue1, issue2).unwrap();

    run(&db, issue1).unwrap();
    let related = db.get_related_issues(issue1).unwrap();
    assert_eq!(related.len(), 1);
    assert_eq!(related[0].id, issue2);
}

#[test]
fn test_show_closed_issue() {
    let mut db = Database::new();
    let issue_id = db.create_issue("Test issue", None, "medium").unwrap();
    db.close_issue(issue_id).unwrap();

    run(&db, issue_id).unwrap();
    let issue = db.get_issue(issue_id).unwrap().unwrap();
    assert_eq!(issue.status, "closed");
    assert!(issue.closed_at.is_some());
}

#[test]
fn test_show_issue_with_milestone() {
    let mut db = Database::new();
    let issue_id = db.create_issue("Test issue", None, "medium").unwrap();
    let milestone_id = db.create_milestone("v1.0", None).unwrap();
    db.add_issue_to_milestone(milestone_id, issue_id).unwrap();

    run(&db, issue_id).unwrap();
    let milestone = db.get_issue_milestone(issue_id).unwrap();
    assert!(milestone.is_some());
    assert_eq!(milestone.unwrap().name, "v1.0");
}

#[test]
fn test_show_issue_unicode_content() {
    let mut db = Database::new();
    let issue_id = db
        .create_issue("测试问题 🐛", Some("描述 αβγ"), "medium")
        .unwrap();
    db.add_comment(issue_id, "评论 🎉").unwrap();
    db.add_label(issue_id, "バグ").unwrap();

    run(&db, issue_id).unwrap();
    let issue = db.get_issue(issue_id).unwrap().unwrap();
    assert_eq!(issue.title, "测试问题 🐛");
    assert_eq!(issue.description, Some("描述 αβγ".to_string()));
    let labels = db.get_labels(issue_id).unwrap();
    assert!(labels.contains(&"バグ".to_string()));
}

#[test]
fn test_show_issue_multiline_description() {
    let mut db = Database::new();
    let desc = "Line 1\nLine 2\n\nLine 4 after blank";
    let issue_id = db.create_issue("Test", Some(desc), "medium").unwrap();

    run(&db, issue_id).unwrap();
    let issue = db.get_issue(issue_id).unwrap().unwrap();
    assert_eq!(issue.description, Some(desc.to_string()));
}

#[test]
fn test_show_issue_empty_description() {
    let mut db = Database::new();
    let issue_id = db.create_issue("Test", Some(""), "medium").unwrap();

    run(&db, issue_id).unwrap();
    let issue = db.get_issue(issue_id).unwrap().unwrap();
    assert_eq!(issue.description, Some("".to_string()));
}
