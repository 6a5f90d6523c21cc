use chainlink::commands::deps::{block, list_blocked, list_ready, unblock};
use chainlink::db::Database;


#[test]
fn test_block_success() {
    let mut db = Database::new();
    let issue1 = db.create_issue("Issue 1", None, "medium").unwrap();
    let issue2 = db.create_issue("Issue 2", None, "medium").unwrap();

    let result = block(&mut db, issue1, issue2);
    assert!(result.is_ok());
}

#[test]
fn deps_test_block_nonexistent_issue() {
    let mut db = Database::new();
    let issue = db.create_issue("Issue", None, "medium").unwrap();

    let result = block(&mut db, 99999, issue);
    assert!(result.is_err());
    assert!(result.unwrap_err().message().contains("not found"));
}

#[test]
fn test_block_nonexistent_blocker() {
    let mut db = Database::new();
    let issue = db.create_issue("Issue", None, "medium").unwrap();

    let result = block(&mut db, issue, 99999);
    assert!(result.is_err());
    assert!(result.unwrap_err().message().contains("not found"));
}

#[test]
fn deps_test_block_self() {
    let mut db = Database::new();
    let issue = db.create_issue("Issue", None, "medium").unwrap();

    let result = block(&mut db, issue, issue);
    assert!(result.is_err());
    assert!(result
        .unwrap_err().message()
        .contains("cannot block itself"));
}

#[test]
fn test_block_duplicate() {
    let mut db = Database::new();
    let issue1 = db.create_issue("Issue 1", None, "medium").unwrap();
    let issue2 = db.create_issue("Issue 2", None, "medium").unwrap();

    block(&mut db, issue1, issue2).unwrap();
    let result = block(&mut db, issue1, issue2);
    assert!(result.is_ok()); // Should succeed but print "already exists"
}

#[test]
fn test_unblock_success() {
    let mut db = Database::new();
    let issue1 = db.create_issue("Issue 1", None, "medium").unwrap();
    let issue2 = db.create_issue("Issue 2", None, "medium").unwrap();
    db.add_dependency(issue1, issue2).unwrap();

    let result = unblock(&mut db, issue1, issue2);
    assert!(result.is_ok());
}

#[test]
fn test_unblock_nonexistent_dependency() {
    let mut db = Database::new();
    let issue1 = db.create_issue("Issue 1", None, "medium").unwrap();
    let issue2 = db.create_issue("Issue 2", None, "medium").unwrap();

    let result = unblock(&mut db, issue1, issue2);
    assert!(result.is_ok()); // Should succeed but print "no such dependency"
}

#[test]
fn test_list_blocked_empty() {
    let mut db = Database::new();

    let result = list_blocked(&db);
    assert!(result.is_ok());
}

#[test]
fn test_list_blocked_with_issues() {
    let mut db = Database::new();
    let issue1 = db.create_issue("Blocked issue", None, "medium").unwrap();
    let issue2 = db.create_issue("Blocker", None, "medium").unwrap();
    db.add_dependency(issue1, issue2).unwrap();

    let result = list_blocked(&db);
    assert!(result.is_ok());
}

#[test]
fn test_list_blocked_multiple_blockers() {
    let mut db = Database::new();
    let blocked = db.create_issue("Blocked", None, "medium").unwrap();
    let blocker1 = db.create_issue("Blocker 1", None, "medium").unwrap();
    let blocker2 = db.create_issue("Blocker 2", None, "medium").unwrap();
    db.add_dependency(blocked, blocker1).unwrap();
    db.add_dependency(blocked, blocker2).unwrap();

    let result = list_blocked(&db);
    assert!(result.is_ok());
}

#[test]
fn test_list_ready_empty() {
    let mut db = Database::new();

    let result = list_ready(&db);
    assert!(result.is_ok());
}

#[test]
fn test_list_ready_with_issues() {
    let mut db = Database::new();
    db.create_issue("Ready issue", None, "medium").unwrap();

    let result = list_ready(&db);
    assert!(result.is_ok());
}

#[test]
fn test_list_ready_excludes_blocked() {
    let mut db = Database::new();
    let blocked = db.create_issue("Blocked", None, "high").unwrap();
    let blocker = db.create_issue("Blocker", None, "medium").unwrap();
    db.add_dependency(blocked, blocker).unwrap();

    let ready = db.list_ready_issues().unwrap();
    assert!(!ready.iter().any(|i| i.id == blocked));
    assert!(ready.iter().any(|i| i.id == blocker));
}

#[test]
fn test_list_ready_excludes_closed() {
    let mut db = Database::new();
    let issue = db.create_issue("Closed issue", None, "medium").unwrap();
    db.close_issue(issue).unwrap();

    let ready = db.list_ready_issues().unwrap();
    assert!(!ready.iter().any(|i| i.id == issue));
}

#[test]
fn test_block_unblock_roundtrip() {
    let mut db = Database::new();
    let issue1 = db.create_issue("Issue 1", None, "medium").unwrap();
    let issue2 = db.create_issue("Issue 2", None, "medium").unwrap();

    block(&mut db, issue1, issue2).unwrap();
    let blocked = db.list_blocked_issues().unwrap();
    assert!(blocked.iter().any(|i| i.id == issue1));

    unblock(&mut db, issue1, issue2).unwrap();
    let blocked = db.list_blocked_issues().unwrap();
    assert!(!blocked.iter().any(|i| i.id == issue1));
}

#[test]
fn test_closing_blocker_unblocks() {
    let mut db = Database::new();
    let blocked = db.create_issue("Blocked", None, "high").unwrap();
    let blocker = db.create_issue("Blocker", None, "medium").unwrap();
    db.add_dependency(blocked, blocker).unwrap();

    // Blocked issue should not be ready
    let ready = db.list_ready_issues().unwrap();
    assert!(!ready.iter().any(|i| i.id == blocked));

    // Close the blocker
    db.close_issue(blocker).unwrap();

    // Now blocked issue should be ready
    let ready = db.list_ready_issues().unwrap();
    assert!(ready.iter().any(|i| i.id == blocked));
}
