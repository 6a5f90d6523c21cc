use chainlink::clock::Timestamp;
use chainlink::db::persist::Tables;
use chainlink::db::{Database, DbError};
use chainlink::graph::{contains_id, is_acyclic, reachable_from};
use chainlink::models::{Label, TimeEntry};

fn at(secs: i64) -> Timestamp {
    Timestamp { secs, nanos: 0 }
}

fn empty_tables() -> Tables {
    Database::new().export_tables()
}

#[test]
fn every_store_error_has_its_message() {
    assert_eq!(DbError::SelfDependency.message(), "An issue cannot block itself");
    assert_eq!(
        DbError::CircularDependency.message(),
        "Adding this dependency would create a circular dependency chain"
    );
    assert_eq!(DbError::SelfRelation.message(), "Cannot relate an issue to itself");
    assert_eq!(DbError::IssueNotFound(42).message(), "Issue #42 not found");
    assert_eq!(DbError::IssueNotFound(0).message(), "Issue #0 not found");
    assert_eq!(DbError::IssueNotFound(-7).message(), "Issue #-7 not found");
    assert_eq!(
        DbError::IssueNotFound(i64::MIN).message(),
        "Issue #-9223372036854775808 not found"
    );
    assert_eq!(
        DbError::IssueNotFound(i64::MAX).message(),
        "Issue #9223372036854775807 not found"
    );
    assert_eq!(DbError::ForeignKey.message(), "FOREIGN KEY constraint failed");
    assert_eq!(DbError::Full.message(), "database or disk is full");
}

#[test]
fn require_issue_fails_where_get_issue_finds_none() {
    let mut db = Database::new();
    let id = db.create_issue("There", None, "low").unwrap();
    assert_eq!(db.require_issue(id).unwrap().title, "There");
    assert_eq!(db.require_issue(id + 1), Err(DbError::IssueNotFound(id + 1)));
    assert_eq!(db.get_issue(id + 1), Ok(None));
}

#[test]
fn rows_may_only_name_issues_that_exist() {
    let mut db = Database::new();
    let a = db.create_issue("A", None, "low").unwrap();
    let session = db.start_session().unwrap();
    let milestone = db.create_milestone("m", None).unwrap();
    let before = db.export_tables();
    assert_eq!(db.add_label(99, "x"), Err(DbError::ForeignKey));
    assert_eq!(db.add_comment(99, "x"), Err(DbError::ForeignKey));
    assert_eq!(db.add_dependency(a, 99), Err(DbError::ForeignKey));
    assert_eq!(db.add_dependency(99, a), Err(DbError::ForeignKey));
    assert_eq!(db.add_relation(a, 99), Err(DbError::ForeignKey));
    assert_eq!(db.add_relation(99, a), Err(DbError::ForeignKey));
    assert_eq!(db.start_timer(99), Err(DbError::ForeignKey));
    assert_eq!(db.set_session_issue(session, 99), Err(DbError::ForeignKey));
    assert_eq!(db.add_issue_to_milestone(milestone, 99), Err(DbError::ForeignKey));
    assert_eq!(db.add_issue_to_milestone(99, a), Err(DbError::ForeignKey));
    // a session that does not exist is no error
    assert_eq!(db.set_session_issue(99, a), Ok(false));
    assert_eq!(db.set_session_issue(99, 99), Ok(false));
    assert_eq!(db.export_tables(), before);
}

#[test]
fn a_parent_need_not_exist() {
    let mut db = Database::new();
    let orphan = db.create_subissue(500, "Orphan", None, "low").unwrap();
    assert_eq!(db.get_issue(orphan).unwrap().unwrap().parent_id, Some(500));
    assert_eq!(db.get_subissues(500).unwrap().len(), 1);
    assert!(db.update_parent(orphan, Some(orphan)).unwrap());
    assert!(db.delete_issue(orphan).unwrap());
    assert!(db.list_issues(None, None, None).unwrap().is_empty());
}

#[test]
fn a_full_table_refuses_and_changes_nothing() {
    let mut tables = empty_tables();
    tables.last_issue_id = i64::MAX;
    tables.last_comment_id = i64::MAX;
    tables.last_session_id = i64::MAX;
    tables.last_time_entry_id = i64::MAX;
    tables.last_milestone_id = i64::MAX;
    let mut db = Database::restore(tables.clone()).unwrap();
    assert_eq!(db.create_issue("x", None, "low"), Err(DbError::Full));
    assert_eq!(db.create_subissue(1, "x", None, "low"), Err(DbError::Full));
    assert_eq!(db.start_session(), Err(DbError::Full));
    assert_eq!(db.create_milestone("m", None), Err(DbError::Full));
    assert_eq!(db.add_comment(1, "c"), Err(DbError::Full));
    assert_eq!(db.start_timer(1), Err(DbError::Full));
    assert_eq!(db.next_issue_number(), None);
    assert_eq!(db.export_tables(), tables);

    let mut tables = empty_tables();
    tables.last_issue_id = i64::MAX - 1;
    let mut db = Database::restore(tables).unwrap();
    assert_eq!(db.next_issue_number(), Some(i64::MAX));
    assert_eq!(db.create_issue("last", None, "low"), Ok(i64::MAX));
    assert_eq!(db.create_issue("none", None, "low"), Err(DbError::Full));
}

#[test]
fn update_replaces_only_what_is_given() {
    let mut db = Database::new();
    let id = db.create_issue_at("Title", Some("Desc"), "low", None, at(1)).unwrap();
    assert_eq!(db.update_issue_at(id, None, None, None, at(2)), Ok(true));
    let issue = db.get_issue(id).unwrap().unwrap();
    assert_eq!(
        (issue.title.as_str(), issue.description.as_deref(), issue.priority.as_str()),
        ("Title", Some("Desc"), "low")
    );
    assert_eq!(issue.updated_at, at(2));
    assert_eq!(issue.created_at, at(1));
    assert_eq!(db.update_issue_at(id, None, Some(""), Some("anything"), at(3)), Ok(true));
    let issue = db.get_issue(id).unwrap().unwrap();
    assert_eq!(
        (issue.title.as_str(), issue.description.as_deref(), issue.priority.as_str()),
        ("Title", Some(""), "anything")
    );
    assert_eq!(db.update_issue_at(id + 1, Some("x"), None, None, at(4)), Ok(false));
    assert_eq!(db.update_parent_at(id + 1, None, at(4)), Ok(false));
}

#[test]
fn archiving_needs_a_closed_issue() {
    let mut db = Database::new();
    let id = db.create_issue_at("x", None, "low", None, at(1)).unwrap();
    assert_eq!(db.archive_issue_at(id, at(2)), Ok(false));
    assert_eq!(db.unarchive_issue_at(id, at(2)), Ok(false));
    assert_eq!(db.get_issue(id).unwrap().unwrap().updated_at, at(1));
    db.close_issue_at(id, at(3)).unwrap();
    assert_eq!(db.unarchive_issue_at(id, at(4)), Ok(false));
    assert_eq!(db.archive_issue_at(id, at(5)), Ok(true));
    let issue = db.get_issue(id).unwrap().unwrap();
    assert_eq!(issue.status, "archived");
    assert_eq!(issue.closed_at, Some(at(3)));
    assert_eq!(issue.updated_at, at(5));
    assert_eq!(db.archive_issue_at(id, at(6)), Ok(false));
    assert_eq!(db.unarchive_issue_at(id, at(7)), Ok(true));
    let issue = db.get_issue(id).unwrap().unwrap();
    assert_eq!(issue.status, "closed");
    assert_eq!(issue.closed_at, Some(at(3)));
    assert_eq!(db.archive_issue_at(99, at(8)), Ok(false));
    // reopening an archived issue opens it
    db.archive_issue_at(id, at(9)).unwrap();
    db.reopen_issue_at(id, at(10)).unwrap();
    let issue = db.get_issue(id).unwrap().unwrap();
    assert_eq!((issue.status.as_str(), issue.closed_at), ("open", None));
}

#[test]
fn old_closed_issues_are_archived_in_one_step() {
    let day = 86_400;
    let mut db = Database::new();
    let old = db.create_issue_at("old", None, "low", None, at(0)).unwrap();
    let edge = db.create_issue_at("edge", None, "low", None, at(0)).unwrap();
    let fresh = db.create_issue_at("fresh", None, "low", None, at(0)).unwrap();
    let open = db.create_issue_at("open", None, "low", None, at(0)).unwrap();
    let archived = db.create_issue_at("archived", None, "low", None, at(0)).unwrap();
    db.close_issue_at(old, at(100)).unwrap();
    db.close_issue_at(edge, at(100 * day)).unwrap();
    db.close_issue_at(fresh, at(105 * day)).unwrap();
    db.close_issue_at(archived, at(50)).unwrap();
    db.archive_issue_at(archived, at(60)).unwrap();
    let now = at(110 * day);
    assert_eq!(db.archive_older_than_at(10, now), Ok(1));
    let status = |db: &Database, id: i64| db.get_issue(id).unwrap().unwrap().status;
    assert_eq!(status(&db, old), "archived");
    assert_eq!(status(&db, edge), "closed");
    assert_eq!(status(&db, fresh), "closed");
    assert_eq!(status(&db, open), "open");
    assert_eq!(db.get_issue(old).unwrap().unwrap().updated_at, now);
    assert_eq!(db.get_issue(old).unwrap().unwrap().closed_at, Some(at(100)));
    assert_eq!(db.get_issue(archived).unwrap().unwrap().updated_at, at(60));
    assert_eq!(db.archive_older_than_at(10, now), Ok(0));
    assert_eq!(db.archive_older_than_at(0, now), Ok(2));
    let ids: Vec<i64> = db.list_archived_issues().unwrap().iter().map(|i| i.id).collect();
    assert_eq!(ids, vec![archived, fresh, edge, old]);
}

#[test]
fn listing_filters_and_orders() {
    let mut db = Database::new();
    let a = db.create_issue("a", None, "low").unwrap();
    let b = db.create_issue("b", None, "high").unwrap();
    let c = db.create_issue("c", None, "high").unwrap();
    db.add_label(a, "x").unwrap();
    db.add_label(c, "x").unwrap();
    db.add_label(c, "y").unwrap();
    db.close_issue(c).unwrap();
    let ids = |v: Vec<chainlink::models::Issue>| -> Vec<i64> { v.iter().map(|i| i.id).collect() };
    assert_eq!(ids(db.list_issues(None, None, None).unwrap()), vec![c, b, a]);
    assert_eq!(ids(db.list_issues(Some("all"), None, None).unwrap()), vec![c, b, a]);
    assert_eq!(ids(db.list_issues(Some("open"), None, None).unwrap()), vec![b, a]);
    assert_eq!(ids(db.list_issues(Some("ALL"), None, None).unwrap()), Vec::<i64>::new());
    assert_eq!(ids(db.list_issues(None, Some("x"), None).unwrap()), vec![c, a]);
    assert_eq!(ids(db.list_issues(None, Some("all"), None).unwrap()), Vec::<i64>::new());
    assert_eq!(ids(db.list_issues(None, None, Some("high")).unwrap()), vec![c, b]);
    assert_eq!(ids(db.list_issues(None, None, Some("all")).unwrap()), Vec::<i64>::new());
    assert_eq!(ids(db.list_issues(Some("closed"), Some("x"), Some("high")).unwrap()), vec![c]);
    assert_eq!(ids(db.list_issues(Some("open"), Some("y"), None).unwrap()), Vec::<i64>::new());
    assert_eq!(ids(db.get_subissues(a).unwrap()), Vec::<i64>::new());
}

#[test]
fn labels_come_in_the_order_of_a_dictionary() {
    let mut db = Database::new();
    let id = db.create_issue("x", None, "low").unwrap();
    for label in ["b", "a", "", "ab", "B", "é", "aa", "a"] {
        db.add_label(id, label).unwrap();
    }
    assert_eq!(db.get_labels(id).unwrap(), vec!["", "B", "a", "aa", "ab", "b", "é"]);
    assert_eq!(db.get_labels(id + 1).unwrap(), Vec::<String>::new());
    assert_eq!(db.remove_label(id, "A"), Ok(false));
    assert_eq!(db.remove_label(id + 1, "a"), Ok(false));
    assert_eq!(db.remove_label(id, ""), Ok(true));
    assert_eq!(db.get_labels(id).unwrap(), vec!["B", "a", "aa", "ab", "b", "é"]);
}

#[test]
fn comments_stay_in_the_order_in_which_they_were_made() {
    let mut db = Database::new();
    let a = db.create_issue("a", None, "low").unwrap();
    let b = db.create_issue("b", None, "low").unwrap();
    assert_eq!(db.add_comment_at(a, "late clock", at(100)), Ok(1));
    assert_eq!(db.add_comment_at(b, "other", at(50)), Ok(2));
    assert_eq!(db.add_comment_at(a, "early clock", at(10)), Ok(3));
    let texts: Vec<String> = db.get_comments(a).unwrap().into_iter().map(|c| c.content).collect();
    assert_eq!(texts, vec!["late clock", "early clock"]);
    let ids: Vec<(i64, i64)> = db.get_comments(b).unwrap().iter().map(|c| (c.id, c.issue_id)).collect();
    assert_eq!(ids, vec![(2, b)]);
    assert_eq!(db.get_comments(b).unwrap()[0].created_at, at(50));
}

#[test]
fn relations_hold_both_ways_and_once() {
    let mut db = Database::new();
    let a = db.create_issue("a", None, "low").unwrap();
    let b = db.create_issue("b", None, "low").unwrap();
    let c = db.create_issue("c", None, "low").unwrap();
    assert_eq!(db.add_relation(a, a), Err(DbError::SelfRelation));
    assert_eq!(db.add_relation(99, 99), Err(DbError::SelfRelation));
    assert_eq!(db.add_relation_at(b, a, at(5)), Ok(true));
    assert_eq!(db.add_relation(a, b), Ok(false));
    assert_eq!(db.add_relation(c, a), Ok(true));
    let tables = db.export_tables();
    assert_eq!(
        tables.relations.iter().map(|r| (r.issue_id_1, r.issue_id_2)).collect::<Vec<_>>(),
        vec![(a, b), (a, c)]
    );
    assert_eq!(tables.relations[0].created_at, at(5));
    let ids = |v: Vec<chainlink::models::Issue>| -> Vec<i64> { v.iter().map(|i| i.id).collect() };
    assert_eq!(ids(db.get_related_issues(a).unwrap()), vec![b, c]);
    assert_eq!(ids(db.get_related_issues(c).unwrap()), vec![a]);
    assert_eq!(db.remove_relation(b, a), Ok(true));
    assert_eq!(db.remove_relation(b, a), Ok(false));
    assert_eq!(ids(db.get_related_issues(a).unwrap()), vec![c]);
}

#[test]
fn sessions_begin_end_and_hand_over() {
    let mut db = Database::new();
    assert_eq!(db.get_current_session(), Ok(None));
    assert_eq!(db.get_last_session(), Ok(None));
    assert_eq!(db.end_session(1, None), Ok(false));
    let first = db.start_session_at(at(10)).unwrap();
    let second = db.start_session_at(at(20)).unwrap();
    assert_eq!(db.get_current_session().unwrap().unwrap().id, second);
    assert_eq!(db.end_session_at(second, Some("notes"), at(30)), Ok(true));
    assert_eq!(db.get_current_session().unwrap().unwrap().id, first);
    let last = db.get_last_session().unwrap().unwrap();
    assert_eq!((last.id, last.started_at, last.ended_at), (second, at(20), Some(at(30))));
    assert_eq!(last.handoff_notes.as_deref(), Some("notes"));
    // ending once more replaces the end and the notes
    assert_eq!(db.end_session_at(second, None, at(40)), Ok(true));
    let last = db.get_last_session().unwrap().unwrap();
    assert_eq!((last.ended_at, last.handoff_notes), (Some(at(40)), None));
    assert_eq!(db.end_session_at(first, None, at(50)), Ok(true));
    assert_eq!(db.get_current_session(), Ok(None));
    assert_eq!(db.get_last_session().unwrap().unwrap().id, second);
}

#[test]
fn timers_count_whole_seconds() {
    let mut db = Database::new();
    let a = db.create_issue("a", None, "low").unwrap();
    let b = db.create_issue("b", None, "low").unwrap();
    assert_eq!(db.stop_timer_at(a, at(5)), Ok(false));
    assert_eq!(db.get_active_timer(), Ok(None));
    assert_eq!(db.start_timer_at(a, Timestamp { secs: 100, nanos: 900_000_000 }), Ok(1));
    assert_eq!(db.start_timer_at(b, at(200)), Ok(2));
    assert_eq!(db.get_active_timer(), Ok(Some((b, at(200)))));
    assert_eq!(db.stop_timer_at(a, Timestamp { secs: 160, nanos: 100_000_000 }), Ok(true));
    assert_eq!(db.get_total_time(a), Ok(59));
    assert_eq!(db.get_total_time(b), Ok(0));
    assert_eq!(db.get_active_timer(), Ok(Some((b, at(200)))));
    assert_eq!(db.stop_timer_at(a, at(170)), Ok(false));
    // two running entries of one issue end together, counted from the first
    assert_eq!(db.start_timer_at(a, at(300)), Ok(3));
    assert_eq!(db.start_timer_at(a, at(310)), Ok(4));
    assert_eq!(db.stop_timer_at(a, at(320)), Ok(true));
    assert_eq!(db.get_total_time(a), Ok(59 + 20 + 20));
    // a clock that ran backwards counts against the total
    assert_eq!(db.stop_timer_at(b, at(150)), Ok(true));
    assert_eq!(db.get_total_time(b), Ok(-50));
    assert_eq!(db.get_active_timer(), Ok(None));
    let entries = db.export_tables().time_entries;
    assert_eq!(entries[2].ended_at, Some(at(320)));
    assert_eq!(entries[3].duration_seconds, Some(20));
}

#[test]
fn a_total_that_overflows_counts_as_nothing() {
    let mut db = Database::new();
    let a = db.create_issue("a", None, "low").unwrap();
    let mut tables = db.export_tables();
    let entry = |id: i64, seconds: i64| TimeEntry {
        id,
        issue_id: a,
        started_at: at(0),
        ended_at: Some(at(1)),
        duration_seconds: Some(seconds),
    };
    tables.time_entries = vec![entry(1, i64::MAX), entry(2, 1), entry(3, -5)];
    tables.last_time_entry_id = 3;
    let db = Database::restore(tables.clone()).unwrap();
    assert_eq!(db.get_total_time(a), Ok(0));
    tables.time_entries = vec![entry(1, i64::MAX), entry(2, -5), entry(3, 1)];
    let db = Database::restore(tables).unwrap();
    assert_eq!(db.get_total_time(a), Ok(i64::MAX - 4));
}

#[test]
fn milestones_gather_issues() {
    let mut db = Database::new();
    let a = db.create_issue("a", None, "low").unwrap();
    let b = db.create_issue("b", None, "low").unwrap();
    let m1 = db.create_milestone_at("v1", Some("first"), at(1)).unwrap();
    let m2 = db.create_milestone_at("v2", None, at(2)).unwrap();
    assert_eq!(db.add_issue_to_milestone(m2, b), Ok(true));
    assert_eq!(db.add_issue_to_milestone(m1, b), Ok(true));
    assert_eq!(db.add_issue_to_milestone(m1, a), Ok(true));
    assert_eq!(db.add_issue_to_milestone(m1, a), Ok(false));
    // the milestone an issue was put in first
    assert_eq!(db.get_issue_milestone(b).unwrap().unwrap().id, m2);
    assert_eq!(db.get_issue_milestone(a).unwrap().unwrap().id, m1);
    let ids: Vec<i64> = db.get_milestone_issues(m1).unwrap().iter().map(|i| i.id).collect();
    assert_eq!(ids, vec![a, b]);
    assert_eq!(db.close_milestone_at(m1, at(9)), Ok(true));
    assert_eq!(db.close_milestone_at(77, at(9)), Ok(false));
    let m = db.get_milestone(m1).unwrap().unwrap();
    assert_eq!((m.status.as_str(), m.closed_at, m.created_at), ("closed", Some(at(9)), at(1)));
    assert_eq!(m.description.as_deref(), Some("first"));
    let listed = |db: &Database, s: Option<&str>| -> Vec<i64> {
        db.list_milestones(s).unwrap().iter().map(|m| m.id).collect()
    };
    assert_eq!(listed(&db, None), vec![m2]);
    assert_eq!(listed(&db, Some("open")), vec![m2]);
    assert_eq!(listed(&db, Some("closed")), vec![m1]);
    assert_eq!(listed(&db, Some("all")), vec![m2, m1]);
    assert_eq!(listed(&db, Some("other")), Vec::<i64>::new());
    assert_eq!(db.remove_issue_from_milestone(m1, a), Ok(true));
    assert_eq!(db.remove_issue_from_milestone(m1, a), Ok(false));
    assert_eq!(db.delete_milestone(m2), Ok(true));
    assert_eq!(db.delete_milestone(m2), Ok(false));
    assert_eq!(db.get_milestone(m2), Ok(None));
    assert_eq!(db.get_issue_milestone(b).unwrap().unwrap().id, m1);
    assert_eq!(db.get_issue_milestone(a), Ok(None));
    assert_eq!(db.list_issues(None, None, None).unwrap().len(), 2);
}

#[test]
fn a_transaction_takes_effect_whole_or_not_at_all() {
    let mut db = Database::new();
    db.create_issue("before", None, "low").unwrap();
    let kept: Result<i64, DbError> = db.transaction(|mut tx| {
        let r = tx.create_issue("inside", None, "low");
        (tx, r)
    });
    assert_eq!(kept, Ok(2));
    assert_eq!(db.list_issues(None, None, None).unwrap().len(), 2);
    let before = db.export_tables();
    let lost: Result<(), String> = db.transaction(|mut tx| {
        tx.create_issue("never seen", None, "low").unwrap();
        tx.delete_issue(1).unwrap();
        (tx, Err("gave up".to_string()))
    });
    assert_eq!(lost, Err("gave up".to_string()));
    assert_eq!(db.export_tables(), before);
    // the number given out inside the failed step is given out again
    assert_eq!(db.create_issue("after", None, "low"), Ok(3));
}

#[test]
fn a_copy_holds_the_same_rows() {
    let mut db = Database::new();
    let a = db.create_issue("a", Some("d"), "low").unwrap();
    db.add_label(a, "l").unwrap();
    let copy = db.duplicate();
    assert_eq!(copy.export_tables(), db.export_tables());
    db.add_label(a, "m").unwrap();
    assert_eq!(copy.get_labels(a).unwrap(), vec!["l"]);
}

#[test]
fn restore_accepts_what_export_gives() {
    let mut db = Database::new();
    let a = db.create_issue("a", None, "low").unwrap();
    let b = db.create_subissue(a, "b", None, "low").unwrap();
    db.add_dependency(a, b).unwrap();
    db.add_label(b, "l").unwrap();
    db.add_comment(a, "c").unwrap();
    db.add_relation(a, b).unwrap();
    let s = db.start_session().unwrap();
    db.set_session_issue(s, b).unwrap();
    db.start_timer(a).unwrap();
    let m = db.create_milestone("m", None).unwrap();
    db.add_issue_to_milestone(m, a).unwrap();
    db.close_issue(b).unwrap();
    let tables = db.export_tables();
    assert!(tables.is_consistent());
    let again = Database::restore(tables.clone()).unwrap();
    assert_eq!(again.export_tables(), tables);
}

#[test]
fn restore_refuses_rows_that_break_the_rules() {
    let mut db = Database::new();
    let a = db.create_issue("a", None, "low").unwrap();
    let b = db.create_issue("b", None, "low").unwrap();
    let c = db.create_issue("c", None, "low").unwrap();
    db.add_dependency(a, b).unwrap();
    db.add_dependency(b, c).unwrap();
    db.add_label(a, "l").unwrap();
    let good = db.export_tables();
    assert!(Database::restore(good.clone()).is_some());

    let mut t = good.clone();
    t.dependencies.push((a, c));
    assert!(Database::restore(t).is_none(), "a cycle");
    let mut t = good.clone();
    t.dependencies.push((a, a));
    assert!(Database::restore(t).is_none(), "a self-loop");
    let mut t = good.clone();
    t.dependencies.push((b, a));
    assert!(Database::restore(t).is_none(), "an edge twice");
    let mut t = good.clone();
    t.dependencies.push((a, 99));
    assert!(Database::restore(t).is_none(), "an edge to nowhere");
    let mut t = good.clone();
    t.labels.push(Label { issue_id: a, label: "l".to_string() });
    assert!(Database::restore(t).is_none(), "a label twice");
    let mut t = good.clone();
    t.labels.push(Label { issue_id: 99, label: "l".to_string() });
    assert!(Database::restore(t).is_none(), "a label on nothing");
    let mut t = good.clone();
    t.issues.swap(0, 1);
    assert!(Database::restore(t).is_none(), "numbers out of order");
    let mut t = good.clone();
    t.issues[1].id = a;
    assert!(Database::restore(t).is_none(), "a number twice");
    let mut t = good.clone();
    t.last_issue_id = 2;
    assert!(Database::restore(t).is_none(), "a number beyond the last");
    let mut t = good.clone();
    t.issues[0].id = 0;
    assert!(Database::restore(t).is_none(), "a number below one");
    let mut t = good.clone();
    t.issues[0].status = "closed".to_string();
    assert!(Database::restore(t).is_none(), "closed without a closing time");
    let mut t = good.clone();
    t.issues[0].closed_at = Some(at(1));
    assert!(Database::restore(t).is_none(), "open with a closing time");
    let mut t = good.clone();
    t.issues[0].status = "done".to_string();
    assert!(Database::restore(t).is_none(), "an unknown status");
    let mut t = good.clone();
    t.last_comment_id = -1;
    assert!(Database::restore(t).is_none(), "a negative counter");
    let mut t = good.clone();
    t.memberships.push((1, a));
    assert!(Database::restore(t).is_none(), "a membership of no milestone");
}

#[test]
fn reachability_follows_the_edges() {
    let edges = vec![(1, 2), (2, 3), (3, 1), (4, 5), (5, 5), (2, 6)];
    let mut from_one = reachable_from(&edges, 1);
    from_one.sort();
    assert_eq!(from_one, vec![1, 2, 3, 6]);
    let mut from_four = reachable_from(&edges, 4);
    from_four.sort();
    assert_eq!(from_four, vec![4, 5]);
    assert_eq!(reachable_from(&edges, 6), vec![6]);
    assert_eq!(reachable_from(&edges, 99), vec![99]);
    assert_eq!(reachable_from(&Vec::new(), 0), vec![0]);
    assert!(contains_id(&from_one, 6));
    assert!(!contains_id(&from_one, 4));
}

#[test]
fn cycles_are_found() {
    assert!(is_acyclic(&Vec::new()));
    assert!(is_acyclic(&vec![(1, 2), (2, 3), (1, 3), (4, 3)]));
    assert!(!is_acyclic(&vec![(1, 1)]));
    assert!(!is_acyclic(&vec![(1, 2), (2, 1)]));
    assert!(!is_acyclic(&vec![(1, 2), (2, 3), (3, 4), (4, 2)]));
    assert!(is_acyclic(&vec![(i64::MIN, i64::MAX), (0, i64::MIN)]));
}

#[test]
fn removing_a_dependency_says_whether_it_was_there() {
    let mut db = Database::new();
    let a = db.create_issue("a", None, "low").unwrap();
    let b = db.create_issue("b", None, "low").unwrap();
    assert_eq!(db.remove_dependency(a, b), Ok(false));
    db.add_dependency(a, b).unwrap();
    assert_eq!(db.remove_dependency(b, a), Ok(false));
    assert_eq!(db.remove_dependency(a, b), Ok(true));
    assert_eq!(db.remove_dependency(a, b), Ok(false));
    // with the edge gone the other direction is free
    assert_eq!(db.add_dependency(b, a), Ok(true));
}
