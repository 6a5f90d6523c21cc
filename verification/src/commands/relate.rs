//! Linking issues that have to do with each other.

use vstd::prelude::*;

use crate::clock::Timestamp;
use crate::commands::{lift, CommandError};
use crate::db::{rows_view, Database, DbError, DbView};
use crate::models::Issue;

verus! {

/// What `add` answers: both issues must exist; then what the store answers
/// to the link.
pub open spec fn add_result(v: DbView, issue_id: int, related_id: int) -> Result<
    bool,
    CommandError,
> {
    if !v.has_issue(issue_id) {
        Err(CommandError::Store(DbError::IssueNotFound(issue_id as i64)))
    } else if !v.has_issue(related_id) {
        Err(CommandError::Store(DbError::IssueNotFound(related_id as i64)))
    } else {
        lift(v.add_relation_result(issue_id, related_id))
    }
}

/// Links the issues `issue_id` and `related_id`, which must both exist.
/// Says whether the link is new.
pub fn add(db: &mut Database, issue_id: i64, related_id: i64) -> (r: Result<bool, CommandError>)
    requires
        old(db).wf(),
    ensures
        final(db).wf(),
        r == add_result(old(db)@, issue_id as int, related_id as int),
        r != Ok::<bool, CommandError>(true) ==> final(db)@ == old(db)@,
        r == Ok::<bool, CommandError>(true) ==> exists|now: Timestamp|
            final(db)@ == #[trigger] old(db)@.add_relation(
                issue_id as int,
                related_id as int,
                now,
            ),
{
    match db.require_issue(issue_id) {
        Ok(_) => {},
        Err(e) => {
            return Err(CommandError::Store(e));
        },
    }
    match db.require_issue(related_id) {
        Ok(_) => {},
        Err(e) => {
            return Err(CommandError::Store(e));
        },
    }
    match db.add_relation(issue_id, related_id) {
        Ok(added) => Ok(added),
        Err(e) => Err(CommandError::Store(e)),
    }
}

/// Takes the link between the two issues away and says whether there was
/// one.
pub fn remove(db: &mut Database, issue_id: i64, related_id: i64) -> (r: Result<bool, CommandError>)
    requires
        old(db).wf(),
    ensures
        final(db).wf(),
        r == Ok::<bool, CommandError>(old(db)@.are_related(issue_id as int, related_id as int)),
        final(db)@ == old(db)@.remove_relation(issue_id as int, related_id as int),
{
    match db.remove_relation(issue_id, related_id) {
        Ok(removed) => Ok(removed),
        Err(e) => Err(CommandError::Store(e)),
    }
}

/// The issues linked with `issue_id`, which must exist, by rising number.
pub fn list(db: &Database, issue_id: i64) -> (r: Result<Vec<Issue>, CommandError>)
    requires
        db.wf(),
    ensures
        match r {
            Ok(v) => db@.has_issue(issue_id as int) && rows_view(v@) == db@.related_issues(
                issue_id as int,
            ),
            Err(e) => !db@.has_issue(issue_id as int) && e == CommandError::Store(
                DbError::IssueNotFound(issue_id),
            ),
        },
{
    match db.require_issue(issue_id) {
        Ok(_) => {},
        Err(e) => {
            return Err(CommandError::Store(e));
        },
    }
    match db.get_related_issues(issue_id) {
        Ok(v) => Ok(v),
        Err(e) => Err(CommandError::Store(e)),
    }
}

} // verus!
