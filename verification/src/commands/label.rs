//! Putting labels on issues and taking them off.

use vstd::prelude::*;

use crate::commands::CommandError;
use crate::db::{Database, DbError, DbView};

verus! {

/// What `add` answers: the issue must exist; then whether the label is new
/// on it.
pub open spec fn add_result(v: DbView, issue_id: int, label: Seq<char>) -> Result<
    bool,
    CommandError,
> {
    if !v.has_issue(issue_id) {
        Err(CommandError::Store(DbError::IssueNotFound(issue_id as i64)))
    } else {
        Ok(!v.has_label(issue_id, label))
    }
}

/// What `remove` answers: the issue must exist; then whether it carried the
/// label.
pub open spec fn remove_result(v: DbView, issue_id: int, label: Seq<char>) -> Result<
    bool,
    CommandError,
> {
    if !v.has_issue(issue_id) {
        Err(CommandError::Store(DbError::IssueNotFound(issue_id as i64)))
    } else {
        Ok(v.has_label(issue_id, label))
    }
}

/// Puts `label` on the issue `issue_id`, which must exist. Says whether the
/// label is new on it.
pub fn add(db: &mut Database, issue_id: i64, label: &str) -> (r: Result<bool, CommandError>)
    requires
        old(db).wf(),
    ensures
        final(db).wf(),
        r == add_result(old(db)@, issue_id as int, label@),
        final(db)@ == old(db)@.add_label(issue_id as int, label@),
{
    match db.require_issue(issue_id) {
        Ok(_) => {},
        Err(e) => {
            return Err(CommandError::Store(e));
        },
    }
    match db.add_label(issue_id, label) {
        Ok(added) => Ok(added),
        Err(e) => Err(CommandError::Store(e)),
    }
}

/// Takes `label` off the issue `issue_id`, which must exist. Says whether
/// the issue carried it.
pub fn remove(db: &mut Database, issue_id: i64, label: &str) -> (r: Result<bool, CommandError>)
    requires
        old(db).wf(),
    ensures
        final(db).wf(),
        r == remove_result(old(db)@, issue_id as int, label@),
        final(db)@ == (if r is Ok {
            old(db)@.remove_label(issue_id as int, label@)
        } else {
            old(db)@
        }),
{
    match db.require_issue(issue_id) {
        Ok(_) => {},
        Err(e) => {
            return Err(CommandError::Store(e));
        },
    }
    match db.remove_label(issue_id, label) {
        Ok(removed) => Ok(removed),
        Err(e) => Err(CommandError::Store(e)),
    }
}

} // verus!
