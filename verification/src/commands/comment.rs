//! Commenting on an issue.

use vstd::prelude::*;

use crate::clock::Timestamp;
use crate::commands::CommandError;
use crate::db::{Database, DbError, DbView};

verus! {

/// What commenting on the issue `issue_id` answers: the number of the new
/// comment, or why there is none.
pub open spec fn comment_result(v: DbView, issue_id: int) -> Result<int, CommandError> {
    if !v.has_issue(issue_id) {
        Err(CommandError::Store(DbError::IssueNotFound(issue_id as i64)))
    } else {
        match v.add_comment_result(issue_id) {
            Ok(n) => Ok(n),
            Err(e) => Err(CommandError::Store(e)),
        }
    }
}

/// The answer with the number as the machine holds it.
pub open spec fn as_number(r: Result<i64, CommandError>) -> Result<int, CommandError> {
    match r {
        Ok(n) => Ok(n as int),
        Err(e) => Err(e),
    }
}

/// Adds a comment to the issue `issue_id`, which must exist, and hands back
/// the comment's number.
pub fn run(db: &mut Database, issue_id: i64, content: &str) -> (r: Result<i64, CommandError>)
    requires
        old(db).wf(),
    ensures
        final(db).wf(),
        as_number(r) == comment_result(old(db)@, issue_id as int),
        r is Err ==> final(db)@ == old(db)@,
        r is Ok ==> exists|now: Timestamp|
            final(db)@ == #[trigger] old(db)@.add_comment(issue_id as int, content@, now),
{
    match db.require_issue(issue_id) {
        Ok(_) => {},
        Err(e) => {
            return Err(CommandError::Store(e));
        },
    }
    match db.add_comment(issue_id, content) {
        Ok(id) => Ok(id),
        Err(e) => Err(CommandError::Store(e)),
    }
}

} // verus!
