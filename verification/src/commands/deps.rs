//! Blocking and unblocking issues, and listing what is blocked or ready.

use vstd::prelude::*;

use crate::commands::{lift, CommandError};
use crate::db::{rows_view, Database, DbError, DbView};
use crate::graph::ids_view;
use crate::models::{Issue, IssueView, Row};

verus! {

/// What `block` answers: both issues must exist; then what the store
/// answers to the dependency.
pub open spec fn block_result(v: DbView, issue_id: int, blocker_id: int) -> Result<
    bool,
    CommandError,
> {
    if !v.has_issue(issue_id) {
        Err(CommandError::Store(DbError::IssueNotFound(issue_id as i64)))
    } else if !v.has_issue(blocker_id) {
        Err(CommandError::Store(DbError::IssueNotFound(blocker_id as i64)))
    } else {
        lift(v.add_dependency_result(issue_id, blocker_id))
    }
}

/// Records that `blocker_id` blocks `issue_id`. Says `Ok(true)` where the
/// dependency is new and `Ok(false)` where it was there already.
pub fn block(db: &mut Database, issue_id: i64, blocker_id: i64) -> (r: Result<bool, CommandError>)
    requires
        old(db).wf(),
    ensures
        final(db).wf(),
        r == block_result(old(db)@, issue_id as int, blocker_id as int),
        final(db)@ == (if r == Ok::<bool, CommandError>(true) {
            old(db)@.add_dependency(issue_id as int, blocker_id as int)
        } else {
            old(db)@
        }),
{
    match db.require_issue(issue_id) {
        Ok(_) => {},
        Err(e) => {
            return Err(CommandError::Store(e));
        },
    }
    match db.require_issue(blocker_id) {
        Ok(_) => {},
        Err(e) => {
            return Err(CommandError::Store(e));
        },
    }
    if issue_id == blocker_id {
        return Err(CommandError::Store(DbError::SelfDependency));
    }
    match db.add_dependency(issue_id, blocker_id) {
        Ok(added) => Ok(added),
        Err(e) => Err(CommandError::Store(e)),
    }
}

/// Takes away the record that `blocker_id` blocks `issue_id` and says
/// whether there was one.
pub fn unblock(db: &mut Database, issue_id: i64, blocker_id: i64) -> (r: Result<
    bool,
    CommandError,
>)
    requires
        old(db).wf(),
    ensures
        final(db).wf(),
        r == Ok::<bool, CommandError>(
            old(db)@.dependencies.contains((blocker_id as int, issue_id as int)),
        ),
        final(db)@ == old(db)@.remove_dependency(issue_id as int, blocker_id as int),
{
    match db.remove_dependency(issue_id, blocker_id) {
        Ok(removed) => Ok(removed),
        Err(e) => Err(CommandError::Store(e)),
    }
}

/// A blocked issue with the issues that block it.
#[derive(Debug, Clone, PartialEq)]
pub struct BlockedIssue {
    pub issue: Issue,
    pub blockers: Vec<i64>,
}

/// The blocked issues, by rising number, each with all the issues that
/// block it, open or not.
pub fn list_blocked(db: &Database) -> (r: Result<Vec<BlockedIssue>, CommandError>)
    requires
        db.wf(),
    ensures
        r matches Ok(v) && v@.len() == db@.blocked_issues().len() && forall|i: int|
            0 <= i < v@.len() ==> (#[trigger] v@[i]).issue@ == db@.blocked_issues()[i] && ids_view(
                v@[i].blockers@,
            ) == db@.blockers(db@.blocked_issues()[i].id),
{
    let issues = match db.list_blocked_issues() {
        Ok(v) => v,
        Err(e) => {
            return Err(CommandError::Store(e));
        },
    };
    let ghost rows = rows_view(issues@);
    let mut out: Vec<BlockedIssue> = Vec::new();
    let mut i: usize = 0;
    while i < issues.len()
        invariant
            i <= issues@.len(),
            rows == rows_view(issues@),
            rows == db@.blocked_issues(),
            out@.len() == i,
            forall|k: int|
                0 <= k < i ==> (#[trigger] out@[k]).issue@ == rows[k] && ids_view(out@[k].blockers@)
                    == db@.blockers(rows[k].id),
        decreases issues@.len() - i,
    {
        let blockers = match db.get_blockers(issues[i].id) {
            Ok(b) => b,
            Err(e) => {
                return Err(CommandError::Store(e));
            },
        };
        assert(rows[i as int] == issues@[i as int]@);
        out.push(BlockedIssue { issue: issues[i].duplicate(), blockers });
        i += 1;
    }
    Ok(out)
}

/// The ready issues, by rising number.
pub fn list_ready(db: &Database) -> (r: Result<Vec<Issue>, CommandError>)
    requires
        db.wf(),
    ensures
        r matches Ok(v) && rows_view(v@) == db@.ready_issues(),
{
    match db.list_ready_issues() {
        Ok(v) => Ok(v),
        Err(e) => Err(CommandError::Store(e)),
    }
}

} // verus!
