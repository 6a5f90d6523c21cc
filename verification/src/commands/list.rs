//! Listing issues.

use vstd::prelude::*;

use crate::commands::CommandError;
use crate::db::{opt_str, rows_view, Database};
use crate::models::Issue;

verus! {

/// The issues that pass the filters, by falling number. A filter that is
/// `None` lets every issue through, and so does the status `all`.
pub fn run(db: &Database, status: Option<&str>, label: Option<&str>, priority: Option<&str>) -> (r:
    Result<Vec<Issue>, CommandError>)
    requires
        db.wf(),
    ensures
        r matches Ok(v) && rows_view(v@) == db@.list_issues(
            opt_str(status),
            opt_str(label),
            opt_str(priority),
        ),
{
    match db.list_issues(status, label, priority) {
        Ok(v) => Ok(v),
        Err(e) => Err(CommandError::Store(e)),
    }
}

} // verus!
