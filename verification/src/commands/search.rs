//! Searching issues.

use vstd::prelude::*;

use crate::commands::CommandError;
use crate::db::{rows_view, Database};
use crate::models::Issue;

verus! {

/// The issues whose title, description or comments hold `query`, by falling
/// number.
pub fn run(db: &Database, query: &str) -> (r: Result<Vec<Issue>, CommandError>)
    ensures
        r matches Ok(v) && rows_view(v@) == db@.search_issues(query@),
{
    match db.search_issues(query) {
        Ok(v) => Ok(v),
        Err(e) => Err(CommandError::Store(e)),
    }
}

} // verus!
