//! Steps that take effect together or not at all.

use vstd::prelude::*;

use crate::db::{rows_view, Database, DbView};
use crate::graph::edges_view;
use crate::models::Row;

verus! {

pub(crate) fn copy_rows<T: Row>(rows: &Vec<T>) -> (out: Vec<T>)
    ensures
        rows_view(out@) == rows_view(rows@),
{
    let mut out: Vec<T> = Vec::new();
    let mut i: usize = 0;
    while i < rows.len()
        invariant
            i <= rows@.len(),
            rows_view(out@) =~= rows_view(rows@).subrange(0, i as int),
        decreases rows@.len() - i,
    {
        let ghost before = out@;
        let copy = rows[i].duplicate();
        out.push(copy);
        assert(rows_view(out@) =~= rows_view(before).push(copy@));
        assert(rows_view(rows@)[i as int] == rows@[i as int]@);
        i += 1;
    }
    assert(rows_view(rows@).subrange(0, i as int) =~= rows_view(rows@));
    out
}

pub(crate) fn copy_pairs(rows: &Vec<(i64, i64)>) -> (out: Vec<(i64, i64)>)
    ensures
        out@ == rows@,
{
    let mut out: Vec<(i64, i64)> = Vec::new();
    let mut i: usize = 0;
    while i < rows.len()
        invariant
            i <= rows@.len(),
            out@ =~= rows@.subrange(0, i as int),
        decreases rows@.len() - i,
    {
        out.push(rows[i]);
        i += 1;
    }
    assert(rows@.subrange(0, i as int) =~= rows@);
    out
}

impl Database {
    /// A second store that holds what this one holds.
    pub fn duplicate(&self) -> (db: Database)
        ensures
            db@ == self@,
    {
        Database {
            issues: copy_rows(&self.issues),
            last_issue_id: self.last_issue_id,
            labels: copy_rows(&self.labels),
            dependencies: copy_pairs(&self.dependencies),
            comments: copy_rows(&self.comments),
            last_comment_id: self.last_comment_id,
            sessions: copy_rows(&self.sessions),
            last_session_id: self.last_session_id,
            time_entries: copy_rows(&self.time_entries),
            last_time_entry_id: self.last_time_entry_id,
            relations: copy_rows(&self.relations),
            milestones: copy_rows(&self.milestones),
            last_milestone_id: self.last_milestone_id,
            memberships: copy_pairs(&self.memberships),
        }
    }

    /// Runs `body` on the store as one step: where `body` succeeds the store
    /// is as `body` left it, and where `body` fails the store is as it was
    /// before, and the error is handed on unchanged. `body` gets the store
    /// and hands it back with its result.
    pub fn transaction<T, E, F>(&mut self, body: F) -> (r: Result<T, E>) where
        F: FnOnce(Database) -> (Database, Result<T, E>),

        requires
            old(self).wf(),
            forall|d: Database| d@ == old(self)@ ==> #[trigger] body.requires((d,)),
            forall|d: Database, out: (Database, Result<T, E>)|
                d@ == old(self)@ && #[trigger] body.ensures((d,), out) ==> out.0.wf(),
        ensures
            final(self).wf(),
            exists|d: Database, out: (Database, Result<T, E>)|
                d@ == old(self)@ && #[trigger] body.ensures((d,), out) && r == out.1
                    && final(self)@ == (if r is Ok {
                    out.0@
                } else {
                    old(self)@
                }),
    {
        let work = self.duplicate();
        let (after, result) = body(work);
        match result {
            Ok(value) => {
                *self = after;
                Ok(value)
            },
            Err(e) => Err(e),
        }
    }
}

} // verus!
