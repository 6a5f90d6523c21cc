//! Comments: the log of remarks on an issue, in the order in which they were
//! made.

use vstd::prelude::*;

use crate::clock::{system_time, Timestamp};
use crate::db::issues::keep_if;
use crate::db::{issue_ids, rows_view, Database, DbError, DbView};
use crate::models::{Comment, CommentView};

verus! {

impl DbView {
    /// What `add_comment` answers: the number of the new comment, or why
    /// there is none.
    pub open spec fn add_comment_result(self, issue_id: int) -> Result<int, DbError> {
        if self.last_comment_id >= i64::MAX {
            Err(DbError::Full)
        } else if !self.has_issue(issue_id) {
            Err(DbError::ForeignKey)
        } else {
            Ok(self.last_comment_id + 1)
        }
    }

    /// The store after `add_comment` at the time `now`.
    pub open spec fn add_comment(self, issue_id: int, content: Seq<char>, now: Timestamp) -> DbView {
        if self.add_comment_result(issue_id) is Ok {
            DbView {
                comments: self.comments.push(
                    CommentView {
                        id: self.last_comment_id + 1,
                        issue_id,
                        content,
                        created_at: now,
                    },
                ),
                last_comment_id: self.last_comment_id + 1,
                ..self
            }
        } else {
            self
        }
    }

    /// The comments on the issue `issue_id`, in the order in which they were
    /// made.
    pub open spec fn comments_of(self, issue_id: int) -> Seq<CommentView> {
        self.comments.filter(|c: CommentView| c.issue_id == issue_id)
    }
}

/// The answer of `add_comment` with the number as the machine holds it.
pub open spec fn as_row_number(r: Result<i64, DbError>) -> Result<int, DbError> {
    match r {
        Ok(n) => Ok(n as int),
        Err(e) => Err(e),
    }
}

impl Database {
    /// Adds a comment to the issue `issue_id` and hands back its number.
    pub fn add_comment(&mut self, issue_id: i64, content: &str) -> (r: Result<i64, DbError>)
        requires
            old(self).wf(),
        ensures
            final(self).wf(),
            as_row_number(r) == old(self)@.add_comment_result(issue_id as int),
            exists|now: Timestamp|
                final(self)@ == #[trigger] old(self)@.add_comment(issue_id as int, content@, now),
    {
        let now = system_time();
        self.add_comment_at(issue_id, content, now)
    }

    /// `add_comment` at the time `now`.
    pub fn add_comment_at(&mut self, issue_id: i64, content: &str, now: Timestamp) -> (r: Result<
        i64,
        DbError,
    >)
        requires
            old(self).wf(),
        ensures
            final(self).wf(),
            as_row_number(r) == old(self)@.add_comment_result(issue_id as int),
            final(self)@ == old(self)@.add_comment(issue_id as int, content@, now),
    {
        if self.last_comment_id == i64::MAX {
            return Err(DbError::Full);
        }
        if self.issue_index(issue_id).is_none() {
            return Err(DbError::ForeignKey);
        }
        let id: i64 = self.last_comment_id + 1;
        self.comments.push(Comment { id, issue_id, content: content.to_owned(), created_at: now });
        self.last_comment_id = id;
        proof {
            let before = old(self)@;
            let row = CommentView {
                id: id as int,
                issue_id: issue_id as int,
                content: content@,
                created_at: now,
            };
            assert(self@.comments =~= before.comments.push(row));
            assert forall|i: int, j: int| 0 <= i < j < self@.comments.len() implies (
            #[trigger] self@.comments[i]).id < (#[trigger] self@.comments[j]).id by {
                assert(self@.comments[i] == before.comments[i]);
                if j < before.comments.len() {
                    assert(self@.comments[j] == before.comments[j]);
                }
            }
        }
        Ok(id)
    }

    /// The comments on the issue `issue_id`, in the order in which they were
    /// made.
    pub fn get_comments(&self, issue_id: i64) -> (r: Result<Vec<Comment>, DbError>)
        ensures
            r matches Ok(v) && rows_view(v@) == self@.comments_of(issue_id as int),
    {
        let ghost all = self@.comments;
        let ghost p = |c: CommentView| c.issue_id == issue_id as int;
        let mut out: Vec<Comment> = Vec::new();
        assert(rows_view(out@) =~= all.subrange(0, 0).filter(p)) by {
            reveal(Seq::filter);
        }
        let mut i: usize = 0;
        while i < self.comments.len()
            invariant
                i <= self.comments@.len(),
                all == self@.comments,
                p == |c: CommentView| c.issue_id == issue_id as int,
                rows_view(out@) == all.subrange(0, i as int).filter(p),
            decreases self.comments@.len() - i,
        {
            let row = &self.comments[i];
            let keep = row.issue_id == issue_id;
            assert(all.subrange(0, i + 1) =~= all.subrange(0, i as int).push(row@));
            keep_if(&mut out, row, keep, Ghost(all.subrange(0, i as int)), Ghost(p));
            i += 1;
        }
        assert(all.subrange(0, i as int) =~= all);
        Ok(out)
    }
}

} // verus!
