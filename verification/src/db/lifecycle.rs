//! The life of an issue after it was created: edits, closing and reopening,
//! archiving and bringing back.

use vstd::prelude::*;

use crate::clock::{system_time, Timestamp};
use crate::db::issues::{lemma_issue_row, lemma_same_ids};
use crate::db::{
    issue_ids, lifecycle_ok, opt_str, status_archived, status_closed, status_open, Database,
    DbError, DbView,
};
use crate::models::{opt_id, IssueView};
use crate::text::text_eq;

verus! {

/// Rows that change while each keeps its number and a closing time that fits
/// its status keep the rules.
pub proof fn lemma_change_keeps_rules(v: DbView, w: DbView)
    requires
        v.wf(),
        w == (DbView { issues: w.issues, ..v }),
        w.issues.len() == v.issues.len(),
        forall|i: int|
            0 <= i < v.issues.len() ==> (#[trigger] w.issues[i]).id == v.issues[i].id
                && lifecycle_ok(w.issues[i]),
    ensures
        w.wf(),
        forall|id: int| w.has_issue(id) == v.has_issue(id),
{
    lemma_same_ids(v.issues, w.issues);
    assert forall|i: int, j: int| 0 <= i < j < w.issues.len() implies (#[trigger] w.issues[i]).id
        < (#[trigger] w.issues[j]).id by {
        assert(v.issues[i].id < v.issues[j].id);
    }
    assert forall|i: int| 0 <= i < w.issues.len() implies 1 <= (#[trigger] w.issues[i]).id
        <= w.last_issue_id by {
        assert(1 <= v.issues[i].id <= v.last_issue_id);
    }
}

/// A change to an issue that the store does not have changes nothing.
pub proof fn lemma_change_absent(v: DbView, id: int, change: spec_fn(IssueView) -> IssueView)
    requires
        !v.has_issue(id),
    ensures
        v.change_issue(id, change) == v,
{
    let ids = issue_ids(v.issues);
    assert forall|i: int| 0 <= i < v.issues.len() implies (#[trigger] v.issues[i]).id != id by {
        assert(ids[i] == v.issues[i].id);
    }
    assert(v.change_issue(id, change).issues =~= v.issues);
}

/// A change to the issue in row `i` changes that row and no other.
pub proof fn lemma_change_row(v: DbView, i: int, change: spec_fn(IssueView) -> IssueView)
    requires
        v.wf(),
        0 <= i < v.issues.len(),
    ensures
        v.change_issue(v.issues[i].id, change).issues == v.issues.update(i, change(v.issues[i])),
{
    let id = v.issues[i].id;
    let w = v.change_issue(id, change).issues;
    assert forall|j: int| 0 <= j < v.issues.len() && j != i implies (#[trigger] v.issues[j]).id
        != id by {
        if j < i {
            assert(v.issues[j].id < v.issues[i].id);
        } else {
            assert(v.issues[i].id < v.issues[j].id);
        }
    }
    assert(w =~= v.issues.update(i, change(v.issues[i])));
}

impl Database {
    /// Replaces the given fields of the issue `id`; a field given as `None`
    /// stays as it is. Says whether there is such an issue.
    pub fn update_issue(
        &mut self,
        id: i64,
        title: Option<&str>,
        description: Option<&str>,
        priority: Option<&str>,
    ) -> (r: Result<bool, DbError>)
        requires
            old(self).wf(),
        ensures
            final(self).wf(),
            r == Ok::<bool, DbError>(old(self)@.has_issue(id as int)),
            exists|now: Timestamp|
                final(self)@ == #[trigger] old(self)@.update_issue(
                    id as int,
                    opt_str(title),
                    opt_str(description),
                    opt_str(priority),
                    now,
                ),
    {
        let now = system_time();
        self.update_issue_at(id, title, description, priority, now)
    }

    /// `update_issue` at the time `now`: the issue's `updated_at` becomes
    /// `now` whatever fields are given.
    pub fn update_issue_at(
        &mut self,
        id: i64,
        title: Option<&str>,
        description: Option<&str>,
        priority: Option<&str>,
        now: Timestamp,
    ) -> (r: Result<bool, DbError>)
        requires
            old(self).wf(),
        ensures
            final(self).wf(),
            r == Ok::<bool, DbError>(old(self)@.has_issue(id as int)),
            final(self)@ == old(self)@.update_issue(
                id as int,
                opt_str(title),
                opt_str(description),
                opt_str(priority),
                now,
            ),
    {
        let ghost t = opt_str(title);
        let ghost d = opt_str(description);
        let ghost q = opt_str(priority);
        let ghost change = |r: IssueView|
            IssueView {
                title: if t is Some {
                    t->0
                } else {
                    r.title
                },
                description: if d is Some {
                    d
                } else {
                    r.description
                },
                priority: if q is Some {
                    q->0
                } else {
                    r.priority
                },
                updated_at: now,
                ..r
            };
        match self.issue_index(id) {
            Some(i) => {
                if let Some(x) = title {
                    self.issues[i].title = x.to_owned();
                }
                if let Some(x) = description {
                    self.issues[i].description = Some(x.to_owned());
                }
                if let Some(x) = priority {
                    self.issues[i].priority = x.to_owned();
                }
                self.issues[i].updated_at = now;
                proof {
                    lemma_change_row(old(self)@, i as int, change);
                    assert(self@.issues =~= old(self)@.issues.update(
                        i as int,
                        change(old(self)@.issues[i as int]),
                    ));
                    assert(old(self)@.update_issue(id as int, t, d, q, now).issues
                        =~= old(self)@.change_issue(id as int, change).issues);
                    lemma_change_keeps_rules(old(self)@, self@);
                }
                Ok(true)
            },
            None => {
                proof {
                    lemma_change_absent(old(self)@, id as int, change);
                    assert(old(self)@.update_issue(id as int, t, d, q, now).issues
                        =~= old(self)@.change_issue(id as int, change).issues);
                }
                Ok(false)
            },
        }
    }

    /// Closes the issue `id`, whatever its status, and says whether there is
    /// such an issue.
    pub fn close_issue(&mut self, id: i64) -> (r: Result<bool, DbError>)
        requires
            old(self).wf(),
        ensures
            final(self).wf(),
            r == Ok::<bool, DbError>(old(self)@.has_issue(id as int)),
            exists|now: Timestamp| final(self)@ == #[trigger] old(self)@.close_issue(id as int, now),
    {
        let now = system_time();
        self.close_issue_at(id, now)
    }

    /// `close_issue` at the time `now`: the status becomes closed, and `now`
    /// the time of closing and of the last change.
    pub fn close_issue_at(&mut self, id: i64, now: Timestamp) -> (r: Result<bool, DbError>)
        requires
            old(self).wf(),
        ensures
            final(self).wf(),
            r == Ok::<bool, DbError>(old(self)@.has_issue(id as int)),
            final(self)@ == old(self)@.close_issue(id as int, now),
    {
        let ghost change = |r: IssueView|
            IssueView { status: status_closed(), closed_at: Some(now), updated_at: now, ..r };
        match self.issue_index(id) {
            Some(i) => {
                self.issues[i].status = "closed".to_owned();
                self.issues[i].closed_at = Some(now);
                self.issues[i].updated_at = now;
                proof {
                    lemma_change_row(old(self)@, i as int, change);
                    assert(self@.issues =~= old(self)@.issues.update(
                        i as int,
                        change(old(self)@.issues[i as int]),
                    ));
                    assert(old(self)@.close_issue(id as int, now).issues
                        =~= old(self)@.change_issue(id as int, change).issues);
                    lemma_change_keeps_rules(old(self)@, self@);
                }
                Ok(true)
            },
            None => {
                proof {
                    lemma_change_absent(old(self)@, id as int, change);
                    assert(old(self)@.close_issue(id as int, now).issues
                        =~= old(self)@.change_issue(id as int, change).issues);
                }
                Ok(false)
            },
        }
    }

    /// Opens the issue `id` again, whatever its status, and says whether
    /// there is such an issue.
    pub fn reopen_issue(&mut self, id: i64) -> (r: Result<bool, DbError>)
        requires
            old(self).wf(),
        ensures
            final(self).wf(),
            r == Ok::<bool, DbError>(old(self)@.has_issue(id as int)),
            exists|now: Timestamp| final(self)@ == #[trigger] old(self)@.reopen_issue(id as int, now),
    {
        let now = system_time();
        self.reopen_issue_at(id, now)
    }

    /// `reopen_issue` at the time `now`: the status becomes open and the time
    /// of closing is cleared.
    pub fn reopen_issue_at(&mut self, id: i64, now: Timestamp) -> (r: Result<bool, DbError>)
        requires
            old(self).wf(),
        ensures
            final(self).wf(),
            r == Ok::<bool, DbError>(old(self)@.has_issue(id as int)),
            final(self)@ == old(self)@.reopen_issue(id as int, now),
    {
        let ghost change = |r: IssueView|
            IssueView { status: status_open(), closed_at: None, updated_at: now, ..r };
        match self.issue_index(id) {
            Some(i) => {
                self.issues[i].status = "open".to_owned();
                self.issues[i].closed_at = None;
                self.issues[i].updated_at = now;
                proof {
                    lemma_change_row(old(self)@, i as int, change);
                    assert(self@.issues =~= old(self)@.issues.update(
                        i as int,
                        change(old(self)@.issues[i as int]),
                    ));
                    assert(old(self)@.reopen_issue(id as int, now).issues
                        =~= old(self)@.change_issue(id as int, change).issues);
                    lemma_change_keeps_rules(old(self)@, self@);
                }
                Ok(true)
            },
            None => {
                proof {
                    lemma_change_absent(old(self)@, id as int, change);
                    assert(old(self)@.reopen_issue(id as int, now).issues
                        =~= old(self)@.change_issue(id as int, change).issues);
                }
                Ok(false)
            },
        }
    }

    /// Archives the issue `id` where it is closed, and says whether it did.
    /// An issue that is open or already archived stays as it is.
    pub fn archive_issue(&mut self, id: i64) -> (r: Result<bool, DbError>)
        requires
            old(self).wf(),
        ensures
            final(self).wf(),
            r == Ok::<bool, DbError>(old(self)@.has_status(id as int, status_closed())),
            exists|now: Timestamp|
                final(self)@ == #[trigger] old(self)@.archive_issue(id as int, now),
    {
        let now = system_time();
        self.archive_issue_at(id, now)
    }

    /// `archive_issue` at the time `now`.
    pub fn archive_issue_at(&mut self, id: i64, now: Timestamp) -> (r: Result<bool, DbError>)
        requires
            old(self).wf(),
        ensures
            final(self).wf(),
            r == Ok::<bool, DbError>(old(self)@.has_status(id as int, status_closed())),
            final(self)@ == old(self)@.archive_issue(id as int, now),
    {
        let ghost change = |r: IssueView|
            if r.status == status_closed() {
                IssueView { status: status_archived(), updated_at: now, ..r }
            } else {
                r
            };
        match self.issue_index(id) {
            Some(i) => {
                let from_closed = text_eq(self.issues[i].status.as_str(), "closed");
                if from_closed {
                    self.issues[i].status = "archived".to_owned();
                    self.issues[i].updated_at = now;
                }
                proof {
                    crate::db::lemma_statuses_differ();
                    lemma_change_row(old(self)@, i as int, change);
                    assert(self@.issues =~= old(self)@.issues.update(
                        i as int,
                        change(old(self)@.issues[i as int]),
                    ));
                    assert(old(self)@.archive_issue(id as int, now).issues
                        =~= old(self)@.change_issue(id as int, change).issues);
                    lemma_change_keeps_rules(old(self)@, self@);
                }
                Ok(from_closed)
            },
            None => {
                proof {
                    lemma_change_absent(old(self)@, id as int, change);
                    assert(old(self)@.archive_issue(id as int, now).issues
                        =~= old(self)@.change_issue(id as int, change).issues);
                }
                Ok(false)
            },
        }
    }

    /// Brings the issue `id` back to closed where it is archived, and says
    /// whether it did.
    pub fn unarchive_issue(&mut self, id: i64) -> (r: Result<bool, DbError>)
        requires
            old(self).wf(),
        ensures
            final(self).wf(),
            r == Ok::<bool, DbError>(old(self)@.has_status(id as int, status_archived())),
            exists|now: Timestamp|
                final(self)@ == #[trigger] old(self)@.unarchive_issue(id as int, now),
    {
        let now = system_time();
        self.unarchive_issue_at(id, now)
    }

    /// `unarchive_issue` at the time `now`.
    pub fn unarchive_issue_at(&mut self, id: i64, now: Timestamp) -> (r: Result<bool, DbError>)
        requires
            old(self).wf(),
        ensures
            final(self).wf(),
            r == Ok::<bool, DbError>(old(self)@.has_status(id as int, status_archived())),
            final(self)@ == old(self)@.unarchive_issue(id as int, now),
    {
        let ghost change = |r: IssueView|
            if r.status == status_archived() {
                IssueView { status: status_closed(), updated_at: now, ..r }
            } else {
                r
            };
        match self.issue_index(id) {
            Some(i) => {
                let from_archived = text_eq(self.issues[i].status.as_str(), "archived");
                if from_archived {
                    self.issues[i].status = "closed".to_owned();
                    self.issues[i].updated_at = now;
                }
                proof {
                    crate::db::lemma_statuses_differ();
                    lemma_change_row(old(self)@, i as int, change);
                    assert(self@.issues =~= old(self)@.issues.update(
                        i as int,
                        change(old(self)@.issues[i as int]),
                    ));
                    assert(old(self)@.unarchive_issue(id as int, now).issues
                        =~= old(self)@.change_issue(id as int, change).issues);
                    lemma_change_keeps_rules(old(self)@, self@);
                }
                Ok(from_archived)
            },
            None => {
                proof {
                    lemma_change_absent(old(self)@, id as int, change);
                    assert(old(self)@.unarchive_issue(id as int, now).issues
                        =~= old(self)@.change_issue(id as int, change).issues);
                }
                Ok(false)
            },
        }
    }

    /// Puts the issue `id` under `parent_id`, or under none, and says whether
    /// there is such an issue. Whether the parent exists is not looked at.
    pub fn update_parent(&mut self, id: i64, parent_id: Option<i64>) -> (r: Result<bool, DbError>)
        requires
            old(self).wf(),
        ensures
            final(self).wf(),
            r == Ok::<bool, DbError>(old(self)@.has_issue(id as int)),
            exists|now: Timestamp|
                final(self)@ == #[trigger] old(self)@.update_parent(
                    id as int,
                    opt_id(parent_id),
                    now,
                ),
    {
        let now = system_time();
        self.update_parent_at(id, parent_id, now)
    }

    /// `update_parent` at the time `now`.
    pub fn update_parent_at(&mut self, id: i64, parent_id: Option<i64>, now: Timestamp) -> (r:
        Result<bool, DbError>)
        requires
            old(self).wf(),
        ensures
            final(self).wf(),
            r == Ok::<bool, DbError>(old(self)@.has_issue(id as int)),
            final(self)@ == old(self)@.update_parent(id as int, opt_id(parent_id), now),
    {
        let ghost parent = opt_id(parent_id);
        let ghost change = |r: IssueView| IssueView { parent_id: parent, updated_at: now, ..r };
        match self.issue_index(id) {
            Some(i) => {
                self.issues[i].parent_id = parent_id;
                self.issues[i].updated_at = now;
                proof {
                    lemma_change_row(old(self)@, i as int, change);
                    assert(self@.issues =~= old(self)@.issues.update(
                        i as int,
                        change(old(self)@.issues[i as int]),
                    ));
                    assert(old(self)@.update_parent(id as int, parent, now).issues
                        =~= old(self)@.change_issue(id as int, change).issues);
                    lemma_change_keeps_rules(old(self)@, self@);
                }
                Ok(true)
            },
            None => {
                proof {
                    lemma_change_absent(old(self)@, id as int, change);
                    assert(old(self)@.update_parent(id as int, parent, now).issues
                        =~= old(self)@.change_issue(id as int, change).issues);
                }
                Ok(false)
            },
        }
    }

    /// Archives every issue that was closed more than `days` days ago and
    /// says how many there were, as a 32-bit number.
    pub fn archive_older_than(&mut self, days: i64) -> (r: Result<i32, DbError>)
        requires
            old(self).wf(),
        ensures
            final(self).wf(),
            exists|now: Timestamp|
                #![trigger old(self)@.archive_older_than(days as int, now)]
                final(self)@ == old(self)@.archive_older_than(days as int, now) && r == Ok::<
                    i32,
                    DbError,
                >(old(self)@.count_stale(days as int, now) as usize as i32),
    {
        let now = system_time();
        self.archive_older_than_at(days, now)
    }

    /// `archive_older_than` at the time `now`: an issue is archived where it
    /// is closed and its closing lies more than `days` days before `now`.
    pub fn archive_older_than_at(&mut self, days: i64, now: Timestamp) -> (r: Result<i32, DbError>)
        requires
            old(self).wf(),
        ensures
            final(self).wf(),
            final(self)@ == old(self)@.archive_older_than(days as int, now),
            r == Ok::<i32, DbError>(old(self)@.count_stale(days as int, now) as usize as i32),
    {
        let ghost before = old(self)@;
        let ghost after = before.archive_older_than(days as int, now);
        let ghost p = |r: IssueView| DbView::is_stale(r, days as int, now);
        let n: usize = self.issues.len();
        let mut count: usize = 0;
        assert(before.issues.subrange(0, 0).filter(p).len() == 0) by {
            reveal(Seq::filter);
        }
        let mut i: usize = 0;
        while i < n
            invariant
                i <= n == self.issues@.len(),
                n == before.issues.len(),
                before.wf(),
                self@ == (DbView { issues: self@.issues, ..before }),
                after == before.archive_older_than(days as int, now),
                p == |r: IssueView| DbView::is_stale(r, days as int, now),
                count <= i,
                count == before.issues.subrange(0, i as int).filter(p).len(),
                forall|j: int| 0 <= j < i ==> #[trigger] self@.issues[j] == after.issues[j],
                forall|j: int| i <= j < n ==> #[trigger] self@.issues[j] == before.issues[j],
            decreases n - i,
        {
            let ghost prev = self@.issues;
            assert(prev[i as int] == before.issues[i as int]);
            let stale = text_eq(self.issues[i].status.as_str(), "closed") && match self.issues[i].closed_at {
                Some(t) => t.is_older_than(&now, days),
                None => false,
            };
            proof {
                let done = before.issues.subrange(0, i as int);
                assert(before.issues.subrange(0, i + 1) =~= done.push(before.issues[i as int]));
                done.lemma_filter_push(before.issues[i as int], p);
                assert(stale == p(before.issues[i as int]));
            }
            if stale {
                self.issues[i].status = "archived".to_owned();
                self.issues[i].updated_at = now;
                count += 1;
                assert(self@.issues[i as int] == after.issues[i as int]);
                assert(self@.issues =~= prev.update(i as int, after.issues[i as int]));
            } else {
                assert(self@.issues[i as int] == after.issues[i as int]);
            }
            assert forall|j: int| 0 <= j < i + 1 implies #[trigger] self@.issues[j]
                == after.issues[j] by {
                if j < i {
                    assert(prev[j] == after.issues[j]);
                }
            }
            assert forall|j: int| i + 1 <= j < n implies #[trigger] self@.issues[j]
                == before.issues[j] by {
                assert(prev[j] == before.issues[j]);
            }
            i += 1;
        }
        proof {
            assert(before.issues.subrange(0, n as int) =~= before.issues);
            assert(self@.issues =~= after.issues);
            assert forall|k: int| 0 <= k < before.issues.len() implies (
            #[trigger] after.issues[k]).id == before.issues[k].id && lifecycle_ok(after.issues[k]) by {
                assert(lifecycle_ok(before.issues[k]));
            }
            lemma_change_keeps_rules(before, self@);
        }
        Ok(#[verifier::truncate] (count as i32))
    }
}

} // verus!
