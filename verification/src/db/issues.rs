//! Issues: creating, reading, changing and listing them.

use vstd::prelude::*;

use crate::clock::{system_time, Timestamp};
use crate::db::{
    issue_ids, lifecycle_ok, opt_row, opt_str, own_opt_str, rows_view, status_archived,
    status_closed, status_open, Database, DbError, DbView,
};
use crate::models::{opt_id, Issue, IssueView, LabelView, Row};
use crate::text::{opt_text, text_eq};

verus! {

impl DbView {
    /// Whether the issues table can still give out a number.
    pub open spec fn can_create_issue(self) -> bool {
        self.last_issue_id < i64::MAX
    }

    /// The store with one more issue, open, created at `now`.
    pub open spec fn create_issue(
        self,
        title: Seq<char>,
        description: Option<Seq<char>>,
        priority: Seq<char>,
        parent_id: Option<int>,
        now: Timestamp,
    ) -> DbView {
        DbView {
            issues: self.issues.push(
                IssueView {
                    id: self.last_issue_id + 1,
                    title,
                    description,
                    status: status_open(),
                    priority,
                    parent_id,
                    created_at: now,
                    updated_at: now,
                    closed_at: None,
                },
            ),
            last_issue_id: self.last_issue_id + 1,
            ..self
        }
    }

    /// The store with `change` applied to the issue `id`, if there is one.
    pub open spec fn change_issue(self, id: int, change: spec_fn(IssueView) -> IssueView) -> DbView {
        DbView {
            issues: self.issues.map_values(
                |r: IssueView|
                    if r.id == id {
                        change(r)
                    } else {
                        r
                    },
            ),
            ..self
        }
    }

    /// The store after the given fields of the issue `id` were replaced; a
    /// field given as `None` stays as it is.
    pub open spec fn update_issue(
        self,
        id: int,
        title: Option<Seq<char>>,
        description: Option<Seq<char>>,
        priority: Option<Seq<char>>,
        now: Timestamp,
    ) -> DbView {
        self.change_issue(
            id,
            |r: IssueView|
                IssueView {
                    title: if title is Some {
                        title->0
                    } else {
                        r.title
                    },
                    description: if description is Some {
                        description
                    } else {
                        r.description
                    },
                    priority: if priority is Some {
                        priority->0
                    } else {
                        r.priority
                    },
                    updated_at: now,
                    ..r
                },
        )
    }

    /// The store after the issue `id` was closed at `now`.
    pub open spec fn close_issue(self, id: int, now: Timestamp) -> DbView {
        self.change_issue(
            id,
            |r: IssueView|
                IssueView { status: status_closed(), closed_at: Some(now), updated_at: now, ..r },
        )
    }

    /// The store after the issue `id` was opened again at `now`.
    pub open spec fn reopen_issue(self, id: int, now: Timestamp) -> DbView {
        self.change_issue(
            id,
            |r: IssueView| IssueView { status: status_open(), closed_at: None, updated_at: now, ..r },
        )
    }

    /// Whether the issue `id` exists and has the status `status`.
    pub open spec fn has_status(self, id: int, status: Seq<char>) -> bool {
        self.find_issue(id) matches Some(r) && r.status == status
    }

    /// The store after the issue `id`, if closed, was archived at `now`.
    pub open spec fn archive_issue(self, id: int, now: Timestamp) -> DbView {
        self.change_issue(
            id,
            |r: IssueView|
                if r.status == status_closed() {
                    IssueView { status: status_archived(), updated_at: now, ..r }
                } else {
                    r
                },
        )
    }

    /// The store after the issue `id`, if archived, was brought back to
    /// closed at `now`.
    pub open spec fn unarchive_issue(self, id: int, now: Timestamp) -> DbView {
        self.change_issue(
            id,
            |r: IssueView|
                if r.status == status_archived() {
                    IssueView { status: status_closed(), updated_at: now, ..r }
                } else {
                    r
                },
        )
    }

    /// The store after the issue `id` was put under `parent`, or under none.
    pub open spec fn update_parent(self, id: int, parent: Option<int>, now: Timestamp) -> DbView {
        self.change_issue(id, |r: IssueView| IssueView { parent_id: parent, updated_at: now, ..r })
    }

    /// Whether `r` is closed and was closed more than `days` days before
    /// `now`.
    pub open spec fn is_stale(r: IssueView, days: int, now: Timestamp) -> bool {
        &&& r.status == status_closed()
        &&& r.closed_at is Some
        &&& r.closed_at->0.older_than(now, days)
    }

    /// The store after every issue closed more than `days` days before `now`
    /// was archived.
    pub open spec fn archive_older_than(self, days: int, now: Timestamp) -> DbView {
        DbView {
            issues: self.issues.map_values(
                |r: IssueView|
                    if Self::is_stale(r, days, now) {
                        IssueView { status: status_archived(), updated_at: now, ..r }
                    } else {
                        r
                    },
            ),
            ..self
        }
    }

    /// How many issues were closed more than `days` days before `now`.
    pub open spec fn count_stale(self, days: int, now: Timestamp) -> nat {
        self.issues.filter(|r: IssueView| Self::is_stale(r, days, now)).len()
    }

    /// The subissues of `parent`, by rising number.
    pub open spec fn subissues(self, parent: int) -> Seq<IssueView> {
        self.issues.filter(|r: IssueView| r.parent_id == Some(parent))
    }

    /// Whether the issue `id` carries `label`.
    pub open spec fn has_label(self, id: int, label: Seq<char>) -> bool {
        self.labels.contains(LabelView { issue_id: id, label })
    }

    /// Whether a listing with these filters shows `r`. A filter that is
    /// `None` lets every issue through, and so does the status `all`.
    pub open spec fn is_listed(
        self,
        r: IssueView,
        status: Option<Seq<char>>,
        label: Option<Seq<char>>,
        priority: Option<Seq<char>>,
    ) -> bool {
        &&& status matches Some(s) ==> s == "all"@ || r.status == s
        &&& label matches Some(l) ==> self.has_label(r.id, l)
        &&& priority matches Some(p) ==> r.priority == p
    }

    /// The issues that a listing with these filters shows, by falling number.
    pub open spec fn list_issues(
        self,
        status: Option<Seq<char>>,
        label: Option<Seq<char>>,
        priority: Option<Seq<char>>,
    ) -> Seq<IssueView> {
        self.issues.reverse().filter(|r: IssueView| self.is_listed(r, status, label, priority))
    }

    /// The archived issues, by falling number.
    pub open spec fn archived_issues(self) -> Seq<IssueView> {
        self.issues.reverse().filter(|r: IssueView| r.status == status_archived())
    }
}

/// In a store that keeps its rules, the row at `i` is the issue with its
/// number.
pub proof fn lemma_issue_at(v: DbView, i: int)
    requires
        v.wf(),
        0 <= i < v.issues.len(),
    ensures
        v.has_issue(v.issues[i].id),
        v.find_issue(v.issues[i].id) == Some(v.issues[i]),
{
    let ids = issue_ids(v.issues);
    assert(ids[i] == v.issues[i].id);
    let j = ids.index_of(v.issues[i].id);
    assert(ids[j] == v.issues[j].id);
}

/// An issue that the store has stands in some row.
pub proof fn lemma_issue_row(v: DbView, id: int) -> (i: int)
    requires
        v.has_issue(id),
    ensures
        0 <= i < v.issues.len(),
        v.issues[i].id == id,
{
    let ids = issue_ids(v.issues);
    let i = choose|i: int| 0 <= i < ids.len() && ids[i] == id;
    i
}

/// Changing rows without changing their numbers leaves the numbers as they
/// were.
pub proof fn lemma_same_ids(a: Seq<IssueView>, b: Seq<IssueView>)
    requires
        a.len() == b.len(),
        forall|i: int| 0 <= i < a.len() ==> (#[trigger] a[i]).id == (#[trigger] b[i]).id,
    ensures
        issue_ids(a) == issue_ids(b),
{
    assert(issue_ids(a) =~= issue_ids(b));
}

/// Puts a copy of `row` at the end of `out` where `keep` says so.
pub(crate) fn keep_if<T: Row>(
    out: &mut Vec<T>,
    row: &T,
    keep: bool,
    Ghost(done): Ghost<Seq<T::V>>,
    Ghost(p): Ghost<spec_fn(T::V) -> bool>,
)
    requires
        keep == p(row@),
        rows_view(old(out)@) == done.filter(p),
    ensures
        rows_view(final(out)@) == done.push(row@).filter(p),
{
    proof {
        done.lemma_filter_push(row@, p);
    }
    if keep {
        out.push(row.duplicate());
        assert(rows_view(out@) =~= rows_view(old(out)@).push(row@));
    }
}

impl Database {
    /// The row of the issue `id`, if there is one.
    pub(crate) fn issue_index(&self, id: i64) -> (r: Option<usize>)
        requires
            self.wf(),
        ensures
            match r {
                Some(i) => i < self@.issues.len() && self@.issues[i as int].id == id
                    && self@.find_issue(id as int) == Some(self@.issues[i as int]),
                None => !self@.has_issue(id as int),
            },
    {
        let mut i: usize = 0;
        while i < self.issues.len()
            invariant
                self.wf(),
                i <= self.issues@.len(),
                forall|k: int| 0 <= k < i ==> self.issues@[k].id != id,
            decreases self.issues@.len() - i,
        {
            if self.issues[i].id == id {
                proof {
                    lemma_issue_at(self@, i as int);
                }
                return Some(i);
            }
            i += 1;
        }
        proof {
            if self@.has_issue(id as int) {
                let k = lemma_issue_row(self@, id as int);
                assert(self.issues@[k].id == id);
            }
        }
        None
    }

    /// The number that the next issue will get, or `None` where the table
    /// has given out its last number.
    pub fn next_issue_number(&self) -> (r: Option<i64>)
        requires
            self.wf(),
        ensures
            match r {
                Some(n) => self@.can_create_issue() && n == self@.last_issue_id + 1,
                None => !self@.can_create_issue(),
            },
    {
        if self.last_issue_id == i64::MAX {
            None
        } else {
            Some(self.last_issue_id + 1)
        }
    }

    /// Creates an open issue without a parent and hands back its number.
    pub fn create_issue(&mut self, title: &str, description: Option<&str>, priority: &str) -> (r:
        Result<i64, DbError>)
        requires
            old(self).wf(),
        ensures
            final(self).wf(),
            match r {
                Ok(id) => old(self)@.can_create_issue() && id == old(self)@.last_issue_id + 1
                    && exists|now: Timestamp|
                    final(self)@ == #[trigger] old(self)@.create_issue(
                        title@,
                        opt_str(description),
                        priority@,
                        None,
                        now,
                    ),
                Err(e) => e == DbError::Full && !old(self)@.can_create_issue() && final(self)@
                    == old(self)@,
            },
    {
        let now = system_time();
        self.create_issue_at(title, description, priority, None, now)
    }

    /// Creates an open issue under `parent_id` and hands back its number.
    /// Whether the parent exists is not looked at.
    pub fn create_subissue(
        &mut self,
        parent_id: i64,
        title: &str,
        description: Option<&str>,
        priority: &str,
    ) -> (r: Result<i64, DbError>)
        requires
            old(self).wf(),
        ensures
            final(self).wf(),
            match r {
                Ok(id) => old(self)@.can_create_issue() && id == old(self)@.last_issue_id + 1
                    && exists|now: Timestamp|
                    final(self)@ == #[trigger] old(self)@.create_issue(
                        title@,
                        opt_str(description),
                        priority@,
                        Some(parent_id as int),
                        now,
                    ),
                Err(e) => e == DbError::Full && !old(self)@.can_create_issue() && final(self)@
                    == old(self)@,
            },
    {
        let now = system_time();
        self.create_issue_at(title, description, priority, Some(parent_id), now)
    }

    /// Creates an open issue at the time `now` and hands back its number: one
    /// more than the largest that the table has given out.
    pub fn create_issue_at(
        &mut self,
        title: &str,
        description: Option<&str>,
        priority: &str,
        parent_id: Option<i64>,
        now: Timestamp,
    ) -> (r: Result<i64, DbError>)
        requires
            old(self).wf(),
        ensures
            final(self).wf(),
            match r {
                Ok(id) => old(self)@.can_create_issue() && id == old(self)@.last_issue_id + 1
                    && final(self)@ == old(self)@.create_issue(
                    title@,
                    opt_str(description),
                    priority@,
                    opt_id(parent_id),
                    now,
                ),
                Err(e) => e == DbError::Full && !old(self)@.can_create_issue() && final(self)@
                    == old(self)@,
            },
    {
        if self.last_issue_id == i64::MAX {
            return Err(DbError::Full);
        }
        let id: i64 = self.last_issue_id + 1;
        let row = Issue {
            id,
            title: title.to_owned(),
            description: own_opt_str(description),
            status: "open".to_owned(),
            priority: priority.to_owned(),
            parent_id,
            created_at: now,
            updated_at: now,
            closed_at: None,
        };
        self.issues.push(row);
        self.last_issue_id = id;
        proof {
            let before = old(self)@;
            let after = before.create_issue(
                title@,
                opt_str(description),
                priority@,
                opt_id(parent_id),
                now,
            );
            assert(self@.issues =~= after.issues);
            assert(self@ == after);
            lemma_push_issue_keeps_rules(before, after.issues[after.issues.len() - 1]);
        }
        Ok(id)
    }

    /// The issue `id`, or `None` where there is none.
    pub fn get_issue(&self, id: i64) -> (r: Result<Option<Issue>, DbError>)
        requires
            self.wf(),
        ensures
            r matches Ok(o) && opt_row(o) == self@.find_issue(id as int),
    {
        match self.issue_index(id) {
            Some(i) => Ok(Some(self.issues[i].duplicate())),
            None => Ok(None),
        }
    }

    /// The issue `id`, or an error where there is none.
    pub fn require_issue(&self, id: i64) -> (r: Result<Issue, DbError>)
        requires
            self.wf(),
        ensures
            match r {
                Ok(issue) => self@.find_issue(id as int) == Some(issue@),
                Err(e) => e == DbError::IssueNotFound(id) && !self@.has_issue(id as int),
            },
    {
        match self.issue_index(id) {
            Some(i) => Ok(self.issues[i].duplicate()),
            None => Err(DbError::IssueNotFound(id)),
        }
    }

    /// The subissues of `parent_id`, by rising number.
    pub fn get_subissues(&self, parent_id: i64) -> (r: Result<Vec<Issue>, DbError>)
        requires
            self.wf(),
        ensures
            r matches Ok(v) && rows_view(v@) == self@.subissues(parent_id as int),
    {
        let ghost all = self@.issues;
        let ghost p = |r: IssueView| r.parent_id == Some(parent_id as int);
        let mut out: Vec<Issue> = Vec::new();
        assert(rows_view(out@) =~= all.subrange(0, 0).filter(p)) by {
            reveal(Seq::filter);
        }
        let mut i: usize = 0;
        while i < self.issues.len()
            invariant
                i <= self.issues@.len(),
                all == self@.issues,
                p == |r: IssueView| r.parent_id == Some(parent_id as int),
                rows_view(out@) == all.subrange(0, i as int).filter(p),
            decreases self.issues@.len() - i,
        {
            let row = &self.issues[i];
            let keep = match row.parent_id {
                Some(x) => x == parent_id,
                None => false,
            };
            assert(all.subrange(0, i + 1) =~= all.subrange(0, i as int).push(row@));
            keep_if(&mut out, row, keep, Ghost(all.subrange(0, i as int)), Ghost(p));
            i += 1;
        }
        assert(all.subrange(0, i as int) =~= all);
        Ok(out)
    }

    /// Whether the issue `id` carries `label`.
    pub(crate) fn issue_has_label(&self, id: i64, label: &str) -> (r: bool)
        ensures
            r == self@.has_label(id as int, label@),
    {
        let ghost want = LabelView { issue_id: id as int, label: label@ };
        let mut i: usize = 0;
        while i < self.labels.len()
            invariant
                i <= self.labels@.len(),
                want == (LabelView { issue_id: id as int, label: label@ }),
                forall|k: int| 0 <= k < i ==> self@.labels[k] != want,
            decreases self.labels@.len() - i,
        {
            if self.labels[i].issue_id == id && text_eq(self.labels[i].label.as_str(), label) {
                assert(self@.labels[i as int] == want);
                return true;
            }
            i += 1;
        }
        false
    }

    /// The issues that pass the filters, by falling number. A filter that is
    /// `None` lets every issue through, and so does the status `all`.
    pub fn list_issues(
        &self,
        status_filter: Option<&str>,
        label_filter: Option<&str>,
        priority_filter: Option<&str>,
    ) -> (r: Result<Vec<Issue>, DbError>)
        requires
            self.wf(),
        ensures
            r matches Ok(v) && rows_view(v@) == self@.list_issues(
                opt_str(status_filter),
                opt_str(label_filter),
                opt_str(priority_filter),
            ),
    {
        let ghost db = self@;
        let ghost rev = self@.issues.reverse();
        let ghost status = opt_str(status_filter);
        let ghost label = opt_str(label_filter);
        let ghost priority = opt_str(priority_filter);
        let ghost p = |r: IssueView| db.is_listed(r, status, label, priority);
        let n: usize = self.issues.len();
        let mut out: Vec<Issue> = Vec::new();
        assert(rows_view(out@) =~= rev.subrange(0, 0).filter(p)) by {
            reveal(Seq::filter);
        }
        let mut j: usize = 0;
        while j < n
            invariant
                j <= n == self.issues@.len(),
                db == self@,
                rev == self@.issues.reverse(),
                status == opt_str(status_filter),
                label == opt_str(label_filter),
                priority == opt_str(priority_filter),
                p == |r: IssueView| db.is_listed(r, status, label, priority),
                rows_view(out@) == rev.subrange(0, j as int).filter(p),
            decreases n - j,
        {
            let row = &self.issues[n - 1 - j];
            let status_ok = match status_filter {
                Some(s) => text_eq(s, "all") || text_eq(row.status.as_str(), s),
                None => true,
            };
            let label_ok = match label_filter {
                Some(l) => self.issue_has_label(row.id, l),
                None => true,
            };
            let priority_ok = match priority_filter {
                Some(q) => text_eq(row.priority.as_str(), q),
                None => true,
            };
            let keep = status_ok && label_ok && priority_ok;
            assert(rev[j as int] == row@);
            assert(rev.subrange(0, j + 1) =~= rev.subrange(0, j as int).push(row@));
            keep_if(&mut out, row, keep, Ghost(rev.subrange(0, j as int)), Ghost(p));
            j += 1;
        }
        assert(rev.subrange(0, j as int) =~= rev);
        Ok(out)
    }

    /// The archived issues, by falling number.
    pub fn list_archived_issues(&self) -> (r: Result<Vec<Issue>, DbError>)
        requires
            self.wf(),
        ensures
            r matches Ok(v) && rows_view(v@) == self@.archived_issues(),
    {
        let ghost rev = self@.issues.reverse();
        let ghost p = |r: IssueView| r.status == status_archived();
        let n: usize = self.issues.len();
        let mut out: Vec<Issue> = Vec::new();
        assert(rows_view(out@) =~= rev.subrange(0, 0).filter(p)) by {
            reveal(Seq::filter);
        }
        let mut j: usize = 0;
        while j < n
            invariant
                j <= n == self.issues@.len(),
                rev == self@.issues.reverse(),
                p == |r: IssueView| r.status == status_archived(),
                rows_view(out@) == rev.subrange(0, j as int).filter(p),
            decreases n - j,
        {
            let row = &self.issues[n - 1 - j];
            let keep = text_eq(row.status.as_str(), "archived");
            assert(rev[j as int] == row@);
            assert(rev.subrange(0, j + 1) =~= rev.subrange(0, j as int).push(row@));
            keep_if(&mut out, row, keep, Ghost(rev.subrange(0, j as int)), Ghost(p));
            j += 1;
        }
        assert(rev.subrange(0, j as int) =~= rev);
        Ok(out)
    }
}

/// A new last row with the next number keeps the rules.
pub proof fn lemma_push_issue_keeps_rules(v: DbView, row: IssueView)
    requires
        v.wf(),
        v.can_create_issue(),
        row.id == v.last_issue_id + 1,
        lifecycle_ok(row),
    ensures
        (DbView { issues: v.issues.push(row), last_issue_id: v.last_issue_id + 1, ..v }).wf(),
{
    let w = DbView { issues: v.issues.push(row), last_issue_id: v.last_issue_id + 1, ..v };
    let old_ids = issue_ids(v.issues);
    let new_ids = issue_ids(w.issues);
    assert(new_ids =~= old_ids.push(row.id));
    assert forall|x: int| old_ids.contains(x) implies new_ids.contains(x) by {
        let k = choose|k: int| 0 <= k < old_ids.len() && old_ids[k] == x;
        assert(new_ids[k] == x);
    }
}

} // verus!
