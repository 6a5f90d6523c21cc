//! Milestones: named goals and the issues gathered under them.

use vstd::prelude::*;

use crate::clock::{system_time, Timestamp};
use crate::db::deps::{leads_to, source};
use crate::db::issues::keep_if;
use crate::db::{
    issue_ids, milestone_ids, opt_row, opt_str, own_opt_str, rows_view, status_closed, status_open,
    Database, DbError, DbView,
};
use crate::models::{Issue, IssueView, Milestone, MilestoneView, Row};
use crate::seqs::{
    lemma_filter_all, lemma_filter_first, lemma_filter_members, lemma_filter_none,
    lemma_filter_order, lemma_filter_out_one,
};
use crate::text::text_eq;

verus! {

/// The test that a membership is not in the milestone `id`.
pub open spec fn outside_milestone(id: int) -> spec_fn((int, int)) -> bool {
    |m: (int, int)| m.0 != id
}

impl DbView {
    /// Whether a milestone has the number `id`.
    pub open spec fn has_milestone(self, id: int) -> bool {
        milestone_ids(self.milestones).contains(id)
    }

    /// The milestone with the number `id`.
    pub open spec fn find_milestone(self, id: int) -> Option<MilestoneView> {
        if self.has_milestone(id) {
            Some(self.milestones[milestone_ids(self.milestones).index_of(id)])
        } else {
            None
        }
    }

    /// Whether the milestones table can still give out a number.
    pub open spec fn can_create_milestone(self) -> bool {
        self.last_milestone_id < i64::MAX
    }

    /// The store with one more milestone, open, created at `now`.
    pub open spec fn create_milestone(
        self,
        name: Seq<char>,
        description: Option<Seq<char>>,
        now: Timestamp,
    ) -> DbView {
        DbView {
            milestones: self.milestones.push(
                MilestoneView {
                    id: self.last_milestone_id + 1,
                    name,
                    description,
                    status: status_open(),
                    created_at: now,
                    closed_at: None,
                },
            ),
            last_milestone_id: self.last_milestone_id + 1,
            ..self
        }
    }

    /// Whether a listing with this filter shows `m`: only the open
    /// milestones where the filter is `None`, all of them for the status
    /// `all`, and otherwise those with the status given.
    pub open spec fn milestone_listed(m: MilestoneView, status: Option<Seq<char>>) -> bool {
        match status {
            None => m.status == status_open(),
            Some(s) => s == "all"@ || m.status == s,
        }
    }

    /// The milestones that a listing with this filter shows, by falling
    /// number.
    pub open spec fn list_milestones(self, status: Option<Seq<char>>) -> Seq<MilestoneView> {
        self.milestones.reverse().filter(|m: MilestoneView| Self::milestone_listed(m, status))
    }

    /// What `add_issue_to_milestone` answers: a membership that is there is
    /// not added again; otherwise the milestone and the issue must exist.
    pub open spec fn add_member_result(self, milestone_id: int, issue_id: int) -> Result<
        bool,
        DbError,
    > {
        if self.memberships.contains((milestone_id, issue_id)) {
            Ok(false)
        } else if !self.has_milestone(milestone_id) || !self.has_issue(issue_id) {
            Err(DbError::ForeignKey)
        } else {
            Ok(true)
        }
    }

    /// The store after `add_issue_to_milestone`.
    pub open spec fn add_member(self, milestone_id: int, issue_id: int) -> DbView {
        if self.add_member_result(milestone_id, issue_id) == Ok::<bool, DbError>(true) {
            DbView { memberships: self.memberships.push((milestone_id, issue_id)), ..self }
        } else {
            self
        }
    }

    /// The store without the issue `issue_id` in the milestone
    /// `milestone_id`.
    pub open spec fn remove_member(self, milestone_id: int, issue_id: int) -> DbView {
        DbView {
            memberships: self.memberships.filter(|m: (int, int)| m != (milestone_id, issue_id)),
            ..self
        }
    }

    /// The issues in the milestone `milestone_id`, by rising number.
    pub open spec fn milestone_issues(self, milestone_id: int) -> Seq<IssueView> {
        self.issues.filter(|r: IssueView| self.memberships.contains((milestone_id, r.id)))
    }

    /// The store after the milestone `id` was closed at `now`.
    pub open spec fn close_milestone(self, id: int, now: Timestamp) -> DbView {
        DbView {
            milestones: self.milestones.map_values(
                |m: MilestoneView|
                    if m.id == id {
                        MilestoneView { status: status_closed(), closed_at: Some(now), ..m }
                    } else {
                        m
                    },
            ),
            ..self
        }
    }

    /// The store without the milestone `id` and without its memberships.
    pub open spec fn delete_milestone(self, id: int) -> DbView {
        DbView {
            milestones: self.milestones.filter(|m: MilestoneView| m.id != id),
            memberships: self.memberships.filter(outside_milestone(id)),
            ..self
        }
    }

    /// The milestone that the issue `issue_id` is in: where it is in
    /// several, the one it was put in first.
    pub open spec fn issue_milestone(self, issue_id: int) -> Option<MilestoneView> {
        let of_issue = self.memberships.filter(leads_to(issue_id));
        if of_issue.len() > 0 {
            self.find_milestone(of_issue[0].0)
        } else {
            None
        }
    }
}

/// In a store that keeps its rules, the row at `i` is the milestone with its
/// number.
pub proof fn lemma_milestone_at(v: DbView, i: int)
    requires
        v.wf(),
        0 <= i < v.milestones.len(),
    ensures
        v.has_milestone(v.milestones[i].id),
        v.find_milestone(v.milestones[i].id) == Some(v.milestones[i]),
{
    let ids = milestone_ids(v.milestones);
    assert(ids[i] == v.milestones[i].id);
    let j = ids.index_of(v.milestones[i].id);
    assert(ids[j] == v.milestones[j].id);
}

impl Database {
    /// The row of the milestone `id`, if there is one.
    fn milestone_index(&self, id: i64) -> (r: Option<usize>)
        requires
            self.wf(),
        ensures
            match r {
                Some(i) => i < self@.milestones.len() && self@.milestones[i as int].id == id
                    && self@.find_milestone(id as int) == Some(self@.milestones[i as int]),
                None => !self@.has_milestone(id as int),
            },
    {
        let mut i: usize = 0;
        while i < self.milestones.len()
            invariant
                self.wf(),
                i <= self.milestones@.len(),
                forall|k: int| 0 <= k < i ==> self.milestones@[k].id != id,
            decreases self.milestones@.len() - i,
        {
            if self.milestones[i].id == id {
                proof {
                    lemma_milestone_at(self@, i as int);
                }
                return Some(i);
            }
            i += 1;
        }
        proof {
            if self@.has_milestone(id as int) {
                let ids = milestone_ids(self@.milestones);
                let k = choose|k: int| 0 <= k < ids.len() && ids[k] == id as int;
                assert(self.milestones@[k].id == id);
            }
        }
        None
    }

    /// Where the membership stands, if it is there.
    fn member_index(&self, milestone_id: i64, issue_id: i64) -> (r: Option<usize>)
        ensures
            match r {
                Some(i) => i < self@.memberships.len() && self@.memberships[i as int] == (
                    milestone_id as int,
                    issue_id as int,
                ),
                None => !self@.memberships.contains((milestone_id as int, issue_id as int)),
            },
    {
        let mut i: usize = 0;
        while i < self.memberships.len()
            invariant
                i <= self.memberships@.len(),
                forall|k: int|
                    0 <= k < i ==> self@.memberships[k] != (milestone_id as int, issue_id as int),
            decreases self.memberships@.len() - i,
        {
            if self.memberships[i].0 == milestone_id && self.memberships[i].1 == issue_id {
                return Some(i);
            }
            i += 1;
        }
        None
    }

    /// Creates an open milestone and hands back its number.
    pub fn create_milestone(&mut self, name: &str, description: Option<&str>) -> (r: Result<
        i64,
        DbError,
    >)
        requires
            old(self).wf(),
        ensures
            final(self).wf(),
            match r {
                Ok(id) => old(self)@.can_create_milestone() && id == old(self)@.last_milestone_id
                    + 1 && exists|now: Timestamp|
                    final(self)@ == #[trigger] old(self)@.create_milestone(
                        name@,
                        opt_str(description),
                        now,
                    ),
                Err(e) => e == DbError::Full && !old(self)@.can_create_milestone() && final(self)@
                    == old(self)@,
            },
    {
        let now = system_time();
        self.create_milestone_at(name, description, now)
    }

    /// `create_milestone` at the time `now`.
    pub fn create_milestone_at(&mut self, name: &str, description: Option<&str>, now: Timestamp) -> (r:
        Result<i64, DbError>)
        requires
            old(self).wf(),
        ensures
            final(self).wf(),
            match r {
                Ok(id) => old(self)@.can_create_milestone() && id == old(self)@.last_milestone_id
                    + 1 && final(self)@ == old(self)@.create_milestone(
                    name@,
                    opt_str(description),
                    now,
                ),
                Err(e) => e == DbError::Full && !old(self)@.can_create_milestone() && final(self)@
                    == old(self)@,
            },
    {
        if self.last_milestone_id == i64::MAX {
            return Err(DbError::Full);
        }
        let id: i64 = self.last_milestone_id + 1;
        self.milestones.push(
            Milestone {
                id,
                name: name.to_owned(),
                description: own_opt_str(description),
                status: "open".to_owned(),
                created_at: now,
                closed_at: None,
            },
        );
        self.last_milestone_id = id;
        proof {
            let before = old(self)@;
            let after = before.create_milestone(name@, opt_str(description), now);
            assert(self@.milestones =~= after.milestones);
            assert forall|i: int, j: int| 0 <= i < j < self@.milestones.len() implies (
            #[trigger] self@.milestones[i]).id < (#[trigger] self@.milestones[j]).id by {
                assert(self@.milestones[i] == before.milestones[i]);
                if j < before.milestones.len() {
                    assert(self@.milestones[j] == before.milestones[j]);
                }
            }
            assert forall|i: int| 0 <= i < self@.milestones.len() implies 1 <= (
            #[trigger] self@.milestones[i]).id <= self@.last_milestone_id by {
                if i < before.milestones.len() {
                    assert(self@.milestones[i] == before.milestones[i]);
                }
            }
            let old_ids = milestone_ids(before.milestones);
            let new_ids = milestone_ids(self@.milestones);
            assert forall|x: int| old_ids.contains(x) implies new_ids.contains(x) by {
                let k = choose|k: int| 0 <= k < old_ids.len() && old_ids[k] == x;
                assert(new_ids[k] == x);
            }
        }
        Ok(id)
    }

    /// The milestone `id`, or `None` where there is none.
    pub fn get_milestone(&self, id: i64) -> (r: Result<Option<Milestone>, DbError>)
        requires
            self.wf(),
        ensures
            r matches Ok(o) && opt_row(o) == self@.find_milestone(id as int),
    {
        match self.milestone_index(id) {
            Some(i) => Ok(Some(self.milestones[i].duplicate())),
            None => Ok(None),
        }
    }

    /// The milestones that pass the filter, by falling number: only the open
    /// ones where the filter is `None`, all of them for the status `all`.
    pub fn list_milestones(&self, status: Option<&str>) -> (r: Result<Vec<Milestone>, DbError>)
        ensures
            r matches Ok(v) && rows_view(v@) == self@.list_milestones(opt_str(status)),
    {
        let ghost rev = self@.milestones.reverse();
        let ghost wanted = opt_str(status);
        let ghost p = |m: MilestoneView| DbView::milestone_listed(m, wanted);
        let n: usize = self.milestones.len();
        let mut out: Vec<Milestone> = Vec::new();
        assert(rows_view(out@) =~= rev.subrange(0, 0).filter(p)) by {
            reveal(Seq::filter);
        }
        let mut j: usize = 0;
        while j < n
            invariant
                j <= n == self.milestones@.len(),
                rev == self@.milestones.reverse(),
                wanted == opt_str(status),
                p == |m: MilestoneView| DbView::milestone_listed(m, wanted),
                rows_view(out@) == rev.subrange(0, j as int).filter(p),
            decreases n - j,
        {
            let row = &self.milestones[n - 1 - j];
            let keep = match status {
                Some(s) => text_eq(s, "all") || text_eq(row.status.as_str(), s),
                None => text_eq(row.status.as_str(), "open"),
            };
            assert(rev[j as int] == row@);
            assert(rev.subrange(0, j + 1) =~= rev.subrange(0, j as int).push(row@));
            keep_if(&mut out, row, keep, Ghost(rev.subrange(0, j as int)), Ghost(p));
            j += 1;
        }
        assert(rev.subrange(0, j as int) =~= rev);
        Ok(out)
    }

    /// Puts the issue `issue_id` in the milestone `milestone_id`. Says
    /// `Ok(true)` where the membership is new and `Ok(false)` where it was
    /// there already.
    pub fn add_issue_to_milestone(&mut self, milestone_id: i64, issue_id: i64) -> (r: Result<
        bool,
        DbError,
    >)
        requires
            old(self).wf(),
        ensures
            final(self).wf(),
            r == old(self)@.add_member_result(milestone_id as int, issue_id as int),
            final(self)@ == old(self)@.add_member(milestone_id as int, issue_id as int),
    {
        if self.member_index(milestone_id, issue_id).is_some() {
            return Ok(false);
        }
        if self.milestone_index(milestone_id).is_none() || self.issue_index(issue_id).is_none() {
            return Err(DbError::ForeignKey);
        }
        self.memberships.push((milestone_id, issue_id));
        proof {
            let before = old(self)@;
            let pair = (milestone_id as int, issue_id as int);
            assert(self@.memberships =~= before.memberships.push(pair));
            assert forall|i: int, j: int|
                0 <= i < self@.memberships.len() && 0 <= j < self@.memberships.len() && i
                    != j implies self@.memberships[i] != self@.memberships[j] by {
                if i < before.memberships.len() && j < before.memberships.len() {
                    assert(before.memberships[i] != before.memberships[j]);
                } else if i < before.memberships.len() {
                    assert(before.memberships.contains(before.memberships[i]));
                } else {
                    assert(before.memberships.contains(before.memberships[j]));
                }
            }
        }
        Ok(true)
    }

    /// Takes the issue `issue_id` out of the milestone `milestone_id` and
    /// says whether it was in it.
    pub fn remove_issue_from_milestone(&mut self, milestone_id: i64, issue_id: i64) -> (r: Result<
        bool,
        DbError,
    >)
        requires
            old(self).wf(),
        ensures
            final(self).wf(),
            r == Ok::<bool, DbError>(
                old(self)@.memberships.contains((milestone_id as int, issue_id as int)),
            ),
            final(self)@ == old(self)@.remove_member(milestone_id as int, issue_id as int),
    {
        let ghost before = old(self)@;
        let ghost pair = (milestone_id as int, issue_id as int);
        let ghost p = |m: (int, int)| m != pair;
        match self.member_index(milestone_id, issue_id) {
            Some(i) => {
                self.memberships.remove(i);
                proof {
                    assert(self@.memberships =~= before.memberships.remove(i as int));
                    assert forall|j: int| 0 <= j < before.memberships.len() && j != i implies p(
                        #[trigger] before.memberships[j],
                    ) by {
                        assert(before.memberships[j] != before.memberships[i as int]);
                    }
                    lemma_filter_out_one(before.memberships, i as int, p);
                    assert forall|a: int, b: int|
                        0 <= a < self@.memberships.len() && 0 <= b < self@.memberships.len() && a
                            != b implies self@.memberships[a] != self@.memberships[b] by {
                        let a2 = if a < i { a } else { a + 1 };
                        let b2 = if b < i { b } else { b + 1 };
                        assert(before.memberships[a2] != before.memberships[b2]);
                    }
                    assert forall|k: int| 0 <= k < self@.memberships.len() implies milestone_ids(
                        self@.milestones,
                    ).contains((#[trigger] self@.memberships[k]).0) && issue_ids(
                        self@.issues,
                    ).contains(self@.memberships[k].1) by {
                        let k2 = if k < i { k } else { k + 1 };
                        assert(self@.memberships[k] == before.memberships[k2]);
                    }
                }
                Ok(true)
            },
            None => {
                proof {
                    assert forall|j: int| 0 <= j < before.memberships.len() implies p(
                        #[trigger] before.memberships[j],
                    ) by {
                        assert(before.memberships.contains(before.memberships[j]));
                    }
                    lemma_filter_all(before.memberships, p);
                }
                Ok(false)
            },
        }
    }

    /// The issues in the milestone `milestone_id`, by rising number.
    pub fn get_milestone_issues(&self, milestone_id: i64) -> (r: Result<Vec<Issue>, DbError>)
        ensures
            r matches Ok(v) && rows_view(v@) == self@.milestone_issues(milestone_id as int),
    {
        let ghost db = self@;
        let ghost all = self@.issues;
        let ghost p = |r: IssueView| db.memberships.contains((milestone_id as int, r.id));
        let mut out: Vec<Issue> = Vec::new();
        assert(rows_view(out@) =~= all.subrange(0, 0).filter(p)) by {
            reveal(Seq::filter);
        }
        let mut i: usize = 0;
        while i < self.issues.len()
            invariant
                i <= self.issues@.len(),
                db == self@,
                all == self@.issues,
                p == |r: IssueView| db.memberships.contains((milestone_id as int, r.id)),
                rows_view(out@) == all.subrange(0, i as int).filter(p),
            decreases self.issues@.len() - i,
        {
            let row = &self.issues[i];
            let keep = self.member_index(milestone_id, row.id).is_some();
            assert(all.subrange(0, i + 1) =~= all.subrange(0, i as int).push(row@));
            keep_if(&mut out, row, keep, Ghost(all.subrange(0, i as int)), Ghost(p));
            i += 1;
        }
        assert(all.subrange(0, i as int) =~= all);
        Ok(out)
    }

    /// Closes the milestone `id` and says whether there is such a
    /// milestone.
    pub fn close_milestone(&mut self, id: i64) -> (r: Result<bool, DbError>)
        requires
            old(self).wf(),
        ensures
            final(self).wf(),
            r == Ok::<bool, DbError>(old(self)@.has_milestone(id as int)),
            exists|now: Timestamp|
                final(self)@ == #[trigger] old(self)@.close_milestone(id as int, now),
    {
        let now = system_time();
        self.close_milestone_at(id, now)
    }

    /// `close_milestone` at the time `now`.
    pub fn close_milestone_at(&mut self, id: i64, now: Timestamp) -> (r: Result<bool, DbError>)
        requires
            old(self).wf(),
        ensures
            final(self).wf(),
            r == Ok::<bool, DbError>(old(self)@.has_milestone(id as int)),
            final(self)@ == old(self)@.close_milestone(id as int, now),
    {
        let ghost before = old(self)@;
        let ghost after = before.close_milestone(id as int, now);
        match self.milestone_index(id) {
            Some(i) => {
                self.milestones[i].status = "closed".to_owned();
                self.milestones[i].closed_at = Some(now);
                proof {
                    assert forall|j: int| 0 <= j < before.milestones.len() && j != i implies (
                    #[trigger] before.milestones[j]).id != id by {
                        if j < i {
                            assert(before.milestones[j].id < before.milestones[i as int].id);
                        } else {
                            assert(before.milestones[i as int].id < before.milestones[j].id);
                        }
                    }
                    assert(self@.milestones =~= after.milestones);
                    assert(milestone_ids(self@.milestones) =~= milestone_ids(before.milestones));
                    assert forall|a: int, b: int| 0 <= a < b < self@.milestones.len() implies (
                    #[trigger] self@.milestones[a]).id < (#[trigger] self@.milestones[b]).id by {
                        assert(before.milestones[a].id < before.milestones[b].id);
                    }
                    assert forall|a: int| 0 <= a < self@.milestones.len() implies 1 <= (
                    #[trigger] self@.milestones[a]).id <= self@.last_milestone_id by {
                        assert(1 <= before.milestones[a].id <= before.last_milestone_id);
                    }
                }
                Ok(true)
            },
            None => {
                proof {
                    let ids = milestone_ids(before.milestones);
                    assert forall|j: int| 0 <= j < before.milestones.len() implies (
                    #[trigger] before.milestones[j]).id != id by {
                        assert(ids[j] == before.milestones[j].id);
                    }
                    assert(after.milestones =~= before.milestones);
                }
                Ok(false)
            },
        }
    }

    /// Deletes the milestone `id` with its memberships and says whether
    /// there was such a milestone. The issues stay.
    pub fn delete_milestone(&mut self, id: i64) -> (r: Result<bool, DbError>)
        requires
            old(self).wf(),
        ensures
            final(self).wf(),
            r == Ok::<bool, DbError>(old(self)@.has_milestone(id as int)),
            final(self)@ == old(self)@.delete_milestone(id as int),
    {
        let ghost before = old(self)@;
        let ghost keep_row = |m: MilestoneView| m.id != id as int;
        let ghost keep_pair = outside_milestone(id as int);
        match self.milestone_index(id) {
            Some(i) => {
                self.milestones.remove(i);
                proof {
                    assert(self@.milestones =~= before.milestones.remove(i as int));
                    assert forall|j: int| 0 <= j < before.milestones.len() && j != i implies keep_row(
                        #[trigger] before.milestones[j],
                    ) by {
                        if j < i {
                            assert(before.milestones[j].id < before.milestones[i as int].id);
                        } else {
                            assert(before.milestones[i as int].id < before.milestones[j].id);
                        }
                    }
                    lemma_filter_out_one(before.milestones, i as int, keep_row);
                }
                let ghost mid = self@;
                let mut kept: Vec<(i64, i64)> = Vec::new();
                assert(crate::graph::edges_view(kept@) =~= before.memberships.subrange(0, 0).filter(
                    keep_pair,
                )) by {
                    reveal(Seq::filter);
                }
                let mut k: usize = 0;
                while k < self.memberships.len()
                    invariant
                        k <= self.memberships@.len(),
                        self@ == mid,
                        mid.memberships == before.memberships,
                        keep_pair == outside_milestone(id as int),
                        crate::graph::edges_view(kept@) == before.memberships.subrange(
                            0,
                            k as int,
                        ).filter(keep_pair),
                    decreases self.memberships@.len() - k,
                {
                    let pair = self.memberships[k];
                    proof {
                        let done = before.memberships.subrange(0, k as int);
                        assert(before.memberships.subrange(0, k + 1) =~= done.push(
                            before.memberships[k as int],
                        ));
                        done.lemma_filter_push(before.memberships[k as int], keep_pair);
                        assert(crate::graph::edges_view(kept@.push(pair)) =~= crate::graph::edges_view(
                            kept@,
                        ).push((pair.0 as int, pair.1 as int)));
                    }
                    if pair.0 != id {
                        kept.push(pair);
                    }
                    k += 1;
                }
                assert(before.memberships.subrange(0, k as int) =~= before.memberships);
                self.memberships = kept;
                proof {
                    let after = before.delete_milestone(id as int);
                    assert(self@.milestones == after.milestones);
                    assert(self@.memberships == after.memberships);
                    assert(self@ == after);
                    // the rules
                    assert forall|a: int, b: int| 0 <= a < b < self@.milestones.len() implies (
                    #[trigger] self@.milestones[a]).id < (#[trigger] self@.milestones[b]).id by {
                        let a2 = if a < i { a } else { a + 1 };
                        let b2 = if b < i { b } else { b + 1 };
                        assert(self@.milestones[a] == before.milestones[a2]);
                        assert(self@.milestones[b] == before.milestones[b2]);
                        assert(before.milestones[a2].id < before.milestones[b2].id);
                    }
                    assert forall|a: int| 0 <= a < self@.milestones.len() implies 1 <= (
                    #[trigger] self@.milestones[a]).id <= self@.last_milestone_id by {
                        let a2 = if a < i { a } else { a + 1 };
                        assert(self@.milestones[a] == before.milestones[a2]);
                        assert(1 <= before.milestones[a2].id <= before.last_milestone_id);
                    }
                    let ms = self@.memberships;
                    let at = lemma_filter_order(before.memberships, keep_pair);
                    assert forall|a: int, b: int|
                        0 <= a < ms.len() && 0 <= b < ms.len() && a != b implies ms[a] != ms[b] by {
                        if a < b {
                            assert(at[a] < at[b]);
                        } else {
                            assert(at[b] < at[a]);
                        }
                        assert(before.memberships[at[a]] != before.memberships[at[b]]);
                    }
                    let old_mids = milestone_ids(before.milestones);
                    let new_mids = milestone_ids(self@.milestones);
                    assert forall|k: int| 0 <= k < ms.len() implies new_mids.contains(
                        (#[trigger] ms[k]).0,
                    ) && issue_ids(self@.issues).contains(ms[k].1) by {
                        before.memberships.lemma_filter_pred(keep_pair, k);
                        assert(ms[k] == before.memberships[at[k]]);
                        assert(old_mids.contains(before.memberships[at[k]].0));
                        let m = choose|m: int| 0 <= m < old_mids.len() && old_mids[m] == ms[k].0;
                        assert(old_mids[m] == before.milestones[m].id);
                        assert(m != i);
                        let m2 = if m < i { m } else { m - 1 };
                        assert(self@.milestones[m2] == before.milestones[m]);
                        assert(new_mids[m2] == ms[k].0);
                    }
                }
                Ok(true)
            },
            None => {
                proof {
                    let ids = milestone_ids(before.milestones);
                    assert forall|j: int| 0 <= j < before.milestones.len() implies keep_row(
                        #[trigger] before.milestones[j],
                    ) by {
                        assert(ids[j] == before.milestones[j].id);
                    }
                    lemma_filter_all(before.milestones, keep_row);
                    assert forall|j: int| 0 <= j < before.memberships.len() implies keep_pair(
                        #[trigger] before.memberships[j],
                    ) by {
                        assert(ids.contains(before.memberships[j].0));
                    }
                    lemma_filter_all(before.memberships, keep_pair);
                }
                Ok(false)
            },
        }
    }

    /// The milestone that the issue `issue_id` is in: where it is in
    /// several, the one it was put in first.
    pub fn get_issue_milestone(&self, issue_id: i64) -> (r: Result<Option<Milestone>, DbError>)
        requires
            self.wf(),
        ensures
            r matches Ok(o) && opt_row(o) == self@.issue_milestone(issue_id as int),
    {
        let ghost all = self@.memberships;
        let ghost p = leads_to(issue_id as int);
        let mut k: usize = 0;
        while k < self.memberships.len()
            invariant
                self.wf(),
                k <= self.memberships@.len(),
                all == self@.memberships,
                p == leads_to(issue_id as int),
                forall|j: int| 0 <= j < k ==> !p(#[trigger] all[j]),
            decreases self.memberships@.len() - k,
        {
            if self.memberships[k].1 == issue_id {
                proof {
                    lemma_filter_first(all, k as int, p);
                }
                return self.get_milestone(self.memberships[k].0);
            }
            k += 1;
        }
        proof {
            lemma_filter_none(all, p);
        }
        Ok(None)
    }
}

} // verus!
