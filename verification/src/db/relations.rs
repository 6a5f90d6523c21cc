//! Relations: links between two issues that hold in both directions.

use vstd::prelude::*;

use crate::clock::{system_time, Timestamp};
use crate::db::issues::keep_if;
use crate::db::{issue_ids, rows_view, Database, DbError, DbView};
use crate::models::{Issue, IssueView, Relation, RelationView};
use crate::seqs::{lemma_filter_all, lemma_filter_out_one};

verus! {

/// The smaller of two numbers.
pub open spec fn lesser(a: int, b: int) -> int {
    if a < b {
        a
    } else {
        b
    }
}

/// The larger of two numbers.
pub open spec fn greater(a: int, b: int) -> int {
    if a < b {
        b
    } else {
        a
    }
}

impl DbView {
    /// Whether the issues `a` and `b` are linked, in whichever order they
    /// are named.
    pub open spec fn are_related(self, a: int, b: int) -> bool {
        exists|k: int|
            0 <= k < self.relations.len() && (#[trigger] self.relations[k]).issue_id_1 == lesser(
                a,
                b,
            ) && self.relations[k].issue_id_2 == greater(a, b)
    }

    /// What `add_relation` answers: an issue is not related to itself; both
    /// issues must exist; and a link that is there is not added again.
    pub open spec fn add_relation_result(self, a: int, b: int) -> Result<bool, DbError> {
        if a == b {
            Err(DbError::SelfRelation)
        } else if self.are_related(a, b) {
            Ok(false)
        } else if !self.has_issue(a) || !self.has_issue(b) {
            Err(DbError::ForeignKey)
        } else {
            Ok(true)
        }
    }

    /// The store after `add_relation` at the time `now`: one more link, the
    /// smaller number first, where the answer is `Ok(true)`.
    pub open spec fn add_relation(self, a: int, b: int, now: Timestamp) -> DbView {
        if self.add_relation_result(a, b) == Ok::<bool, DbError>(true) {
            DbView {
                relations: self.relations.push(
                    RelationView {
                        issue_id_1: lesser(a, b),
                        issue_id_2: greater(a, b),
                        created_at: now,
                    },
                ),
                ..self
            }
        } else {
            self
        }
    }

    /// The store without the link between `a` and `b`.
    pub open spec fn remove_relation(self, a: int, b: int) -> DbView {
        DbView {
            relations: self.relations.filter(
                |r: RelationView| !(r.issue_id_1 == lesser(a, b) && r.issue_id_2 == greater(a, b)),
            ),
            ..self
        }
    }

    /// The issues linked with `id`, by rising number.
    pub open spec fn related_issues(self, id: int) -> Seq<IssueView> {
        self.issues.filter(|r: IssueView| self.are_related(id, r.id))
    }
}

impl Database {
    /// Where the link between `a` and `b` stands, if it is there.
    fn relation_index(&self, a: i64, b: i64) -> (r: Option<usize>)
        ensures
            match r {
                Some(i) => i < self@.relations.len() && self@.relations[i as int].issue_id_1
                    == lesser(a as int, b as int) && self@.relations[i as int].issue_id_2
                    == greater(a as int, b as int),
                None => !self@.are_related(a as int, b as int),
            },
    {
        let (lo, hi) = if a < b {
            (a, b)
        } else {
            (b, a)
        };
        let mut i: usize = 0;
        while i < self.relations.len()
            invariant
                i <= self.relations@.len(),
                lo == lesser(a as int, b as int),
                hi == greater(a as int, b as int),
                forall|k: int|
                    0 <= k < i ==> !((#[trigger] self@.relations[k]).issue_id_1 == lo
                        && self@.relations[k].issue_id_2 == hi),
            decreases self.relations@.len() - i,
        {
            if self.relations[i].issue_id_1 == lo && self.relations[i].issue_id_2 == hi {
                return Some(i);
            }
            i += 1;
        }
        None
    }

    /// Links the issues `issue_id_1` and `issue_id_2`, in whichever order
    /// they are named. Says `Ok(true)` where the link is new and `Ok(false)`
    /// where it was there already.
    pub fn add_relation(&mut self, issue_id_1: i64, issue_id_2: i64) -> (r: Result<bool, DbError>)
        requires
            old(self).wf(),
        ensures
            final(self).wf(),
            r == old(self)@.add_relation_result(issue_id_1 as int, issue_id_2 as int),
            exists|now: Timestamp|
                final(self)@ == #[trigger] old(self)@.add_relation(
                    issue_id_1 as int,
                    issue_id_2 as int,
                    now,
                ),
    {
        let now = system_time();
        self.add_relation_at(issue_id_1, issue_id_2, now)
    }

    /// `add_relation` at the time `now`.
    pub fn add_relation_at(&mut self, issue_id_1: i64, issue_id_2: i64, now: Timestamp) -> (r:
        Result<bool, DbError>)
        requires
            old(self).wf(),
        ensures
            final(self).wf(),
            r == old(self)@.add_relation_result(issue_id_1 as int, issue_id_2 as int),
            final(self)@ == old(self)@.add_relation(issue_id_1 as int, issue_id_2 as int, now),
    {
        if issue_id_1 == issue_id_2 {
            return Err(DbError::SelfRelation);
        }
        if self.relation_index(issue_id_1, issue_id_2).is_some() {
            return Ok(false);
        }
        if self.issue_index(issue_id_1).is_none() || self.issue_index(issue_id_2).is_none() {
            return Err(DbError::ForeignKey);
        }
        let (a, b) = if issue_id_1 < issue_id_2 {
            (issue_id_1, issue_id_2)
        } else {
            (issue_id_2, issue_id_1)
        };
        self.relations.push(Relation { issue_id_1: a, issue_id_2: b, created_at: now });
        proof {
            let before = old(self)@;
            let after = before.add_relation(issue_id_1 as int, issue_id_2 as int, now);
            assert(self@.relations =~= after.relations);
            assert forall|i: int, j: int| 0 <= i < j < self@.relations.len() implies !((
            #[trigger] self@.relations[i]).issue_id_1 == (#[trigger] self@.relations[j]).issue_id_1
                && self@.relations[i].issue_id_2 == self@.relations[j].issue_id_2) by {
                assert(self@.relations[i] == before.relations[i]);
                if j < before.relations.len() {
                    assert(self@.relations[j] == before.relations[j]);
                }
            }
            assert forall|i: int| 0 <= i < self@.relations.len() implies (
            #[trigger] self@.relations[i]).issue_id_1 < self@.relations[i].issue_id_2 && issue_ids(
                self@.issues,
            ).contains(self@.relations[i].issue_id_1) && issue_ids(self@.issues).contains(
                self@.relations[i].issue_id_2,
            ) by {
                if i < before.relations.len() {
                    assert(self@.relations[i] == before.relations[i]);
                }
            }
        }
        Ok(true)
    }

    /// Takes the link between the two issues away and says whether it was
    /// there.
    pub fn remove_relation(&mut self, issue_id_1: i64, issue_id_2: i64) -> (r: Result<
        bool,
        DbError,
    >)
        requires
            old(self).wf(),
        ensures
            final(self).wf(),
            r == Ok::<bool, DbError>(old(self)@.are_related(issue_id_1 as int, issue_id_2 as int)),
            final(self)@ == old(self)@.remove_relation(issue_id_1 as int, issue_id_2 as int),
    {
        let ghost before = old(self)@;
        let ghost lo = lesser(issue_id_1 as int, issue_id_2 as int);
        let ghost hi = greater(issue_id_1 as int, issue_id_2 as int);
        let ghost p = |r: RelationView| !(r.issue_id_1 == lo && r.issue_id_2 == hi);
        match self.relation_index(issue_id_1, issue_id_2) {
            Some(i) => {
                self.relations.remove(i);
                proof {
                    assert(self@.relations =~= before.relations.remove(i as int));
                    assert forall|j: int| 0 <= j < before.relations.len() && j != i implies p(
                        #[trigger] before.relations[j],
                    ) by {
                        if j < i {
                            assert(!(before.relations[j].issue_id_1 == before.relations[i as int].issue_id_1
                                && before.relations[j].issue_id_2
                                == before.relations[i as int].issue_id_2));
                        } else {
                            assert(!(before.relations[i as int].issue_id_1
                                == before.relations[j].issue_id_1
                                && before.relations[i as int].issue_id_2
                                == before.relations[j].issue_id_2));
                        }
                    }
                    lemma_filter_out_one(before.relations, i as int, p);
                    assert forall|a: int, b: int| 0 <= a < b < self@.relations.len() implies !((
                    #[trigger] self@.relations[a]).issue_id_1 == (
                    #[trigger] self@.relations[b]).issue_id_1 && self@.relations[a].issue_id_2
                        == self@.relations[b].issue_id_2) by {
                        let a2 = if a < i { a } else { a + 1 };
                        let b2 = if b < i { b } else { b + 1 };
                        assert(self@.relations[a] == before.relations[a2]);
                        assert(self@.relations[b] == before.relations[b2]);
                    }
                    assert forall|k: int| 0 <= k < self@.relations.len() implies (
                    #[trigger] self@.relations[k]).issue_id_1 < self@.relations[k].issue_id_2
                        && issue_ids(self@.issues).contains(self@.relations[k].issue_id_1)
                        && issue_ids(self@.issues).contains(self@.relations[k].issue_id_2) by {
                        let k2 = if k < i { k } else { k + 1 };
                        assert(self@.relations[k] == before.relations[k2]);
                    }
                    assert(before.are_related(issue_id_1 as int, issue_id_2 as int));
                }
                Ok(true)
            },
            None => {
                proof {
                    lemma_filter_all(before.relations, p);
                }
                Ok(false)
            },
        }
    }

    /// The issues linked with `issue_id`, by rising number.
    pub fn get_related_issues(&self, issue_id: i64) -> (r: Result<Vec<Issue>, DbError>)
        requires
            self.wf(),
        ensures
            r matches Ok(v) && rows_view(v@) == self@.related_issues(issue_id as int),
    {
        let ghost db = self@;
        let ghost all = self@.issues;
        let ghost p = |r: IssueView| db.are_related(issue_id as int, r.id);
        let mut out: Vec<Issue> = Vec::new();
        assert(rows_view(out@) =~= all.subrange(0, 0).filter(p)) by {
            reveal(Seq::filter);
        }
        let mut i: usize = 0;
        while i < self.issues.len()
            invariant
                i <= self.issues@.len(),
                db == self@,
                all == self@.issues,
                p == |r: IssueView| db.are_related(issue_id as int, r.id),
                rows_view(out@) == all.subrange(0, i as int).filter(p),
            decreases self.issues@.len() - i,
        {
            let row = &self.issues[i];
            let keep = self.relation_index(issue_id, row.id).is_some();
            assert(all.subrange(0, i + 1) =~= all.subrange(0, i as int).push(row@));
            keep_if(&mut out, row, keep, Ghost(all.subrange(0, i as int)), Ghost(p));
            i += 1;
        }
        assert(all.subrange(0, i as int) =~= all);
        Ok(out)
    }
}

} // verus!
