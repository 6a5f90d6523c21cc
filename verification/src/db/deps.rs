//! Dependencies between issues: which issue blocks which, kept free of
//! cycles, and what that makes ready or blocked.

use vstd::prelude::*;

use crate::db::issues::keep_if;
use crate::db::{issue_ids, rows_view, status_open, Database, DbError, DbView};
use crate::graph::{
    acyclic, contains_id, edges_view, ids_view, lemma_acyclic_add, lemma_acyclic_subset,
    reachable_from, reaches,
};
use crate::models::{Issue, IssueView};
use crate::seqs::{lemma_filter_all, lemma_filter_members, lemma_filter_out_one};
use crate::text::text_eq;

verus! {

/// The test that an edge leads to `id`.
pub open spec fn leads_to(id: int) -> spec_fn((int, int)) -> bool {
    |e: (int, int)| e.1 == id
}

/// The test that an edge leaves `id`.
pub open spec fn leaves(id: int) -> spec_fn((int, int)) -> bool {
    |e: (int, int)| e.0 == id
}

/// The node that an edge leaves.
pub open spec fn source() -> spec_fn((int, int)) -> int {
    |e: (int, int)| e.0
}

/// The node that an edge leads to.
pub open spec fn target() -> spec_fn((int, int)) -> int {
    |e: (int, int)| e.1
}

impl DbView {
    /// What `add_dependency` answers: an issue cannot block itself; an edge
    /// that would close a cycle is refused; both issues must exist; and an
    /// edge that is already there is not added again.
    pub open spec fn add_dependency_result(self, blocked: int, blocker: int) -> Result<
        bool,
        DbError,
    > {
        if blocked == blocker {
            Err(DbError::SelfDependency)
        } else if reaches(self.dependencies, blocked, blocker) {
            Err(DbError::CircularDependency)
        } else if !self.has_issue(blocker) || !self.has_issue(blocked) {
            Err(DbError::ForeignKey)
        } else {
            Ok(!self.dependencies.contains((blocker, blocked)))
        }
    }

    /// The store after `add_dependency`: one more edge where the answer is
    /// `Ok(true)`, and unchanged otherwise.
    pub open spec fn add_dependency(self, blocked: int, blocker: int) -> DbView {
        if self.add_dependency_result(blocked, blocker) == Ok::<bool, DbError>(true) {
            DbView { dependencies: self.dependencies.push((blocker, blocked)), ..self }
        } else {
            self
        }
    }

    /// The store without the edge from `blocker` to `blocked`.
    pub open spec fn remove_dependency(self, blocked: int, blocker: int) -> DbView {
        DbView {
            dependencies: self.dependencies.filter(|e: (int, int)| e != (blocker, blocked)),
            ..self
        }
    }

    /// The issues that block `id`, in the order in which the edges were added.
    pub open spec fn blockers(self, id: int) -> Seq<int> {
        self.dependencies.filter(leads_to(id)).map_values(source())
    }

    /// The issues that `id` blocks, in the order in which the edges were
    /// added.
    pub open spec fn blocking(self, id: int) -> Seq<int> {
        self.dependencies.filter(leaves(id)).map_values(target())
    }

    /// Whether the issue `id` exists and is open.
    pub open spec fn is_open(self, id: int) -> bool {
        self.has_status(id, status_open())
    }

    /// Whether some open issue blocks `id`.
    pub open spec fn has_open_blocker(self, id: int) -> bool {
        exists|k: int|
            0 <= k < self.dependencies.len() && (#[trigger] self.dependencies[k]).1 == id
                && self.is_open(self.dependencies[k].0)
    }

    /// The open issues that no open issue blocks, by rising number.
    pub open spec fn ready_issues(self) -> Seq<IssueView> {
        self.issues.filter(|r: IssueView| r.status == status_open() && !self.has_open_blocker(r.id))
    }

    /// The open issues that some open issue blocks, by rising number.
    pub open spec fn blocked_issues(self) -> Seq<IssueView> {
        self.issues.filter(|r: IssueView| r.status == status_open() && self.has_open_blocker(r.id))
    }
}

impl Database {
    /// Whether the edge from `blocker` to `blocked` is there, and where.
    fn dependency_index(&self, blocker: i64, blocked: i64) -> (r: Option<usize>)
        ensures
            match r {
                Some(i) => i < self@.dependencies.len() && self@.dependencies[i as int] == (
                    blocker as int,
                    blocked as int,
                ),
                None => !self@.dependencies.contains((blocker as int, blocked as int)),
            },
    {
        let mut i: usize = 0;
        while i < self.dependencies.len()
            invariant
                i <= self.dependencies@.len(),
                forall|k: int|
                    0 <= k < i ==> self@.dependencies[k] != (blocker as int, blocked as int),
            decreases self.dependencies@.len() - i,
        {
            if self.dependencies[i].0 == blocker && self.dependencies[i].1 == blocked {
                return Some(i);
            }
            i += 1;
        }
        None
    }

    /// Whether `blocked` already blocks `blocker`, directly or through other
    /// issues, so that an edge from `blocker` to `blocked` would close a
    /// cycle.
    pub fn would_create_cycle(&self, blocked_id: i64, blocker_id: i64) -> (r: Result<bool, DbError>)
        ensures
            r == Ok::<bool, DbError>(
                reaches(self@.dependencies, blocked_id as int, blocker_id as int),
            ),
    {
        let seen = reachable_from(&self.dependencies, blocked_id);
        Ok(contains_id(&seen, blocker_id))
    }

    /// Records that `blocker_id` blocks `blocked_id`. Says `Ok(true)` where
    /// the edge is new and `Ok(false)` where it was there already.
    pub fn add_dependency(&mut self, blocked_id: i64, blocker_id: i64) -> (r: Result<bool, DbError>)
        requires
            old(self).wf(),
        ensures
            final(self).wf(),
            r == old(self)@.add_dependency_result(blocked_id as int, blocker_id as int),
            final(self)@ == old(self)@.add_dependency(blocked_id as int, blocker_id as int),
            r is Err ==> final(self)@ == old(self)@,
    {
        if blocked_id == blocker_id {
            return Err(DbError::SelfDependency);
        }
        let cycle = match self.would_create_cycle(blocked_id, blocker_id) {
            Ok(c) => c,
            Err(e) => {
                return Err(e);
            },
        };
        if cycle {
            return Err(DbError::CircularDependency);
        }
        if self.issue_index(blocker_id).is_none() || self.issue_index(blocked_id).is_none() {
            return Err(DbError::ForeignKey);
        }
        if self.dependency_index(blocker_id, blocked_id).is_some() {
            return Ok(false);
        }
        self.dependencies.push((blocker_id, blocked_id));
        proof {
            let before = old(self)@;
            let edge = (blocker_id as int, blocked_id as int);
            assert(self@.dependencies =~= before.dependencies.push(edge));
            lemma_acyclic_add(before.dependencies, blocker_id as int, blocked_id as int);
            assert(self@ == before.add_dependency(blocked_id as int, blocker_id as int));
            assert(self@.dependencies.no_duplicates()) by {
                assert forall|i: int, j: int|
                    0 <= i < self@.dependencies.len() && 0 <= j < self@.dependencies.len() && i
                        != j implies self@.dependencies[i] != self@.dependencies[j] by {
                    if i < before.dependencies.len() && j < before.dependencies.len() {
                        assert(before.dependencies[i] != before.dependencies[j]);
                    } else if i < before.dependencies.len() {
                        assert(before.dependencies.contains(before.dependencies[i]));
                    } else {
                        assert(before.dependencies.contains(before.dependencies[j]));
                    }
                }
            }
        }
        Ok(true)
    }

    /// Takes the edge from `blocker_id` to `blocked_id` away and says whether
    /// it was there.
    pub fn remove_dependency(&mut self, blocked_id: i64, blocker_id: i64) -> (r: Result<
        bool,
        DbError,
    >)
        requires
            old(self).wf(),
        ensures
            final(self).wf(),
            r == Ok::<bool, DbError>(
                old(self)@.dependencies.contains((blocker_id as int, blocked_id as int)),
            ),
            final(self)@ == old(self)@.remove_dependency(blocked_id as int, blocker_id as int),
    {
        let ghost before = old(self)@;
        let ghost edge = (blocker_id as int, blocked_id as int);
        let ghost p = |e: (int, int)| e != edge;
        match self.dependency_index(blocker_id, blocked_id) {
            Some(i) => {
                self.dependencies.remove(i);
                proof {
                    assert(self@.dependencies =~= before.dependencies.remove(i as int));
                    assert forall|j: int|
                        0 <= j < before.dependencies.len() && j != i implies p(
                        #[trigger] before.dependencies[j],
                    ) by {
                        assert(before.dependencies[j] != before.dependencies[i as int]);
                    }
                    lemma_filter_out_one(before.dependencies, i as int, p);
                    assert forall|e: (int, int)| self@.dependencies.contains(e) implies before.dependencies.contains(e) by {
                        let k = choose|k: int| 0 <= k < self@.dependencies.len() && self@.dependencies[k] == e;
                        if k < i {
                            assert(before.dependencies[k] == e);
                        } else {
                            assert(before.dependencies[k + 1] == e);
                        }
                    }
                    lemma_acyclic_subset(self@.dependencies, before.dependencies);
                    assert(self@.dependencies.no_duplicates()) by {
                        assert forall|a: int, b: int|
                            0 <= a < self@.dependencies.len() && 0 <= b < self@.dependencies.len() && a
                                != b implies self@.dependencies[a] != self@.dependencies[b] by {
                            let a2 = if a < i { a } else { a + 1 };
                            let b2 = if b < i { b } else { b + 1 };
                            assert(before.dependencies[a2] != before.dependencies[b2]);
                        }
                    }
                    assert forall|k: int| 0 <= k < self@.dependencies.len() implies issue_ids(self@.issues).contains((#[trigger] self@.dependencies[k]).0) && issue_ids(self@.issues).contains(self@.dependencies[k].1) by {
                        let k2 = if k < i { k } else { k + 1 };
                        assert(self@.dependencies[k] == before.dependencies[k2]);
                    }
                }
                Ok(true)
            },
            None => {
                proof {
                    assert forall|j: int| 0 <= j < before.dependencies.len() implies p(
                        #[trigger] before.dependencies[j],
                    ) by {
                        assert(before.dependencies.contains(before.dependencies[j]));
                    }
                    lemma_filter_all(before.dependencies, p);
                }
                Ok(false)
            },
        }
    }

    /// The issues that block `issue_id`, in the order in which the edges were
    /// added.
    pub fn get_blockers(&self, issue_id: i64) -> (r: Result<Vec<i64>, DbError>)
        ensures
            r matches Ok(v) && ids_view(v@) == self@.blockers(issue_id as int),
    {
        let ghost deps = self@.dependencies;
        let ghost p = leads_to(issue_id as int);
        let ghost first = source();
        let mut out: Vec<i64> = Vec::new();
        assert(ids_view(out@) =~= deps.subrange(0, 0).filter(p).map_values(first)) by {
            reveal(Seq::filter);
        }
        let mut i: usize = 0;
        while i < self.dependencies.len()
            invariant
                i <= self.dependencies@.len(),
                deps == self@.dependencies,
                p == leads_to(issue_id as int),
                first == source(),
                ids_view(out@) == deps.subrange(0, i as int).filter(p).map_values(first),
            decreases self.dependencies@.len() - i,
        {
            let e = self.dependencies[i];
            proof {
                let done = deps.subrange(0, i as int);
                assert(deps.subrange(0, i + 1) =~= done.push(deps[i as int]));
                done.lemma_filter_push(deps[i as int], p);
                if p(deps[i as int]) {
                    assert(done.filter(p).push(deps[i as int]).map_values(first) =~= done.filter(
                        p,
                    ).map_values(first).push(e.0 as int));
                    assert(ids_view(out@.push(e.0)) =~= ids_view(out@).push(e.0 as int));
                }
            }
            if e.1 == issue_id {
                out.push(e.0);
            }
            i += 1;
        }
        assert(deps.subrange(0, i as int) =~= deps);
        Ok(out)
    }

    /// The issues that `issue_id` blocks, in the order in which the edges
    /// were added.
    pub fn get_blocking(&self, issue_id: i64) -> (r: Result<Vec<i64>, DbError>)
        ensures
            r matches Ok(v) && ids_view(v@) == self@.blocking(issue_id as int),
    {
        let ghost deps = self@.dependencies;
        let ghost p = leaves(issue_id as int);
        let ghost second = target();
        let mut out: Vec<i64> = Vec::new();
        assert(ids_view(out@) =~= deps.subrange(0, 0).filter(p).map_values(second)) by {
            reveal(Seq::filter);
        }
        let mut i: usize = 0;
        while i < self.dependencies.len()
            invariant
                i <= self.dependencies@.len(),
                deps == self@.dependencies,
                p == leaves(issue_id as int),
                second == target(),
                ids_view(out@) == deps.subrange(0, i as int).filter(p).map_values(second),
            decreases self.dependencies@.len() - i,
        {
            let e = self.dependencies[i];
            proof {
                let done = deps.subrange(0, i as int);
                assert(deps.subrange(0, i + 1) =~= done.push(deps[i as int]));
                done.lemma_filter_push(deps[i as int], p);
                if p(deps[i as int]) {
                    assert(done.filter(p).push(deps[i as int]).map_values(second) =~= done.filter(
                        p,
                    ).map_values(second).push(e.1 as int));
                    assert(ids_view(out@.push(e.1)) =~= ids_view(out@).push(e.1 as int));
                }
            }
            if e.0 == issue_id {
                out.push(e.1);
            }
            i += 1;
        }
        assert(deps.subrange(0, i as int) =~= deps);
        Ok(out)
    }

    /// Whether the issue `id` exists and is open.
    fn issue_is_open(&self, id: i64) -> (r: bool)
        requires
            self.wf(),
        ensures
            r == self@.is_open(id as int),
    {
        match self.issue_index(id) {
            Some(i) => text_eq(self.issues[i].status.as_str(), "open"),
            None => false,
        }
    }

    /// Whether some open issue blocks `id`.
    fn blocked_by_open(&self, id: i64) -> (r: bool)
        requires
            self.wf(),
        ensures
            r == self@.has_open_blocker(id as int),
    {
        let mut k: usize = 0;
        while k < self.dependencies.len()
            invariant
                self.wf(),
                k <= self.dependencies@.len(),
                forall|m: int|
                    0 <= m < k ==> !((#[trigger] self@.dependencies[m]).1 == id as int
                        && self@.is_open(self@.dependencies[m].0)),
            decreases self.dependencies@.len() - k,
        {
            let e = self.dependencies[k];
            if e.1 == id && self.issue_is_open(e.0) {
                assert(self@.dependencies[k as int] == (e.0 as int, e.1 as int));
                return true;
            }
            k += 1;
        }
        false
    }

    /// The open issues that some open issue blocks, by rising number.
    pub fn list_blocked_issues(&self) -> (r: Result<Vec<Issue>, DbError>)
        requires
            self.wf(),
        ensures
            r matches Ok(v) && rows_view(v@) == self@.blocked_issues(),
    {
        let ghost db = self@;
        let ghost all = self@.issues;
        let ghost p = |r: IssueView| r.status == status_open() && db.has_open_blocker(r.id);
        let mut out: Vec<Issue> = Vec::new();
        assert(rows_view(out@) =~= all.subrange(0, 0).filter(p)) by {
            reveal(Seq::filter);
        }
        let mut i: usize = 0;
        while i < self.issues.len()
            invariant
                self.wf(),
                i <= self.issues@.len(),
                db == self@,
                all == self@.issues,
                p == |r: IssueView| r.status == status_open() && db.has_open_blocker(r.id),
                rows_view(out@) == all.subrange(0, i as int).filter(p),
            decreases self.issues@.len() - i,
        {
            let row = &self.issues[i];
            let keep = text_eq(row.status.as_str(), "open") && self.blocked_by_open(row.id);
            assert(all.subrange(0, i + 1) =~= all.subrange(0, i as int).push(row@));
            keep_if(&mut out, row, keep, Ghost(all.subrange(0, i as int)), Ghost(p));
            i += 1;
        }
        assert(all.subrange(0, i as int) =~= all);
        Ok(out)
    }

    /// The open issues that no open issue blocks, by rising number. Only the
    /// issues that block an issue directly count: a chain becomes ready one
    /// link at a time.
    pub fn list_ready_issues(&self) -> (r: Result<Vec<Issue>, DbError>)
        requires
            self.wf(),
        ensures
            r matches Ok(v) && rows_view(v@) == self@.ready_issues(),
    {
        let ghost db = self@;
        let ghost all = self@.issues;
        let ghost p = |r: IssueView| r.status == status_open() && !db.has_open_blocker(r.id);
        let mut out: Vec<Issue> = Vec::new();
        assert(rows_view(out@) =~= all.subrange(0, 0).filter(p)) by {
            reveal(Seq::filter);
        }
        let mut i: usize = 0;
        while i < self.issues.len()
            invariant
                self.wf(),
                i <= self.issues@.len(),
                db == self@,
                all == self@.issues,
                p == |r: IssueView| r.status == status_open() && !db.has_open_blocker(r.id),
                rows_view(out@) == all.subrange(0, i as int).filter(p),
            decreases self.issues@.len() - i,
        {
            let row = &self.issues[i];
            let keep = text_eq(row.status.as_str(), "open") && !self.blocked_by_open(row.id);
            assert(all.subrange(0, i + 1) =~= all.subrange(0, i as int).push(row@));
            keep_if(&mut out, row, keep, Ghost(all.subrange(0, i as int)), Ghost(p));
            i += 1;
        }
        assert(all.subrange(0, i as int) =~= all);
        Ok(out)
    }
}

} // verus!
