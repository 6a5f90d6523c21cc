//! Deleting an issue, and what goes with it: its subissues and theirs, and
//! every row that names one of them.

use vstd::prelude::*;

use crate::db::issues::keep_if;
use crate::db::{
    comments_wf, dependencies_wf, issue_ids, issues_wf, labels_wf, lifecycle_ok, memberships_wf,
    milestone_ids, relations_wf, rows_view, session_ref_ok, sessions_wf, time_entries_wf, Database,
    DbError, DbView,
};
use crate::graph::{
    acyclic, contains_id, edges_view, lemma_acyclic_subset, lemma_reaches_self, reachable_from,
    reaches,
};
use crate::models::{
    Comment, CommentView, Issue, IssueView, Label, LabelView, Relation, RelationView, SessionView,
    TimeEntry, TimeEntryView,
};
use crate::seqs::{
    lemma_filter_keeps_each, lemma_filter_keeps_order, lemma_filter_members, lemma_filter_order,
};

verus! {

/// The test that an issue has a parent.
pub open spec fn has_parent() -> spec_fn(IssueView) -> bool {
    |r: IssueView| r.parent_id is Some
}

/// The edge from an issue's parent to the issue.
pub open spec fn parent_link() -> spec_fn(IssueView) -> (int, int) {
    |r: IssueView| (r.parent_id->0, r.id)
}

/// The test that neither end of an edge is in `gone`.
pub open spec fn both_outside(gone: Set<int>) -> spec_fn((int, int)) -> bool {
    |e: (int, int)| !gone.contains(e.0) && !gone.contains(e.1)
}

/// The test that the issue of a membership is not in `gone`.
pub open spec fn member_outside(gone: Set<int>) -> spec_fn((int, int)) -> bool {
    |m: (int, int)| !gone.contains(m.1)
}

/// A session that no longer works on an issue in `gone`.
pub open spec fn released(s: SessionView, gone: Set<int>) -> SessionView {
    if s.active_issue_id is Some && gone.contains(s.active_issue_id->0) {
        SessionView { active_issue_id: None, ..s }
    } else {
        s
    }
}

impl DbView {
    /// The edges from each parent to its subissues.
    pub open spec fn parent_links(self) -> Seq<(int, int)> {
        self.issues.filter(has_parent()).map_values(parent_link())
    }

    /// The issue `id` with its subissues, their subissues, and so on.
    pub open spec fn family(self, id: int) -> Set<int> {
        Set::new(|x: int| reaches(self.parent_links(), id, x))
    }

    /// The store without the issues in `gone` and without the rows that name
    /// one of them; a session that worked on one of them works on none.
    pub open spec fn without(self, gone: Set<int>) -> DbView {
        DbView {
            issues: self.issues.filter(|r: IssueView| !gone.contains(r.id)),
            labels: self.labels.filter(|l: LabelView| !gone.contains(l.issue_id)),
            dependencies: self.dependencies.filter(both_outside(gone)),
            comments: self.comments.filter(|c: CommentView| !gone.contains(c.issue_id)),
            sessions: self.sessions.map_values(|s: SessionView| released(s, gone)),
            time_entries: self.time_entries.filter(|e: TimeEntryView| !gone.contains(e.issue_id)),
            relations: self.relations.filter(
                |r: RelationView| !gone.contains(r.issue_id_1) && !gone.contains(r.issue_id_2),
            ),
            memberships: self.memberships.filter(member_outside(gone)),
            ..self
        }
    }

    /// The store after the issue `id` was deleted with its family; unchanged
    /// where there is no such issue.
    pub open spec fn delete_issue(self, id: int) -> DbView {
        if self.has_issue(id) {
            self.without(self.family(id))
        } else {
            self
        }
    }
}

/// An issue that stays is an issue that was there and is not in `gone`.
pub proof fn lemma_without_issues(v: DbView, gone: Set<int>)
    ensures
        forall|x: int| v.without(gone).has_issue(x) <==> v.has_issue(x) && !gone.contains(x),
{
    let w = v.without(gone);
    let p = |r: IssueView| !gone.contains(r.id);
    let at = lemma_filter_order(v.issues, p);
    let old_ids = issue_ids(v.issues);
    let new_ids = issue_ids(w.issues);
    assert forall|x: int| w.has_issue(x) <==> v.has_issue(x) && !gone.contains(x) by {
        if w.has_issue(x) {
            let k = choose|k: int| 0 <= k < new_ids.len() && new_ids[k] == x;
            assert(w.issues[k].id == x);
            v.issues.lemma_filter_pred(p, k);
            assert(old_ids[at[k]] == x);
        }
        if v.has_issue(x) && !gone.contains(x) {
            let m = choose|m: int| 0 <= m < old_ids.len() && old_ids[m] == x;
            assert(v.issues[m].id == x);
            v.issues.lemma_filter_contains(p, m);
            let k = choose|k: int| 0 <= k < w.issues.len() && w.issues[k] == v.issues[m];
            assert(new_ids[k] == x);
        }
    }
}

/// Taking issues away, with every row that names one of them, keeps the
/// rules.
pub proof fn lemma_without_keeps_rules(v: DbView, gone: Set<int>)
    requires
        v.wf(),
    ensures
        v.without(gone).wf(),
{
    let w = v.without(gone);
    let ids = issue_ids(v.issues);
    let new_ids = issue_ids(w.issues);
    lemma_without_issues(v, gone);
    assert forall|x: int| ids.contains(x) && !gone.contains(x) implies new_ids.contains(x) by {
        assert(v.has_issue(x));
        assert(w.has_issue(x));
    }
    // issues
    let keep_issue = |r: IssueView| !gone.contains(r.id);
    lemma_filter_keeps_order(v.issues, keep_issue, |a: IssueView, b: IssueView| a.id < b.id);
    lemma_filter_keeps_each(
        v.issues,
        keep_issue,
        |r: IssueView| 1 <= r.id <= v.last_issue_id && lifecycle_ok(r),
    );
    assert(issues_wf(w.issues, w.last_issue_id));
    // labels
    let keep_label = |l: LabelView| !gone.contains(l.issue_id);
    lemma_filter_keeps_order(v.labels, keep_label, |a: LabelView, b: LabelView| a != b);
    lemma_filter_keeps_each(v.labels, keep_label, |l: LabelView| ids.contains(l.issue_id));
    assert(labels_wf(w.labels, new_ids));
    // dependencies
    let keep_edge = both_outside(gone);
    lemma_filter_keeps_order(v.dependencies, keep_edge, |a: (int, int), b: (int, int)| a != b);
    lemma_filter_keeps_each(
        v.dependencies,
        keep_edge,
        |e: (int, int)| ids.contains(e.0) && ids.contains(e.1),
    );
    lemma_filter_members(v.dependencies, keep_edge);
    lemma_acyclic_subset(w.dependencies, v.dependencies);
    assert(w.dependencies.no_duplicates()) by {
        assert forall|i: int, j: int|
            0 <= i < w.dependencies.len() && 0 <= j < w.dependencies.len() && i
                != j implies w.dependencies[i] != w.dependencies[j] by {
            if i < j {
                assert(w.dependencies[i] != w.dependencies[j]);
            } else {
                assert(w.dependencies[j] != w.dependencies[i]);
            }
        }
    }
    assert(dependencies_wf(w.dependencies, new_ids));
    // comments
    let keep_comment = |c: CommentView| !gone.contains(c.issue_id);
    lemma_filter_keeps_order(v.comments, keep_comment, |a: CommentView, b: CommentView| a.id < b.id);
    lemma_filter_keeps_each(
        v.comments,
        keep_comment,
        |c: CommentView| 1 <= c.id <= v.last_comment_id && ids.contains(c.issue_id),
    );
    assert(comments_wf(w.comments, w.last_comment_id, new_ids));
    // sessions
    assert forall|i: int, j: int| 0 <= i < j < w.sessions.len() implies (#[trigger] w.sessions[i]).id
        < (#[trigger] w.sessions[j]).id by {
        assert(v.sessions[i].id < v.sessions[j].id);
    }
    assert forall|i: int| 0 <= i < w.sessions.len() implies 1 <= (#[trigger] w.sessions[i]).id
        <= w.last_session_id && session_ref_ok(w.sessions[i], new_ids) by {
        assert(1 <= v.sessions[i].id <= v.last_session_id && session_ref_ok(v.sessions[i], ids));
    }
    assert(sessions_wf(w.sessions, w.last_session_id, new_ids));
    // time entries
    let keep_entry = |e: TimeEntryView| !gone.contains(e.issue_id);
    lemma_filter_keeps_order(
        v.time_entries,
        keep_entry,
        |a: TimeEntryView, b: TimeEntryView| a.id < b.id,
    );
    lemma_filter_keeps_each(
        v.time_entries,
        keep_entry,
        |e: TimeEntryView| 1 <= e.id <= v.last_time_entry_id && ids.contains(e.issue_id),
    );
    assert(time_entries_wf(w.time_entries, w.last_time_entry_id, new_ids));
    // relations
    let keep_relation = |r: RelationView|
        !gone.contains(r.issue_id_1) && !gone.contains(r.issue_id_2);
    lemma_filter_keeps_order(
        v.relations,
        keep_relation,
        |a: RelationView, b: RelationView|
            !(a.issue_id_1 == b.issue_id_1 && a.issue_id_2 == b.issue_id_2),
    );
    lemma_filter_keeps_each(
        v.relations,
        keep_relation,
        |r: RelationView|
            r.issue_id_1 < r.issue_id_2 && ids.contains(r.issue_id_1) && ids.contains(r.issue_id_2),
    );
    assert(relations_wf(w.relations, new_ids));
    // memberships
    let keep_member = member_outside(gone);
    let mids = milestone_ids(v.milestones);
    lemma_filter_keeps_order(v.memberships, keep_member, |a: (int, int), b: (int, int)| a != b);
    lemma_filter_keeps_each(
        v.memberships,
        keep_member,
        |m: (int, int)| mids.contains(m.0) && ids.contains(m.1),
    );
    assert(w.memberships.no_duplicates()) by {
        assert forall|i: int, j: int|
            0 <= i < w.memberships.len() && 0 <= j < w.memberships.len() && i
                != j implies w.memberships[i] != w.memberships[j] by {
            if i < j {
                assert(w.memberships[i] != w.memberships[j]);
            } else {
                assert(w.memberships[j] != w.memberships[i]);
            }
        }
    }
    assert(memberships_wf(w.memberships, mids, new_ids));
}

/// The pairs of `rows` that pass `keep`, which says of each end whether it is
/// in `gone`.
fn select_pairs(
    rows: &Vec<(i64, i64)>,
    gone: &Vec<i64>,
    both: bool,
    Ghost(set): Ghost<Set<int>>,
) -> (out: Vec<(i64, i64)>)
    requires
        forall|x: i64| gone@.contains(x) <==> set.contains(x as int),
    ensures
        edges_view(out@) == edges_view(rows@).filter(
            if both {
                both_outside(set)
            } else {
                member_outside(set)
            },
        ),
{
    let ghost all = edges_view(rows@);
    let ghost p = if both {
        both_outside(set)
    } else {
        member_outside(set)
    };
    let mut out: Vec<(i64, i64)> = Vec::new();
    assert(edges_view(out@) =~= all.subrange(0, 0).filter(p)) by {
        reveal(Seq::filter);
    }
    let mut i: usize = 0;
    while i < rows.len()
        invariant
            i <= rows@.len(),
            all == edges_view(rows@),
            p == if both {
                both_outside(set)
            } else {
                member_outside(set)
            },
            forall|x: i64| gone@.contains(x) <==> set.contains(x as int),
            edges_view(out@) == all.subrange(0, i as int).filter(p),
        decreases rows@.len() - i,
    {
        let e = rows[i];
        let keep = if both {
            !contains_id(gone, e.0) && !contains_id(gone, e.1)
        } else {
            !contains_id(gone, e.1)
        };
        proof {
            let done = all.subrange(0, i as int);
            assert(all.subrange(0, i + 1) =~= done.push(all[i as int]));
            done.lemma_filter_push(all[i as int], p);
            assert(all[i as int] == (e.0 as int, e.1 as int));
            assert(keep == p(all[i as int]));
            assert(edges_view(out@.push(e)) =~= edges_view(out@).push(all[i as int]));
        }
        if keep {
            out.push(e);
        }
        i += 1;
    }
    assert(all.subrange(0, i as int) =~= all);
    out
}

impl Database {
    /// The edges from each parent to its subissues.
    fn parent_links(&self) -> (links: Vec<(i64, i64)>)
        ensures
            edges_view(links@) == self@.parent_links(),
    {
        let ghost all = self@.issues;
        let mut links: Vec<(i64, i64)> = Vec::new();
        assert(edges_view(links@) =~= all.subrange(0, 0).filter(has_parent()).map_values(
            parent_link(),
        )) by {
            reveal(Seq::filter);
        }
        let mut i: usize = 0;
        while i < self.issues.len()
            invariant
                i <= self.issues@.len(),
                all == self@.issues,
                edges_view(links@) == all.subrange(0, i as int).filter(has_parent()).map_values(
                    parent_link(),
                ),
            decreases self.issues@.len() - i,
        {
            let row = &self.issues[i];
            proof {
                let done = all.subrange(0, i as int);
                assert(all.subrange(0, i + 1) =~= done.push(row@));
                done.lemma_filter_push(row@, has_parent());
                if row@.parent_id is Some {
                    assert(done.filter(has_parent()).push(row@).map_values(parent_link())
                        =~= done.filter(has_parent()).map_values(parent_link()).push(
                        (row@.parent_id->0, row@.id),
                    ));
                }
            }
            if let Some(parent) = row.parent_id {
                let link = (parent, row.id);
                proof {
                    assert(edges_view(links@.push(link)) =~= edges_view(links@).push(
                        (parent as int, row.id as int),
                    ));
                }
                links.push(link);
            }
            i += 1;
        }
        assert(all.subrange(0, i as int) =~= all);
        links
    }

    /// Takes the issues in `gone` away with every row that names one of
    /// them.
    fn remove_issues(&mut self, gone: &Vec<i64>, Ghost(set): Ghost<Set<int>>)
        requires
            old(self).wf(),
            forall|x: i64| gone@.contains(x) <==> set.contains(x as int),
        ensures
            final(self).wf(),
            final(self)@ == old(self)@.without(set),
    {
        let ghost before = old(self)@;
        // issues
        let ghost keep_issue = |r: IssueView| !set.contains(r.id);
        let mut issues: Vec<Issue> = Vec::new();
        assert(rows_view(issues@) =~= before.issues.subrange(0, 0).filter(keep_issue)) by {
            reveal(Seq::filter);
        }
        let mut i: usize = 0;
        while i < self.issues.len()
            invariant
                i <= self.issues@.len(),
                self@ == before,
                keep_issue == |r: IssueView| !set.contains(r.id),
                forall|x: i64| gone@.contains(x) <==> set.contains(x as int),
                rows_view(issues@) == before.issues.subrange(0, i as int).filter(keep_issue),
            decreases self.issues@.len() - i,
        {
            let row = &self.issues[i];
            let keep = !contains_id(gone, row.id);
            assert(before.issues.subrange(0, i + 1) =~= before.issues.subrange(0, i as int).push(
                row@,
            ));
            keep_if(&mut issues, row, keep, Ghost(before.issues.subrange(0, i as int)), Ghost(keep_issue));
            i += 1;
        }
        assert(before.issues.subrange(0, i as int) =~= before.issues);
        // labels
        let ghost keep_label = |l: LabelView| !set.contains(l.issue_id);
        let mut labels: Vec<Label> = Vec::new();
        assert(rows_view(labels@) =~= before.labels.subrange(0, 0).filter(keep_label)) by {
            reveal(Seq::filter);
        }
        i = 0;
        while i < self.labels.len()
            invariant
                i <= self.labels@.len(),
                self@ == before,
                keep_label == |l: LabelView| !set.contains(l.issue_id),
                forall|x: i64| gone@.contains(x) <==> set.contains(x as int),
                rows_view(labels@) == before.labels.subrange(0, i as int).filter(keep_label),
            decreases self.labels@.len() - i,
        {
            let row = &self.labels[i];
            let keep = !contains_id(gone, row.issue_id);
            assert(before.labels.subrange(0, i + 1) =~= before.labels.subrange(0, i as int).push(
                row@,
            ));
            keep_if(&mut labels, row, keep, Ghost(before.labels.subrange(0, i as int)), Ghost(keep_label));
            i += 1;
        }
        assert(before.labels.subrange(0, i as int) =~= before.labels);
        // comments
        let ghost keep_comment = |c: CommentView| !set.contains(c.issue_id);
        let mut comments: Vec<Comment> = Vec::new();
        assert(rows_view(comments@) =~= before.comments.subrange(0, 0).filter(keep_comment)) by {
            reveal(Seq::filter);
        }
        i = 0;
        while i < self.comments.len()
            invariant
                i <= self.comments@.len(),
                self@ == before,
                keep_comment == |c: CommentView| !set.contains(c.issue_id),
                forall|x: i64| gone@.contains(x) <==> set.contains(x as int),
                rows_view(comments@) == before.comments.subrange(0, i as int).filter(keep_comment),
            decreases self.comments@.len() - i,
        {
            let row = &self.comments[i];
            let keep = !contains_id(gone, row.issue_id);
            assert(before.comments.subrange(0, i + 1) =~= before.comments.subrange(
                0,
                i as int,
            ).push(row@));
            keep_if(
                &mut comments,
                row,
                keep,
                Ghost(before.comments.subrange(0, i as int)),
                Ghost(keep_comment),
            );
            i += 1;
        }
        assert(before.comments.subrange(0, i as int) =~= before.comments);
        // time entries
        let ghost keep_entry = |e: TimeEntryView| !set.contains(e.issue_id);
        let mut entries: Vec<TimeEntry> = Vec::new();
        assert(rows_view(entries@) =~= before.time_entries.subrange(0, 0).filter(keep_entry)) by {
            reveal(Seq::filter);
        }
        i = 0;
        while i < self.time_entries.len()
            invariant
                i <= self.time_entries@.len(),
                self@ == before,
                keep_entry == |e: TimeEntryView| !set.contains(e.issue_id),
                forall|x: i64| gone@.contains(x) <==> set.contains(x as int),
                rows_view(entries@) == before.time_entries.subrange(0, i as int).filter(keep_entry),
            decreases self.time_entries@.len() - i,
        {
            let row = &self.time_entries[i];
            let keep = !contains_id(gone, row.issue_id);
            assert(before.time_entries.subrange(0, i + 1) =~= before.time_entries.subrange(
                0,
                i as int,
            ).push(row@));
            keep_if(
                &mut entries,
                row,
                keep,
                Ghost(before.time_entries.subrange(0, i as int)),
                Ghost(keep_entry),
            );
            i += 1;
        }
        assert(before.time_entries.subrange(0, i as int) =~= before.time_entries);
        // relations
        let ghost keep_relation = |r: RelationView|
            !set.contains(r.issue_id_1) && !set.contains(r.issue_id_2);
        let mut relations: Vec<Relation> = Vec::new();
        assert(rows_view(relations@) =~= before.relations.subrange(0, 0).filter(keep_relation)) by {
            reveal(Seq::filter);
        }
        i = 0;
        while i < self.relations.len()
            invariant
                i <= self.relations@.len(),
                self@ == before,
                keep_relation == |r: RelationView|
                    !set.contains(r.issue_id_1) && !set.contains(r.issue_id_2),
                forall|x: i64| gone@.contains(x) <==> set.contains(x as int),
                rows_view(relations@) == before.relations.subrange(0, i as int).filter(
                    keep_relation,
                ),
            decreases self.relations@.len() - i,
        {
            let row = &self.relations[i];
            let keep = !contains_id(gone, row.issue_id_1) && !contains_id(gone, row.issue_id_2);
            assert(before.relations.subrange(0, i + 1) =~= before.relations.subrange(
                0,
                i as int,
            ).push(row@));
            keep_if(
                &mut relations,
                row,
                keep,
                Ghost(before.relations.subrange(0, i as int)),
                Ghost(keep_relation),
            );
            i += 1;
        }
        assert(before.relations.subrange(0, i as int) =~= before.relations);
        // dependencies and memberships
        let dependencies = select_pairs(&self.dependencies, gone, true, Ghost(set));
        let memberships = select_pairs(&self.memberships, gone, false, Ghost(set));
        // sessions
        i = 0;
        while i < self.sessions.len()
            invariant
                i <= self.sessions@.len(),
                self@ == (DbView { sessions: self@.sessions, ..before }),
                self@.sessions.len() == before.sessions.len(),
                forall|x: i64| gone@.contains(x) <==> set.contains(x as int),
                forall|j: int|
                    0 <= j < i ==> #[trigger] self@.sessions[j] == released(before.sessions[j], set),
                forall|j: int|
                    i <= j < before.sessions.len() ==> #[trigger] self@.sessions[j]
                        == before.sessions[j],
            decreases self.sessions@.len() - i,
        {
            let ghost prev = self@.sessions;
            assert(prev[i as int] == before.sessions[i as int]);
            let release = match self.sessions[i].active_issue_id {
                Some(x) => contains_id(gone, x),
                None => false,
            };
            if release {
                self.sessions[i].active_issue_id = None;
                assert(self@.sessions[i as int] == released(before.sessions[i as int], set));
                assert(self@.sessions =~= prev.update(
                    i as int,
                    released(before.sessions[i as int], set),
                ));
            }
            assert forall|j: int| 0 <= j < i + 1 implies #[trigger] self@.sessions[j] == released(
                before.sessions[j],
                set,
            ) by {
                if j < i {
                    assert(prev[j] == released(before.sessions[j], set));
                } else {
                    assert(prev[j] == before.sessions[j]);
                }
            }
            assert forall|j: int| i + 1 <= j < before.sessions.len() implies #[trigger] self@.sessions[j]
                == before.sessions[j] by {
                assert(prev[j] == before.sessions[j]);
            }
            i += 1;
        }
        self.issues = issues;
        self.labels = labels;
        self.comments = comments;
        self.time_entries = entries;
        self.relations = relations;
        self.dependencies = dependencies;
        self.memberships = memberships;
        proof {
            let after = before.without(set);
            assert(self@.sessions =~= after.sessions);
            assert(self@ == after);
            lemma_without_keeps_rules(before, set);
        }
    }

    /// Deletes the issue `id` with its subissues, their subissues and so on,
    /// and with every label, comment, dependency, relation, membership and
    /// time entry of any of them; a session that worked on one of them works
    /// on none. Says whether there was such an issue.
    pub fn delete_issue(&mut self, id: i64) -> (r: Result<bool, DbError>)
        requires
            old(self).wf(),
        ensures
            final(self).wf(),
            r == Ok::<bool, DbError>(old(self)@.has_issue(id as int)),
            final(self)@ == old(self)@.delete_issue(id as int),
    {
        if self.issue_index(id).is_none() {
            return Ok(false);
        }
        let links = self.parent_links();
        let gone = reachable_from(&links, id);
        let ghost set = self@.family(id as int);
        self.remove_issues(&gone, Ghost(set));
        Ok(true)
    }
}

} // verus!
