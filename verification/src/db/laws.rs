//! What holds of the store's operations taken together.

use vstd::prelude::*;

use crate::clock::Timestamp;
use crate::db::delete::{has_parent, parent_link, released};
use crate::db::issues::{lemma_issue_at, lemma_issue_row, lemma_push_issue_keeps_rules};
use crate::db::lifecycle::{lemma_change_keeps_rules, lemma_change_row};
use crate::db::{
    issue_ids, lemma_statuses_differ, lifecycle_ok, status_closed, status_open, DbError, DbView,
};
use crate::graph::{acyclic, lemma_acyclic_add, lemma_reaches_extend, lemma_reaches_self, reaches};
use crate::models::IssueView;
use crate::db::delete::lemma_without_issues;

verus! {

/// An issue that was just created is found under its number with the title,
/// description and priority it was given, open, and without a closing time.
pub proof fn law_create_then_get(
    v: DbView,
    title: Seq<char>,
    description: Option<Seq<char>>,
    priority: Seq<char>,
    parent_id: Option<int>,
    now: Timestamp,
)
    requires
        v.wf(),
        v.can_create_issue(),
    ensures
        v.create_issue(title, description, priority, parent_id, now).find_issue(
            v.last_issue_id + 1,
        ) == Some(
            IssueView {
                id: v.last_issue_id + 1,
                title,
                description,
                status: status_open(),
                priority,
                parent_id,
                created_at: now,
                updated_at: now,
                closed_at: None,
            },
        ),
{
    let w = v.create_issue(title, description, priority, parent_id, now);
    let row = w.issues[w.issues.len() - 1];
    lemma_push_issue_keeps_rules(v, row);
    lemma_issue_at(w, w.issues.len() - 1);
}

/// What `change` makes of the issue `id` is what is found under `id`
/// afterwards, where `change` keeps the number.
pub proof fn lemma_find_changed(v: DbView, id: int, change: spec_fn(IssueView) -> IssueView)
    requires
        v.wf(),
        v.has_issue(id),
        forall|r: IssueView| (#[trigger] change(r)).id == r.id && lifecycle_ok(change(r)),
    ensures
        v.change_issue(id, change).wf(),
        v.find_issue(id) is Some,
        v.change_issue(id, change).find_issue(id) == Some(change(v.find_issue(id)->0)),
        forall|x: int| x != id ==> v.change_issue(id, change).find_issue(x) == v.find_issue(x),
{
    let w = v.change_issue(id, change);
    let i = lemma_issue_row(v, id);
    lemma_issue_at(v, i);
    lemma_change_row(v, i, change);
    lemma_change_keeps_rules(v, w);
    lemma_issue_at(w, i);
    assert forall|x: int| x != id implies w.find_issue(x) == v.find_issue(x) by {
        if v.has_issue(x) {
            let j = lemma_issue_row(v, x);
            lemma_issue_at(v, j);
            lemma_issue_at(w, j);
        }
    }
}

/// Closing an issue and opening it again leaves it open and without a
/// closing time, with its title, description, priority and parent as they
/// were.
pub proof fn law_close_then_reopen(v: DbView, id: int, closed_at: Timestamp, reopened_at: Timestamp)
    requires
        v.wf(),
        v.has_issue(id),
    ensures
        v.find_issue(id) is Some,
        v.close_issue(id, closed_at).reopen_issue(id, reopened_at).find_issue(id) == Some(
            IssueView {
                status: status_open(),
                closed_at: None,
                updated_at: reopened_at,
                ..v.find_issue(id)->0
            },
        ),
{
    let close = |r: IssueView|
        IssueView { status: status_closed(), closed_at: Some(closed_at), updated_at: closed_at, ..r };
    let reopen = |r: IssueView|
        IssueView { status: status_open(), closed_at: None, updated_at: reopened_at, ..r };
    let mid = v.close_issue(id, closed_at);
    assert(mid.issues =~= v.change_issue(id, close).issues);
    lemma_find_changed(v, id, close);
    assert(mid.reopen_issue(id, reopened_at).issues =~= mid.change_issue(id, reopen).issues);
    lemma_find_changed(mid, id, reopen);
}

/// A dependency that would close a cycle is refused, and the store stays as
/// it was: where `blocked` already blocks `blocker`, directly or through
/// other issues, `add_dependency` fails.
pub proof fn law_cycle_is_refused(v: DbView, blocked: int, blocker: int)
    requires
        v.wf(),
        reaches(v.dependencies, blocked, blocker),
    ensures
        v.add_dependency_result(blocked, blocker) is Err,
        v.add_dependency_result(blocked, blocker) == Err::<bool, DbError>(
            if blocked == blocker {
                DbError::SelfDependency
            } else {
                DbError::CircularDependency
            },
        ),
        v.add_dependency(blocked, blocker) == v,
{
}

/// Whatever dependency is asked for, the dependencies have no cycle
/// afterwards.
pub proof fn law_dependencies_stay_acyclic(v: DbView, blocked: int, blocker: int)
    requires
        v.wf(),
    ensures
        acyclic(v.add_dependency(blocked, blocker).dependencies),
{
    if v.add_dependency_result(blocked, blocker) == Ok::<bool, DbError>(true) {
        lemma_acyclic_add(v.dependencies, blocker, blocked);
    }
}

impl DbView {
    /// Whether the issue `id` is open and no open issue blocks it.
    pub open spec fn is_ready(self, id: int) -> bool {
        self.is_open(id) && !self.has_open_blocker(id)
    }
}

/// The ready issues are the open issues that no open issue blocks.
pub proof fn law_ready_issues_are_ready(v: DbView, id: int)
    requires
        v.wf(),
    ensures
        v.is_ready(id) <==> exists|i: int|
            0 <= i < v.ready_issues().len() && (#[trigger] v.ready_issues()[i]).id == id,
{
    let p = |r: IssueView| r.status == status_open() && !v.has_open_blocker(r.id);
    crate::seqs::lemma_filter_members(v.issues, p);
    if v.is_ready(id) {
        let i = lemma_issue_row(v, id);
        lemma_issue_at(v, i);
        assert(v.issues.contains(v.issues[i]));
        assert(v.ready_issues().contains(v.issues[i]));
        let k = choose|k: int| 0 <= k < v.ready_issues().len() && v.ready_issues()[k] == v.issues[i];
        assert(v.ready_issues()[k].id == id);
    }
    if exists|i: int| 0 <= i < v.ready_issues().len() && (#[trigger] v.ready_issues()[i]).id == id {
        let k = choose|k: int| 0 <= k < v.ready_issues().len() && (#[trigger] v.ready_issues()[k]).id == id;
        let r = v.ready_issues()[k];
        assert(v.ready_issues().contains(r));
        assert(v.issues.contains(r));
        let i = choose|i: int| 0 <= i < v.issues.len() && v.issues[i] == r;
        lemma_issue_at(v, i);
    }
}

/// After an issue was closed, it is not open, and every other issue is open
/// exactly where it was before.
pub proof fn lemma_open_after_close(v: DbView, x: int, now: Timestamp)
    requires
        v.wf(),
    ensures
        v.close_issue(x, now).wf(),
        !v.close_issue(x, now).is_open(x),
        forall|y: int| y != x ==> v.close_issue(x, now).is_open(y) == v.is_open(y),
{
    let close = |r: IssueView|
        IssueView { status: status_closed(), closed_at: Some(now), updated_at: now, ..r };
    let w = v.close_issue(x, now);
    assert(w.issues =~= v.change_issue(x, close).issues);
    lemma_statuses_differ();
    if v.has_issue(x) {
        lemma_find_changed(v, x, close);
    } else {
        crate::db::lifecycle::lemma_change_absent(v, x, close);
    }
}

/// Closing an issue never takes another issue out of the ready ones.
pub proof fn law_closing_keeps_ready(v: DbView, x: int, y: int, now: Timestamp)
    requires
        v.wf(),
        y != x,
        v.is_ready(y),
    ensures
        v.close_issue(x, now).is_ready(y),
{
    let w = v.close_issue(x, now);
    lemma_open_after_close(v, x, now);
    if w.has_open_blocker(y) {
        let k = choose|k: int|
            0 <= k < w.dependencies.len() && (#[trigger] w.dependencies[k]).1 == y && w.is_open(
                w.dependencies[k].0,
            );
        assert(v.dependencies[k].1 == y);
        assert(v.is_open(v.dependencies[k].0));
    }
}

/// An open issue whose only open blocker is `x` is ready once `x` is closed:
/// a chain becomes ready one link at a time.
pub proof fn law_closing_last_blocker_readies(v: DbView, x: int, y: int, now: Timestamp)
    requires
        v.wf(),
        y != x,
        v.is_open(y),
        forall|k: int|
            0 <= k < v.dependencies.len() && (#[trigger] v.dependencies[k]).1 == y && v.is_open(
                v.dependencies[k].0,
            ) ==> v.dependencies[k].0 == x,
    ensures
        v.close_issue(x, now).is_ready(y),
{
    let w = v.close_issue(x, now);
    lemma_open_after_close(v, x, now);
    if w.has_open_blocker(y) {
        let k = choose|k: int|
            0 <= k < w.dependencies.len() && (#[trigger] w.dependencies[k]).1 == y && w.is_open(
                w.dependencies[k].0,
            );
        assert(v.dependencies[k].1 == y);
        if v.dependencies[k].0 != x {
            assert(v.is_open(v.dependencies[k].0));
        }
    }
}

/// An issue that some open issue blocks is not ready.
pub proof fn law_blocked_is_not_ready(v: DbView, blocker: int, blocked: int)
    requires
        v.wf(),
        v.dependencies.contains((blocker, blocked)),
        v.is_open(blocker),
    ensures
        !v.is_ready(blocked),
{
    let k = choose|k: int| 0 <= k < v.dependencies.len() && v.dependencies[k] == (blocker, blocked);
    assert(v.dependencies[k].1 == blocked);
}

/// The subissues of an issue belong to its family.
pub proof fn lemma_child_in_family(v: DbView, id: int, i: int)
    requires
        0 <= i < v.issues.len(),
        v.issues[i].parent_id == Some(id),
    ensures
        v.family(id).contains(id),
        v.family(id).contains(v.issues[i].id),
{
    let links = v.parent_links();
    let with_parent = v.issues.filter(has_parent());
    lemma_reaches_self(links, id);
    v.issues.lemma_filter_contains(has_parent(), i);
    let k = choose|k: int| 0 <= k < with_parent.len() && with_parent[k] == v.issues[i];
    assert(links[k] == (id, v.issues[i].id));
    assert(links.contains((id, v.issues[i].id)));
    lemma_reaches_extend(links, id, id, v.issues[i].id);
}

/// Deleting an issue leaves neither the issue nor any of its subissues.
pub proof fn law_delete_takes_subissues(v: DbView, id: int, i: int)
    requires
        v.wf(),
        v.has_issue(id),
        0 <= i < v.issues.len(),
        v.issues[i].parent_id == Some(id),
    ensures
        !v.delete_issue(id).has_issue(id),
        !v.delete_issue(id).has_issue(v.issues[i].id),
{
    lemma_child_in_family(v, id, i);
    lemma_without_issues(v, v.family(id));
}

/// Deleting an issue leaves every session in place, and a session that
/// worked on the issue works on none; no session is left that names an issue
/// which is gone.
pub proof fn law_delete_releases_sessions(v: DbView, id: int, k: int)
    requires
        v.wf(),
        v.has_issue(id),
        0 <= k < v.sessions.len(),
    ensures
        v.delete_issue(id).sessions.len() == v.sessions.len(),
        v.delete_issue(id).sessions[k].id == v.sessions[k].id,
        v.sessions[k].active_issue_id == Some(id) ==> v.delete_issue(id).sessions[k].active_issue_id
            is None,
        v.delete_issue(id).sessions[k].active_issue_id matches Some(x) ==> v.delete_issue(
            id,
        ).has_issue(x),
{
    let gone = v.family(id);
    let w = v.delete_issue(id);
    lemma_reaches_self(v.parent_links(), id);
    assert(gone.contains(id));
    assert(w.sessions[k] == released(v.sessions[k], gone));
    crate::db::delete::lemma_without_keeps_rules(v, gone);
    assert(crate::db::session_ref_ok(w.sessions[k], issue_ids(w.issues)));
}

/// Deleting an issue takes away the issues of its family and no others.
pub proof fn law_delete_takes_exactly_the_family(v: DbView, id: int, x: int)
    requires
        v.wf(),
        v.has_issue(id),
    ensures
        v.delete_issue(id).has_issue(x) <==> v.has_issue(x) && !v.family(id).contains(x),
{
    lemma_without_issues(v, v.family(id));
}

/// A number that was given out is not given out again, whatever is deleted:
/// deleting leaves the largest number given out as it was, and a new issue
/// gets the next one.
pub proof fn law_numbers_are_not_reused(
    v: DbView,
    id: int,
    title: Seq<char>,
    priority: Seq<char>,
    now: Timestamp,
    i: int,
)
    requires
        v.wf(),
        0 <= i < v.issues.len(),
    ensures
        v.delete_issue(id).last_issue_id == v.last_issue_id,
        v.issues[i].id < v.delete_issue(id).create_issue(title, None, priority, None, now).issues.last().id,
{
}

} // verus!
