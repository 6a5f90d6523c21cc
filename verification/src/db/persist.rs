//! Taking the store's rows out and putting them back, for a caller that
//! keeps them somewhere else between runs.

use vstd::prelude::*;

use crate::db::transaction::{copy_pairs, copy_rows};
use crate::db::{
    comments_wf, dependencies_wf, issue_ids, issues_wf, labels_wf, lifecycle_ok, memberships_wf,
    milestone_ids, milestones_wf, relations_wf, rows_view, session_ref_ok, sessions_wf,
    time_entries_wf, Database, DbView,
};
use crate::graph::{contains_id, edges_view, is_acyclic};
use crate::models::{Comment, Issue, Label, Milestone, Relation, Session, TimeEntry};
use crate::text::text_eq;

verus! {

/// The rows of a store, table by table, with the largest number that each
/// numbered table has given out.
#[derive(Debug, Clone, PartialEq)]
pub struct Tables {
    pub issues: Vec<Issue>,
    pub last_issue_id: i64,
    pub labels: Vec<Label>,
    /// The pairs (blocker, blocked).
    pub dependencies: Vec<(i64, i64)>,
    pub comments: Vec<Comment>,
    pub last_comment_id: i64,
    pub sessions: Vec<Session>,
    pub last_session_id: i64,
    pub time_entries: Vec<TimeEntry>,
    pub last_time_entry_id: i64,
    pub relations: Vec<Relation>,
    pub milestones: Vec<Milestone>,
    pub last_milestone_id: i64,
    /// The pairs (milestone, issue).
    pub memberships: Vec<(i64, i64)>,
}

impl View for Tables {
    type V = DbView;

    open spec fn view(&self) -> DbView {
        DbView {
            issues: rows_view(self.issues@),
            last_issue_id: self.last_issue_id as int,
            labels: rows_view(self.labels@),
            dependencies: edges_view(self.dependencies@),
            comments: rows_view(self.comments@),
            last_comment_id: self.last_comment_id as int,
            sessions: rows_view(self.sessions@),
            last_session_id: self.last_session_id as int,
            time_entries: rows_view(self.time_entries@),
            last_time_entry_id: self.last_time_entry_id as int,
            relations: rows_view(self.relations@),
            milestones: rows_view(self.milestones@),
            last_milestone_id: self.last_milestone_id as int,
            memberships: edges_view(self.memberships@),
        }
    }
}

fn has_id(ids: &Vec<i64>, id: i64, Ghost(all): Ghost<Seq<int>>) -> (r: bool)
    requires
        all == crate::graph::ids_view(ids@),
    ensures
        r == all.contains(id as int),
{
    let r = contains_id(ids, id);
    proof {
        if r {
            let k = choose|k: int| 0 <= k < ids@.len() && ids@[k] == id;
            assert(all[k] == id as int);
        }
        if all.contains(id as int) {
            let k = choose|k: int| 0 <= k < all.len() && all[k] == id as int;
            assert(ids@[k] == id);
        }
    }
    r
}

fn status_fits(issue: &Issue) -> (r: bool)
    ensures
        r == lifecycle_ok(issue@),
{
    if text_eq(issue.status.as_str(), "open") {
        proof {
            crate::db::lemma_statuses_differ();
        }
        issue.closed_at.is_none()
    } else if text_eq(issue.status.as_str(), "closed") || text_eq(
        issue.status.as_str(),
        "archived",
    ) {
        issue.closed_at.is_some()
    } else {
        false
    }
}

fn issues_ok(issues: &Vec<Issue>, last: i64) -> (r: bool)
    ensures
        r == issues_wf(rows_view(issues@), last as int),
{
    if last < 0 {
        return false;
    }
    let ghost rows = rows_view(issues@);
    let mut i: usize = 0;
    while i < issues.len()
        invariant
            i <= issues@.len(),
            rows == rows_view(issues@),
            last >= 0,
            forall|a: int, b: int| 0 <= a < b < i ==> (#[trigger] rows[a]).id < (#[trigger] rows[b]).id,
            forall|a: int|
                0 <= a < i ==> 1 <= (#[trigger] rows[a]).id <= last && lifecycle_ok(rows[a]),
        decreases issues@.len() - i,
    {
        let row = &issues[i];
        assert(rows[i as int] == row@);
        if row.id < 1 || row.id > last || !status_fits(row) {
            return false;
        }
        if i > 0 {
            assert(rows[i - 1] == issues@[i - 1]@);
            if issues[i - 1].id >= row.id {
                return false;
            }
            assert forall|a: int| 0 <= a < i implies (#[trigger] rows[a]).id < rows[i as int].id by {
                if a < i - 1 {
                    assert(rows[a].id < rows[i - 1].id);
                }
            }
        }
        i += 1;
    }
    true
}

fn issue_numbers(issues: &Vec<Issue>) -> (ids: Vec<i64>)
    ensures
        crate::graph::ids_view(ids@) == issue_ids(rows_view(issues@)),
{
    let mut ids: Vec<i64> = Vec::new();
    let mut i: usize = 0;
    while i < issues.len()
        invariant
            i <= issues@.len(),
            ids@.len() == i,
            forall|k: int| 0 <= k < i ==> ids@[k] == (#[trigger] issues@[k]).id,
        decreases issues@.len() - i,
    {
        ids.push(issues[i].id);
        i += 1;
    }
    assert(crate::graph::ids_view(ids@) =~= issue_ids(rows_view(issues@)));
    ids
}

fn milestone_numbers(milestones: &Vec<Milestone>) -> (ids: Vec<i64>)
    ensures
        crate::graph::ids_view(ids@) == milestone_ids(rows_view(milestones@)),
{
    let mut ids: Vec<i64> = Vec::new();
    let mut i: usize = 0;
    while i < milestones.len()
        invariant
            i <= milestones@.len(),
            ids@.len() == i,
            forall|k: int| 0 <= k < i ==> ids@[k] == (#[trigger] milestones@[k]).id,
        decreases milestones@.len() - i,
    {
        ids.push(milestones[i].id);
        i += 1;
    }
    assert(crate::graph::ids_view(ids@) =~= milestone_ids(rows_view(milestones@)));
    ids
}

fn labels_ok(labels: &Vec<Label>, ids: &Vec<i64>, Ghost(all): Ghost<Seq<int>>) -> (r: bool)
    requires
        all == crate::graph::ids_view(ids@),
    ensures
        r == labels_wf(rows_view(labels@), all),
{
    let ghost rows = rows_view(labels@);
    let mut j: usize = 0;
    while j < labels.len()
        invariant
            j <= labels@.len(),
            rows == rows_view(labels@),
            all == crate::graph::ids_view(ids@),
            forall|a: int, b: int| 0 <= a < b < j ==> #[trigger] rows[a] != #[trigger] rows[b],
            forall|a: int| 0 <= a < j ==> all.contains((#[trigger] rows[a]).issue_id),
        decreases labels@.len() - j,
    {
        assert(rows[j as int] == labels@[j as int]@);
        if !has_id(ids, labels[j].issue_id, Ghost(all)) {
            return false;
        }
        let mut i: usize = 0;
        while i < j
            invariant
                i <= j < labels@.len(),
                rows == rows_view(labels@),
                forall|a: int| 0 <= a < i ==> #[trigger] rows[a] != rows[j as int],
            decreases j - i,
        {
            assert(rows[i as int] == labels@[i as int]@);
            assert(rows[j as int] == labels@[j as int]@);
            if labels[i].issue_id == labels[j].issue_id && text_eq(
                labels[i].label.as_str(),
                labels[j].label.as_str(),
            ) {
                return false;
            }
            i += 1;
        }
        j += 1;
    }
    true
}

fn pairs_distinct(pairs: &Vec<(i64, i64)>) -> (r: bool)
    ensures
        r == edges_view(pairs@).no_duplicates(),
{
    let ghost rows = edges_view(pairs@);
    let mut j: usize = 0;
    while j < pairs.len()
        invariant
            j <= pairs@.len(),
            rows == edges_view(pairs@),
            forall|a: int, b: int| 0 <= a < b < j ==> rows[a] != rows[b],
        decreases pairs@.len() - j,
    {
        let mut i: usize = 0;
        while i < j
            invariant
                i <= j < pairs@.len(),
                rows == edges_view(pairs@),
                forall|a: int| 0 <= a < i ==> rows[a] != rows[j as int],
            decreases j - i,
        {
            if pairs[i].0 == pairs[j].0 && pairs[i].1 == pairs[j].1 {
                assert(rows[i as int] == rows[j as int]);
                return false;
            }
            i += 1;
        }
        j += 1;
    }
    assert forall|a: int, b: int| 0 <= a < rows.len() && 0 <= b < rows.len() && a != b implies rows[a]
        != rows[b] by {
        if a < b {
            assert(rows[a] != rows[b]);
        } else {
            assert(rows[b] != rows[a]);
        }
    }
    true
}

fn dependencies_ok(deps: &Vec<(i64, i64)>, ids: &Vec<i64>, Ghost(all): Ghost<Seq<int>>) -> (r: bool)
    requires
        all == crate::graph::ids_view(ids@),
    ensures
        r == dependencies_wf(edges_view(deps@), all),
{
    let ghost rows = edges_view(deps@);
    if !pairs_distinct(deps) {
        return false;
    }
    let mut i: usize = 0;
    while i < deps.len()
        invariant
            i <= deps@.len(),
            rows == edges_view(deps@),
            all == crate::graph::ids_view(ids@),
            forall|a: int| 0 <= a < i ==> all.contains((#[trigger] rows[a]).0) && all.contains(rows[a].1),
        decreases deps@.len() - i,
    {
        assert(rows[i as int] == (deps@[i as int].0 as int, deps@[i as int].1 as int));
        if !has_id(ids, deps[i].0, Ghost(all)) || !has_id(ids, deps[i].1, Ghost(all)) {
            return false;
        }
        i += 1;
    }
    is_acyclic(deps)
}

fn comments_ok(comments: &Vec<Comment>, last: i64, ids: &Vec<i64>, Ghost(all): Ghost<Seq<int>>) -> (r:
    bool)
    requires
        all == crate::graph::ids_view(ids@),
    ensures
        r == comments_wf(rows_view(comments@), last as int, all),
{
    if last < 0 {
        return false;
    }
    let ghost rows = rows_view(comments@);
    let mut i: usize = 0;
    while i < comments.len()
        invariant
            i <= comments@.len(),
            rows == rows_view(comments@),
            all == crate::graph::ids_view(ids@),
            last >= 0,
            forall|a: int, b: int| 0 <= a < b < i ==> (#[trigger] rows[a]).id < (#[trigger] rows[b]).id,
            forall|a: int|
                0 <= a < i ==> 1 <= (#[trigger] rows[a]).id <= last && all.contains(
                    rows[a].issue_id,
                ),
        decreases comments@.len() - i,
    {
        let row = &comments[i];
        assert(rows[i as int] == row@);
        if row.id < 1 || row.id > last || !has_id(ids, row.issue_id, Ghost(all)) {
            return false;
        }
        if i > 0 {
            assert(rows[i - 1] == comments@[i - 1]@);
            if comments[i - 1].id >= row.id {
                return false;
            }
            assert forall|a: int| 0 <= a < i implies (#[trigger] rows[a]).id < rows[i as int].id by {
                if a < i - 1 {
                    assert(rows[a].id < rows[i - 1].id);
                }
            }
        }
        i += 1;
    }
    true
}

fn sessions_ok(sessions: &Vec<Session>, last: i64, ids: &Vec<i64>, Ghost(all): Ghost<Seq<int>>) -> (r:
    bool)
    requires
        all == crate::graph::ids_view(ids@),
    ensures
        r == sessions_wf(rows_view(sessions@), last as int, all),
{
    if last < 0 {
        return false;
    }
    let ghost rows = rows_view(sessions@);
    let mut i: usize = 0;
    while i < sessions.len()
        invariant
            i <= sessions@.len(),
            rows == rows_view(sessions@),
            all == crate::graph::ids_view(ids@),
            last >= 0,
            forall|a: int, b: int| 0 <= a < b < i ==> (#[trigger] rows[a]).id < (#[trigger] rows[b]).id,
            forall|a: int|
                0 <= a < i ==> 1 <= (#[trigger] rows[a]).id <= last && session_ref_ok(rows[a], all),
        decreases sessions@.len() - i,
    {
        let row = &sessions[i];
        assert(rows[i as int] == row@);
        let names_issue = match row.active_issue_id {
            Some(x) => has_id(ids, x, Ghost(all)),
            None => true,
        };
        if row.id < 1 || row.id > last || !names_issue {
            return false;
        }
        if i > 0 {
            assert(rows[i - 1] == sessions@[i - 1]@);
            if sessions[i - 1].id >= row.id {
                return false;
            }
            assert forall|a: int| 0 <= a < i implies (#[trigger] rows[a]).id < rows[i as int].id by {
                if a < i - 1 {
                    assert(rows[a].id < rows[i - 1].id);
                }
            }
        }
        i += 1;
    }
    true
}

fn entries_ok(entries: &Vec<TimeEntry>, last: i64, ids: &Vec<i64>, Ghost(all): Ghost<Seq<int>>) -> (r:
    bool)
    requires
        all == crate::graph::ids_view(ids@),
    ensures
        r == time_entries_wf(rows_view(entries@), last as int, all),
{
    if last < 0 {
        return false;
    }
    let ghost rows = rows_view(entries@);
    let mut i: usize = 0;
    while i < entries.len()
        invariant
            i <= entries@.len(),
            rows == rows_view(entries@),
            all == crate::graph::ids_view(ids@),
            last >= 0,
            forall|a: int, b: int| 0 <= a < b < i ==> (#[trigger] rows[a]).id < (#[trigger] rows[b]).id,
            forall|a: int|
                0 <= a < i ==> 1 <= (#[trigger] rows[a]).id <= last && all.contains(
                    rows[a].issue_id,
                ),
        decreases entries@.len() - i,
    {
        let row = &entries[i];
        assert(rows[i as int] == row@);
        if row.id < 1 || row.id > last || !has_id(ids, row.issue_id, Ghost(all)) {
            return false;
        }
        if i > 0 {
            assert(rows[i - 1] == entries@[i - 1]@);
            if entries[i - 1].id >= row.id {
                return false;
            }
            assert forall|a: int| 0 <= a < i implies (#[trigger] rows[a]).id < rows[i as int].id by {
                if a < i - 1 {
                    assert(rows[a].id < rows[i - 1].id);
                }
            }
        }
        i += 1;
    }
    true
}

fn relations_ok(relations: &Vec<Relation>, ids: &Vec<i64>, Ghost(all): Ghost<Seq<int>>) -> (r: bool)
    requires
        all == crate::graph::ids_view(ids@),
    ensures
        r == relations_wf(rows_view(relations@), all),
{
    let ghost rows = rows_view(relations@);
    let mut j: usize = 0;
    while j < relations.len()
        invariant
            j <= relations@.len(),
            rows == rows_view(relations@),
            all == crate::graph::ids_view(ids@),
            forall|a: int, b: int|
                0 <= a < b < j ==> !((#[trigger] rows[a]).issue_id_1 == (#[trigger] rows[b]).issue_id_1
                    && rows[a].issue_id_2 == rows[b].issue_id_2),
            forall|a: int|
                0 <= a < j ==> (#[trigger] rows[a]).issue_id_1 < rows[a].issue_id_2 && all.contains(
                    rows[a].issue_id_1,
                ) && all.contains(rows[a].issue_id_2),
        decreases relations@.len() - j,
    {
        let row = relations[j];
        assert(rows[j as int] == row@);
        if row.issue_id_1 >= row.issue_id_2 || !has_id(ids, row.issue_id_1, Ghost(all)) || !has_id(
            ids,
            row.issue_id_2,
            Ghost(all),
        ) {
            return false;
        }
        let mut i: usize = 0;
        while i < j
            invariant
                i <= j < relations@.len(),
                rows == rows_view(relations@),
                row == relations@[j as int],
                forall|a: int|
                    0 <= a < i ==> !((#[trigger] rows[a]).issue_id_1 == rows[j as int].issue_id_1
                        && rows[a].issue_id_2 == rows[j as int].issue_id_2),
            decreases j - i,
        {
            assert(rows[i as int] == relations@[i as int]@);
            assert(rows[j as int] == relations@[j as int]@);
            if relations[i].issue_id_1 == row.issue_id_1 && relations[i].issue_id_2
                == row.issue_id_2 {
                return false;
            }
            i += 1;
        }
        j += 1;
    }
    true
}

fn milestones_ok(milestones: &Vec<Milestone>, last: i64) -> (r: bool)
    ensures
        r == milestones_wf(rows_view(milestones@), last as int),
{
    if last < 0 {
        return false;
    }
    let ghost rows = rows_view(milestones@);
    let mut i: usize = 0;
    while i < milestones.len()
        invariant
            i <= milestones@.len(),
            rows == rows_view(milestones@),
            last >= 0,
            forall|a: int, b: int| 0 <= a < b < i ==> (#[trigger] rows[a]).id < (#[trigger] rows[b]).id,
            forall|a: int| 0 <= a < i ==> 1 <= (#[trigger] rows[a]).id <= last,
        decreases milestones@.len() - i,
    {
        let row = &milestones[i];
        assert(rows[i as int] == row@);
        if row.id < 1 || row.id > last {
            return false;
        }
        if i > 0 {
            assert(rows[i - 1] == milestones@[i - 1]@);
            if milestones[i - 1].id >= row.id {
                return false;
            }
            assert forall|a: int| 0 <= a < i implies (#[trigger] rows[a]).id < rows[i as int].id by {
                if a < i - 1 {
                    assert(rows[a].id < rows[i - 1].id);
                }
            }
        }
        i += 1;
    }
    true
}

fn memberships_ok(
    members: &Vec<(i64, i64)>,
    mids: &Vec<i64>,
    ids: &Vec<i64>,
    Ghost(all_m): Ghost<Seq<int>>,
    Ghost(all): Ghost<Seq<int>>,
) -> (r: bool)
    requires
        all == crate::graph::ids_view(ids@),
        all_m == crate::graph::ids_view(mids@),
    ensures
        r == memberships_wf(edges_view(members@), all_m, all),
{
    let ghost rows = edges_view(members@);
    if !pairs_distinct(members) {
        return false;
    }
    let mut i: usize = 0;
    while i < members.len()
        invariant
            i <= members@.len(),
            rows == edges_view(members@),
            all == crate::graph::ids_view(ids@),
            all_m == crate::graph::ids_view(mids@),
            forall|a: int|
                0 <= a < i ==> all_m.contains((#[trigger] rows[a]).0) && all.contains(rows[a].1),
        decreases members@.len() - i,
    {
        assert(rows[i as int] == (members@[i as int].0 as int, members@[i as int].1 as int));
        if !has_id(mids, members[i].0, Ghost(all_m)) || !has_id(ids, members[i].1, Ghost(all)) {
            return false;
        }
        i += 1;
    }
    true
}

impl Tables {
    /// Whether the rows keep the rules of the store.
    pub fn is_consistent(&self) -> (r: bool)
        ensures
            r == self@.wf(),
    {
        let ids = issue_numbers(&self.issues);
        let mids = milestone_numbers(&self.milestones);
        let ghost all = issue_ids(self@.issues);
        let ghost all_m = milestone_ids(self@.milestones);
        issues_ok(&self.issues, self.last_issue_id) && labels_ok(&self.labels, &ids, Ghost(all))
            && dependencies_ok(&self.dependencies, &ids, Ghost(all)) && comments_ok(
            &self.comments,
            self.last_comment_id,
            &ids,
            Ghost(all),
        ) && sessions_ok(&self.sessions, self.last_session_id, &ids, Ghost(all)) && entries_ok(
            &self.time_entries,
            self.last_time_entry_id,
            &ids,
            Ghost(all),
        ) && relations_ok(&self.relations, &ids, Ghost(all)) && milestones_ok(
            &self.milestones,
            self.last_milestone_id,
        ) && memberships_ok(&self.memberships, &mids, &ids, Ghost(all_m), Ghost(all))
    }
}

impl Database {
    /// The rows that the store holds.
    pub fn export_tables(&self) -> (t: Tables)
        ensures
            t@ == self@,
    {
        Tables {
            issues: copy_rows(&self.issues),
            last_issue_id: self.last_issue_id,
            labels: copy_rows(&self.labels),
            dependencies: copy_pairs(&self.dependencies),
            comments: copy_rows(&self.comments),
            last_comment_id: self.last_comment_id,
            sessions: copy_rows(&self.sessions),
            last_session_id: self.last_session_id,
            time_entries: copy_rows(&self.time_entries),
            last_time_entry_id: self.last_time_entry_id,
            relations: copy_rows(&self.relations),
            milestones: copy_rows(&self.milestones),
            last_milestone_id: self.last_milestone_id,
            memberships: copy_pairs(&self.memberships),
        }
    }

    /// A store that holds the rows `tables`, or `None` where the rows break
    /// the rules of the store.
    pub fn restore(tables: Tables) -> (r: Option<Database>)
        ensures
            match r {
                Some(db) => db.wf() && db@ == tables@,
                None => !tables@.wf(),
            },
    {
        if !tables.is_consistent() {
            return None;
        }
        Some(
            Database {
                issues: tables.issues,
                last_issue_id: tables.last_issue_id,
                labels: tables.labels,
                dependencies: tables.dependencies,
                comments: tables.comments,
                last_comment_id: tables.last_comment_id,
                sessions: tables.sessions,
                last_session_id: tables.last_session_id,
                time_entries: tables.time_entries,
                last_time_entry_id: tables.last_time_entry_id,
                relations: tables.relations,
                milestones: tables.milestones,
                last_milestone_id: tables.last_milestone_id,
                memberships: tables.memberships,
            },
        )
    }
}

} // verus!
