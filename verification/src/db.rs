//! The store: its tables, what they hold, and the rules that every operation
//! keeps.

use vstd::prelude::*;
use vstd::string::*;

use crate::clock::Timestamp;
use crate::graph::{acyclic, edges_view};
use crate::models::{
    Comment, CommentView, Issue, IssueView, Label, LabelView, Milestone, MilestoneView, Relation,
    RelationView, Session, SessionView, TimeEntry, TimeEntryView,
};

pub mod comments;
pub mod delete;
pub mod deps;
pub mod issues;
pub mod labels;
pub mod laws;
pub mod lifecycle;
pub mod milestones;
pub mod persist;
pub mod relations;
pub mod search;
pub mod sessions;
pub mod timers;
pub mod transaction;

verus! {

/// The rows of a table as what they mean, in the table's order.
pub open spec fn rows_view<T: View>(rows: Seq<T>) -> Seq<T::V> {
    rows.map_values(|r: T| r@)
}

/// The status of an issue that is being worked on or waits for work.
pub open spec fn status_open() -> Seq<char> {
    "open"@
}

/// The status of an issue whose work is done.
pub open spec fn status_closed() -> Seq<char> {
    "closed"@
}

/// The status of a closed issue that was put away.
pub open spec fn status_archived() -> Seq<char> {
    "archived"@
}

/// The three statuses are three different texts.
pub proof fn lemma_statuses_differ()
    ensures
        status_open() != status_closed(),
        status_open() != status_archived(),
        status_closed() != status_archived(),
{
    reveal_strlit("open");
    reveal_strlit("closed");
    reveal_strlit("archived");
    assert(status_open().len() == 4);
    assert(status_closed().len() == 6);
    assert(status_archived().len() == 8);
}

/// Whether an issue's closing time fits its status: none while it is open,
/// one once it is closed or archived.
pub open spec fn lifecycle_ok(r: IssueView) -> bool {
    ||| r.status == status_open() && r.closed_at is None
    ||| (r.status == status_closed() || r.status == status_archived()) && r.closed_at is Some
}

/// The numbers of the issues, in the table's order.
pub open spec fn issue_ids(issues: Seq<IssueView>) -> Seq<int> {
    issues.map_values(|r: IssueView| r.id)
}

pub open spec fn issues_wf(issues: Seq<IssueView>, last: int) -> bool {
    &&& 0 <= last <= i64::MAX
    &&& forall|i: int, j: int|
        0 <= i < j < issues.len() ==> (#[trigger] issues[i]).id < (#[trigger] issues[j]).id
    &&& forall|i: int|
        0 <= i < issues.len() ==> 1 <= (#[trigger] issues[i]).id <= last && lifecycle_ok(issues[i])
}

pub open spec fn labels_wf(labels: Seq<LabelView>, ids: Seq<int>) -> bool {
    &&& forall|i: int, j: int|
        0 <= i < j < labels.len() ==> #[trigger] labels[i] != #[trigger] labels[j]
    &&& forall|i: int| 0 <= i < labels.len() ==> ids.contains((#[trigger] labels[i]).issue_id)
}

pub open spec fn dependencies_wf(deps: Seq<(int, int)>, ids: Seq<int>) -> bool {
    &&& deps.no_duplicates()
    &&& forall|i: int|
        0 <= i < deps.len() ==> ids.contains((#[trigger] deps[i]).0) && ids.contains(deps[i].1)
    &&& acyclic(deps)
}

pub open spec fn comments_wf(comments: Seq<CommentView>, last: int, ids: Seq<int>) -> bool {
    &&& 0 <= last <= i64::MAX
    &&& forall|i: int, j: int|
        0 <= i < j < comments.len() ==> (#[trigger] comments[i]).id < (#[trigger] comments[j]).id
    &&& forall|i: int|
        0 <= i < comments.len() ==> 1 <= (#[trigger] comments[i]).id <= last && ids.contains(
            comments[i].issue_id,
        )
}

pub open spec fn session_ref_ok(s: SessionView, ids: Seq<int>) -> bool {
    match s.active_issue_id {
        Some(x) => ids.contains(x),
        None => true,
    }
}

pub open spec fn sessions_wf(sessions: Seq<SessionView>, last: int, ids: Seq<int>) -> bool {
    &&& 0 <= last <= i64::MAX
    &&& forall|i: int, j: int|
        0 <= i < j < sessions.len() ==> (#[trigger] sessions[i]).id < (#[trigger] sessions[j]).id
    &&& forall|i: int|
        0 <= i < sessions.len() ==> 1 <= (#[trigger] sessions[i]).id <= last && session_ref_ok(
            sessions[i],
            ids,
        )
}

pub open spec fn time_entries_wf(entries: Seq<TimeEntryView>, last: int, ids: Seq<int>) -> bool {
    &&& 0 <= last <= i64::MAX
    &&& forall|i: int, j: int|
        0 <= i < j < entries.len() ==> (#[trigger] entries[i]).id < (#[trigger] entries[j]).id
    &&& forall|i: int|
        0 <= i < entries.len() ==> 1 <= (#[trigger] entries[i]).id <= last && ids.contains(
            entries[i].issue_id,
        )
}

pub open spec fn relations_wf(relations: Seq<RelationView>, ids: Seq<int>) -> bool {
    &&& forall|i: int, j: int|
        0 <= i < j < relations.len() ==> !((#[trigger] relations[i]).issue_id_1
            == (#[trigger] relations[j]).issue_id_1 && relations[i].issue_id_2
            == relations[j].issue_id_2)
    &&& forall|i: int|
        0 <= i < relations.len() ==> (#[trigger] relations[i]).issue_id_1 < relations[i].issue_id_2
            && ids.contains(relations[i].issue_id_1) && ids.contains(relations[i].issue_id_2)
}

/// The numbers of the milestones, in the table's order.
pub open spec fn milestone_ids(milestones: Seq<MilestoneView>) -> Seq<int> {
    milestones.map_values(|r: MilestoneView| r.id)
}

pub open spec fn milestones_wf(milestones: Seq<MilestoneView>, last: int) -> bool {
    &&& 0 <= last <= i64::MAX
    &&& forall|i: int, j: int|
        0 <= i < j < milestones.len() ==> (#[trigger] milestones[i]).id
            < (#[trigger] milestones[j]).id
    &&& forall|i: int| 0 <= i < milestones.len() ==> 1 <= (#[trigger] milestones[i]).id <= last
}

pub open spec fn memberships_wf(members: Seq<(int, int)>, mids: Seq<int>, ids: Seq<int>) -> bool {
    &&& members.no_duplicates()
    &&& forall|i: int|
        0 <= i < members.len() ==> mids.contains((#[trigger] members[i]).0) && ids.contains(
            members[i].1,
        )
}

/// What the store holds: each table as the sequence of its rows, and the
/// largest number that each numbered table has given out.
pub ghost struct DbView {
    pub issues: Seq<IssueView>,
    pub last_issue_id: int,
    pub labels: Seq<LabelView>,
    /// The edges (blocker, blocked).
    pub dependencies: Seq<(int, int)>,
    pub comments: Seq<CommentView>,
    pub last_comment_id: int,
    pub sessions: Seq<SessionView>,
    pub last_session_id: int,
    pub time_entries: Seq<TimeEntryView>,
    pub last_time_entry_id: int,
    pub relations: Seq<RelationView>,
    pub milestones: Seq<MilestoneView>,
    pub last_milestone_id: int,
    /// The pairs (milestone, issue).
    pub memberships: Seq<(int, int)>,
}

impl DbView {
    /// The rules that the store keeps at every moment: numbers are given out
    /// in rising order and never twice, rows that name an issue name one that
    /// exists, no pair occurs twice, and the dependencies have no cycle.
    pub open spec fn wf(self) -> bool {
        let ids = issue_ids(self.issues);
        &&& issues_wf(self.issues, self.last_issue_id)
        &&& labels_wf(self.labels, ids)
        &&& dependencies_wf(self.dependencies, ids)
        &&& comments_wf(self.comments, self.last_comment_id, ids)
        &&& sessions_wf(self.sessions, self.last_session_id, ids)
        &&& time_entries_wf(self.time_entries, self.last_time_entry_id, ids)
        &&& relations_wf(self.relations, ids)
        &&& milestones_wf(self.milestones, self.last_milestone_id)
        &&& memberships_wf(self.memberships, milestone_ids(self.milestones), ids)
    }

    /// The store with nothing in it.
    pub open spec fn empty() -> DbView {
        DbView {
            issues: Seq::empty(),
            last_issue_id: 0,
            labels: Seq::empty(),
            dependencies: Seq::empty(),
            comments: Seq::empty(),
            last_comment_id: 0,
            sessions: Seq::empty(),
            last_session_id: 0,
            time_entries: Seq::empty(),
            last_time_entry_id: 0,
            relations: Seq::empty(),
            milestones: Seq::empty(),
            last_milestone_id: 0,
            memberships: Seq::empty(),
        }
    }

    /// Whether an issue has the number `id`.
    pub open spec fn has_issue(self, id: int) -> bool {
        issue_ids(self.issues).contains(id)
    }

    /// The issue with the number `id`.
    pub open spec fn find_issue(self, id: int) -> Option<IssueView> {
        if self.has_issue(id) {
            Some(self.issues[issue_ids(self.issues).index_of(id)])
        } else {
            None
        }
    }
}

/// Why the store refused an operation.
#[derive(Debug, Clone, Copy, PartialEq, Eq, Structural)]
pub enum DbError {
    /// An issue was to block itself.
    SelfDependency,
    /// The dependency would close a cycle.
    CircularDependency,
    /// An issue was to be related to itself.
    SelfRelation,
    /// No issue has this number.
    IssueNotFound(i64),
    /// A row was to name an issue, a session or a milestone that does not
    /// exist.
    ForeignKey,
    /// The table has given out its last number.
    Full,
}

impl DbError {
    /// What the error says.
    pub open spec fn message_text(self) -> Seq<char> {
        match self {
            DbError::SelfDependency => "An issue cannot block itself"@,
            DbError::CircularDependency =>
                "Adding this dependency would create a circular dependency chain"@,
            DbError::SelfRelation => "Cannot relate an issue to itself"@,
            DbError::IssueNotFound(id) => "Issue #"@ + crate::text::decimal_text(id as int)
                + " not found"@,
            DbError::ForeignKey => "FOREIGN KEY constraint failed"@,
            DbError::Full => "database or disk is full"@,
        }
    }

    /// What the error says.
    pub fn message(&self) -> (r: String)
        ensures
            r@ == self.message_text(),
    {
        match self {
            DbError::SelfDependency => "An issue cannot block itself".to_owned(),
            DbError::CircularDependency =>
                "Adding this dependency would create a circular dependency chain".to_owned(),
            DbError::SelfRelation => "Cannot relate an issue to itself".to_owned(),
            DbError::IssueNotFound(id) => {
                let mut s = "Issue #".to_owned();
                crate::text::push_signed(&mut s, *id);
                s.append(" not found");
                s
            },
            DbError::ForeignKey => "FOREIGN KEY constraint failed".to_owned(),
            DbError::Full => "database or disk is full".to_owned(),
        }
    }
}

/// An optional text as the characters it holds.
pub open spec fn opt_str(o: Option<&str>) -> Option<Seq<char>> {
    match o {
        Some(s) => Some(s@),
        None => None,
    }
}

/// An optional row as what it means.
pub open spec fn opt_row<T: View>(o: Option<T>) -> Option<T::V> {
    match o {
        Some(r) => Some(r@),
        None => None,
    }
}

pub fn own_opt_str(o: Option<&str>) -> (r: Option<String>)
    ensures
        crate::text::opt_text(r) == opt_str(o),
{
    match o {
        Some(s) => Some(s.to_owned()),
        None => None,
    }
}

/// The store.
pub struct Database {
    issues: Vec<Issue>,
    last_issue_id: i64,
    labels: Vec<Label>,
    dependencies: Vec<(i64, i64)>,
    comments: Vec<Comment>,
    last_comment_id: i64,
    sessions: Vec<Session>,
    last_session_id: i64,
    time_entries: Vec<TimeEntry>,
    last_time_entry_id: i64,
    relations: Vec<Relation>,
    milestones: Vec<Milestone>,
    last_milestone_id: i64,
    memberships: Vec<(i64, i64)>,
}

impl View for Database {
    type V = DbView;

    closed spec fn view(&self) -> DbView {
        DbView {
            issues: rows_view(self.issues@),
            last_issue_id: self.last_issue_id as int,
            labels: rows_view(self.labels@),
            dependencies: edges_view(self.dependencies@),
            comments: rows_view(self.comments@),
            last_comment_id: self.last_comment_id as int,
            sessions: rows_view(self.sessions@),
            last_session_id: self.last_session_id as int,
            time_entries: rows_view(self.time_entries@),
            last_time_entry_id: self.last_time_entry_id as int,
            relations: rows_view(self.relations@),
            milestones: rows_view(self.milestones@),
            last_milestone_id: self.last_milestone_id as int,
            memberships: edges_view(self.memberships@),
        }
    }
}

impl Database {
    /// Whether the store keeps its rules.
    pub open spec fn wf(&self) -> bool {
        self@.wf()
    }

    /// A store with nothing in it.
    pub fn new() -> (db: Database)
        ensures
            db.wf(),
            db@ == DbView::empty(),
    {
        let db = Database {
            issues: Vec::new(),
            last_issue_id: 0,
            labels: Vec::new(),
            dependencies: Vec::new(),
            comments: Vec::new(),
            last_comment_id: 0,
            sessions: Vec::new(),
            last_session_id: 0,
            time_entries: Vec::new(),
            last_time_entry_id: 0,
            relations: Vec::new(),
            milestones: Vec::new(),
            last_milestone_id: 0,
            memberships: Vec::new(),
        };
        proof {
            assert(db@.issues =~= Seq::empty());
            assert(db@.labels =~= Seq::empty());
            assert(db@.dependencies =~= Seq::empty());
            assert(db@.comments =~= Seq::empty());
            assert(db@.sessions =~= Seq::empty());
            assert(db@.time_entries =~= Seq::empty());
            assert(db@.relations =~= Seq::empty());
            assert(db@.milestones =~= Seq::empty());
            assert(db@.memberships =~= Seq::empty());
            assert(acyclic(db@.dependencies)) by {
                assert forall|p: Seq<int>| #[trigger]
                    crate::graph::is_path(db@.dependencies, p) && p.len() >= 2 implies p[0]
                    != p.last() by {
                    assert(crate::graph::is_step(db@.dependencies, p, 0));
                }
            }
        }
        db
    }
}

} // verus!
