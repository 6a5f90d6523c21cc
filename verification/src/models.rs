//! The rows of the store and what each of them means.

use vstd::prelude::*;

use crate::clock::Timestamp;
use crate::text::opt_text;

verus! {

/// An optional row number as a mathematical integer.
pub open spec fn opt_id(o: Option<i64>) -> Option<int> {
    match o {
        Some(i) => Some(i as int),
        None => None,
    }
}

pub fn copy_opt_text(o: &Option<String>) -> (r: Option<String>)
    ensures
        opt_text(r) == opt_text(*o),
{
    match o {
        Some(s) => Some(s.clone()),
        None => None,
    }
}

/// A row that can be copied, the copy meaning what the row means.
pub trait Row: View + Sized {
    fn duplicate(&self) -> (r: Self)
        ensures
            r@ == self@,
    ;
}

/// A work item.
#[derive(Debug, Clone, PartialEq)]
pub struct Issue {
    pub id: i64,
    pub title: String,
    pub description: Option<String>,
    pub status: String,
    pub priority: String,
    pub parent_id: Option<i64>,
    pub created_at: Timestamp,
    pub updated_at: Timestamp,
    pub closed_at: Option<Timestamp>,
}

pub ghost struct IssueView {
    pub id: int,
    pub title: Seq<char>,
    pub description: Option<Seq<char>>,
    pub status: Seq<char>,
    pub priority: Seq<char>,
    pub parent_id: Option<int>,
    pub created_at: Timestamp,
    pub updated_at: Timestamp,
    pub closed_at: Option<Timestamp>,
}

impl View for Issue {
    type V = IssueView;

    open spec fn view(&self) -> IssueView {
        IssueView {
            id: self.id as int,
            title: self.title@,
            description: opt_text(self.description),
            status: self.status@,
            priority: self.priority@,
            parent_id: opt_id(self.parent_id),
            created_at: self.created_at,
            updated_at: self.updated_at,
            closed_at: self.closed_at,
        }
    }
}

impl Row for Issue {
    fn duplicate(&self) -> (r: Issue) {
        Issue {
            id: self.id,
            title: self.title.clone(),
            description: copy_opt_text(&self.description),
            status: self.status.clone(),
            priority: self.priority.clone(),
            parent_id: self.parent_id,
            created_at: self.created_at,
            updated_at: self.updated_at,
            closed_at: self.closed_at,
        }
    }
}

/// A remark on an issue.
#[derive(Debug, Clone, PartialEq)]
pub struct Comment {
    pub id: i64,
    pub issue_id: i64,
    pub content: String,
    pub created_at: Timestamp,
}

pub ghost struct CommentView {
    pub id: int,
    pub issue_id: int,
    pub content: Seq<char>,
    pub created_at: Timestamp,
}

impl View for Comment {
    type V = CommentView;

    open spec fn view(&self) -> CommentView {
        CommentView {
            id: self.id as int,
            issue_id: self.issue_id as int,
            content: self.content@,
            created_at: self.created_at,
        }
    }
}

impl Row for Comment {
    fn duplicate(&self) -> (r: Comment) {
        Comment {
            id: self.id,
            issue_id: self.issue_id,
            content: self.content.clone(),
            created_at: self.created_at,
        }
    }
}

/// A stretch of work, from its start to its end.
#[derive(Debug, Clone, PartialEq)]
pub struct Session {
    pub id: i64,
    pub started_at: Timestamp,
    pub ended_at: Option<Timestamp>,
    pub active_issue_id: Option<i64>,
    pub handoff_notes: Option<String>,
}

pub ghost struct SessionView {
    pub id: int,
    pub started_at: Timestamp,
    pub ended_at: Option<Timestamp>,
    pub active_issue_id: Option<int>,
    pub handoff_notes: Option<Seq<char>>,
}

impl View for Session {
    type V = SessionView;

    open spec fn view(&self) -> SessionView {
        SessionView {
            id: self.id as int,
            started_at: self.started_at,
            ended_at: self.ended_at,
            active_issue_id: opt_id(self.active_issue_id),
            handoff_notes: opt_text(self.handoff_notes),
        }
    }
}

impl Row for Session {
    fn duplicate(&self) -> (r: Session) {
        Session {
            id: self.id,
            started_at: self.started_at,
            ended_at: self.ended_at,
            active_issue_id: self.active_issue_id,
            handoff_notes: copy_opt_text(&self.handoff_notes),
        }
    }
}

/// A named goal that issues are gathered under.
#[derive(Debug, Clone, PartialEq)]
pub struct Milestone {
    pub id: i64,
    pub name: String,
    pub description: Option<String>,
    pub status: String,
    pub created_at: Timestamp,
    pub closed_at: Option<Timestamp>,
}

pub ghost struct MilestoneView {
    pub id: int,
    pub name: Seq<char>,
    pub description: Option<Seq<char>>,
    pub status: Seq<char>,
    pub created_at: Timestamp,
    pub closed_at: Option<Timestamp>,
}

impl View for Milestone {
    type V = MilestoneView;

    open spec fn view(&self) -> MilestoneView {
        MilestoneView {
            id: self.id as int,
            name: self.name@,
            description: opt_text(self.description),
            status: self.status@,
            created_at: self.created_at,
            closed_at: self.closed_at,
        }
    }
}

impl Row for Milestone {
    fn duplicate(&self) -> (r: Milestone) {
        Milestone {
            id: self.id,
            name: self.name.clone(),
            description: copy_opt_text(&self.description),
            status: self.status.clone(),
            created_at: self.created_at,
            closed_at: self.closed_at,
        }
    }
}

/// A label on an issue.
#[derive(Debug, Clone, PartialEq)]
pub struct Label {
    pub issue_id: i64,
    pub label: String,
}

pub ghost struct LabelView {
    pub issue_id: int,
    pub label: Seq<char>,
}

impl View for Label {
    type V = LabelView;

    open spec fn view(&self) -> LabelView {
        LabelView { issue_id: self.issue_id as int, label: self.label@ }
    }
}

impl Row for Label {
    fn duplicate(&self) -> (r: Label) {
        Label { issue_id: self.issue_id, label: self.label.clone() }
    }
}

/// A link between two issues, the smaller number first.
#[derive(Debug, Clone, Copy, PartialEq)]
pub struct Relation {
    pub issue_id_1: i64,
    pub issue_id_2: i64,
    pub created_at: Timestamp,
}

pub ghost struct RelationView {
    pub issue_id_1: int,
    pub issue_id_2: int,
    pub created_at: Timestamp,
}

impl View for Relation {
    type V = RelationView;

    open spec fn view(&self) -> RelationView {
        RelationView {
            issue_id_1: self.issue_id_1 as int,
            issue_id_2: self.issue_id_2 as int,
            created_at: self.created_at,
        }
    }
}

/// A timed stretch of work on an issue; it is running while `ended_at` is
/// `None`.
#[derive(Debug, Clone, Copy, PartialEq)]
pub struct TimeEntry {
    pub id: i64,
    pub issue_id: i64,
    pub started_at: Timestamp,
    pub ended_at: Option<Timestamp>,
    pub duration_seconds: Option<i64>,
}

pub ghost struct TimeEntryView {
    pub id: int,
    pub issue_id: int,
    pub started_at: Timestamp,
    pub ended_at: Option<Timestamp>,
    pub duration_seconds: Option<int>,
}

impl View for TimeEntry {
    type V = TimeEntryView;

    open spec fn view(&self) -> TimeEntryView {
        TimeEntryView {
            id: self.id as int,
            issue_id: self.issue_id as int,
            started_at: self.started_at,
            ended_at: self.ended_at,
            duration_seconds: opt_id(self.duration_seconds),
        }
    }
}

impl Row for Relation {
    fn duplicate(&self) -> (r: Relation) {
        *self
    }
}

impl Row for TimeEntry {
    fn duplicate(&self) -> (r: TimeEntry) {
        *self
    }
}

} // verus!
