//! Showing one issue with all that belongs to it.

use vstd::prelude::*;

use crate::commands::CommandError;
use crate::db::{opt_row, rows_view, Database, DbError};
use crate::graph::ids_view;
use crate::models::{Comment, Issue, Milestone};
use crate::text::{texts_rise, texts_view};

verus! {

/// An issue with all that belongs to it.
#[derive(Debug, Clone, PartialEq)]
pub struct IssueDetail {
    pub issue: Issue,
    pub labels: Vec<String>,
    pub milestone: Option<Milestone>,
    pub comments: Vec<Comment>,
    pub blocked_by: Vec<i64>,
    pub blocking: Vec<i64>,
    pub subissues: Vec<Issue>,
    pub related: Vec<Issue>,
}

/// The issue `id` with its labels, milestone, comments, dependencies,
/// subissues and related issues.
pub fn run(db: &Database, id: i64) -> (r: Result<IssueDetail, CommandError>)
    requires
        db.wf(),
    ensures
        match r {
            Ok(d) => {
                &&& db@.find_issue(id as int) == Some(d.issue@)
                &&& texts_rise(texts_view(d.labels@))
                &&& forall|t: Seq<char>|
                    texts_view(d.labels@).contains(t) <==> db@.has_label(id as int, t)
                &&& opt_row(d.milestone) == db@.issue_milestone(id as int)
                &&& rows_view(d.comments@) == db@.comments_of(id as int)
                &&& ids_view(d.blocked_by@) == db@.blockers(id as int)
                &&& ids_view(d.blocking@) == db@.blocking(id as int)
                &&& rows_view(d.subissues@) == db@.subissues(id as int)
                &&& rows_view(d.related@) == db@.related_issues(id as int)
            },
            Err(e) => !db@.has_issue(id as int) && e == CommandError::Store(
                DbError::IssueNotFound(id),
            ),
        },
{
    let issue = match db.require_issue(id) {
        Ok(i) => i,
        Err(e) => {
            return Err(CommandError::Store(e));
        },
    };
    let labels = match db.get_labels(id) {
        Ok(v) => v,
        Err(e) => {
            return Err(CommandError::Store(e));
        },
    };
    let milestone = match db.get_issue_milestone(id) {
        Ok(v) => v,
        Err(e) => {
            return Err(CommandError::Store(e));
        },
    };
    let comments = match db.get_comments(id) {
        Ok(v) => v,
        Err(e) => {
            return Err(CommandError::Store(e));
        },
    };
    let blocked_by = match db.get_blockers(id) {
        Ok(v) => v,
        Err(e) => {
            return Err(CommandError::Store(e));
        },
    };
    let blocking = match db.get_blocking(id) {
        Ok(v) => v,
        Err(e) => {
            return Err(CommandError::Store(e));
        },
    };
    let subissues = match db.get_subissues(id) {
        Ok(v) => v,
        Err(e) => {
            return Err(CommandError::Store(e));
        },
    };
    let related = match db.get_related_issues(id) {
        Ok(v) => v,
        Err(e) => {
            return Err(CommandError::Store(e));
        },
    };
    Ok(IssueDetail { issue, labels, milestone, comments, blocked_by, blocking, subissues, related })
}

} // verus!
