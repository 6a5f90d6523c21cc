//! Sessions: beginning and ending them, and what is worked on.

use vstd::prelude::*;

use crate::clock::{system_time, Timestamp};
use crate::commands::CommandError;
use crate::db::{opt_row, opt_str, Database, DbError, DbView};
use crate::models::{Issue, Row, Session, SessionView};
use crate::text::opt_text;

verus! {

/// What beginning a session came to.
#[derive(Debug, Clone, PartialEq)]
pub enum SessionStart {
    /// A session is running already; none was begun.
    AlreadyActive(Session),
    /// A session was begun; `previous` is the latest session that had ended
    /// before.
    Started { id: i64, previous: Option<Session> },
}

/// Begins a session unless one is running.
pub fn start(db: &mut Database) -> (r: Result<SessionStart, CommandError>)
    requires
        old(db).wf(),
    ensures
        final(db).wf(),
        match old(db)@.current_session() {
            Some(s) => {
                &&& final(db)@ == old(db)@
                &&& r matches Ok(SessionStart::AlreadyActive(a)) && a@ == s
            },
            None => if old(db)@.can_start_session() {
                &&& r matches Ok(SessionStart::Started { id, previous })
                &&& id == old(db)@.last_session_id + 1
                &&& opt_row(previous) == old(db)@.last_session()
                &&& exists|now: Timestamp| final(db)@ == #[trigger] old(db)@.start_session(now)
            } else {
                final(db)@ == old(db)@ && r == Err::<SessionStart, CommandError>(
                    CommandError::Store(DbError::Full),
                )
            },
        },
{
    match db.get_current_session() {
        Ok(Some(current)) => {
            return Ok(SessionStart::AlreadyActive(current));
        },
        Ok(None) => {},
        Err(e) => {
            return Err(CommandError::Store(e));
        },
    }
    let previous = match db.get_last_session() {
        Ok(p) => p,
        Err(e) => {
            return Err(CommandError::Store(e));
        },
    };
    match db.start_session() {
        Ok(id) => Ok(SessionStart::Started { id, previous }),
        Err(e) => Err(CommandError::Store(e)),
    }
}

/// Ends the running session, leaving `notes` for the next one, and hands
/// back its number.
pub fn end(db: &mut Database, notes: Option<&str>) -> (r: Result<i64, CommandError>)
    requires
        old(db).wf(),
    ensures
        final(db).wf(),
        match old(db)@.current_session() {
            Some(s) => r == Ok::<i64, CommandError>(s.id as i64) && exists|now: Timestamp|
                final(db)@ == #[trigger] old(db)@.end_session(s.id, opt_str(notes), now),
            None => r == Err::<i64, CommandError>(CommandError::NoActiveSession) && final(db)@
                == old(db)@,
        },
{
    let session = match db.get_current_session() {
        Ok(Some(s)) => s,
        Ok(None) => {
            return Err(CommandError::NoActiveSession);
        },
        Err(e) => {
            return Err(CommandError::Store(e));
        },
    };
    match db.end_session(session.id, notes) {
        Ok(_) => Ok(session.id),
        Err(e) => Err(CommandError::Store(e)),
    }
}

/// The issue that a session works on.
#[derive(Debug, Clone, PartialEq)]
pub enum ActiveIssue {
    /// The session works on no issue.
    Nothing,
    /// The session works on this issue.
    Found(Issue),
    /// The session names an issue that does not exist.
    Missing(i64),
}

/// The running session as `status` reports it.
#[derive(Debug, Clone, PartialEq)]
pub struct SessionStatus {
    pub session: Session,
    pub issue: ActiveIssue,
    /// The whole minutes since the session began.
    pub minutes: i64,
}

/// The whole minutes in `seconds`, rounded toward zero.
pub open spec fn whole_minutes(seconds: int) -> int {
    if seconds >= 0 {
        seconds / 60
    } else {
        -((-seconds) / 60)
    }
}

/// The whole minutes in `seconds`, rounded toward zero.
pub fn minutes_in(seconds: i64) -> (m: i64)
    ensures
        m == whole_minutes(seconds as int),
{
    if seconds >= 0 {
        seconds / 60
    } else if seconds == i64::MIN {
        -153722867280912930
    } else {
        -((-seconds) / 60)
    }
}

/// Whether `issue` is what the store holds for the session `s`.
pub open spec fn is_active_issue(v: DbView, s: SessionView, issue: ActiveIssue) -> bool {
    match s.active_issue_id {
        None => issue == ActiveIssue::Nothing,
        Some(id) => match v.find_issue(id) {
            Some(row) => issue matches ActiveIssue::Found(i) && i@ == row,
            None => issue == ActiveIssue::Missing(id as i64),
        },
    }
}

/// The running session, the issue it works on and how long it has run at
/// the time `now`; `None` where no session is running.
pub fn status_at(db: &Database, now: Timestamp) -> (r: Result<Option<SessionStatus>, CommandError>)
    requires
        db.wf(),
    ensures
        match db@.current_session() {
            None => r == Ok::<Option<SessionStatus>, CommandError>(None),
            Some(s) => r matches Ok(Some(st)) && st.session@ == s && is_active_issue(
                db@,
                s,
                st.issue,
            ) && st.minutes == whole_minutes(s.started_at.seconds_until(now)),
        },
{
    let session = match db.get_current_session() {
        Ok(Some(s)) => s,
        Ok(None) => {
            return Ok(None);
        },
        Err(e) => {
            return Err(CommandError::Store(e));
        },
    };
    let minutes = minutes_in(session.started_at.elapsed_seconds(&now));
    let issue = match session.active_issue_id {
        Some(issue_id) => match db.get_issue(issue_id) {
            Ok(Some(issue)) => ActiveIssue::Found(issue),
            Ok(None) => ActiveIssue::Missing(issue_id),
            Err(e) => {
                return Err(CommandError::Store(e));
            },
        },
        None => ActiveIssue::Nothing,
    };
    Ok(Some(SessionStatus { session, issue, minutes }))
}

/// The running session, the issue it works on and how long it has run;
/// `None` where no session is running.
pub fn status(db: &Database) -> (r: Result<Option<SessionStatus>, CommandError>)
    requires
        db.wf(),
    ensures
        match db@.current_session() {
            None => r == Ok::<Option<SessionStatus>, CommandError>(None),
            Some(s) => r matches Ok(Some(st)) && st.session@ == s && is_active_issue(
                db@,
                s,
                st.issue,
            ),
        },
{
    let now = system_time();
    status_at(db, now)
}

/// What `work` answers: a session must be running and the issue must exist.
pub open spec fn work_error(v: DbView, issue_id: int) -> Option<CommandError> {
    if v.current_session() is None {
        Some(CommandError::SessionNotStarted)
    } else if !v.has_issue(issue_id) {
        Some(CommandError::Store(DbError::IssueNotFound(issue_id as i64)))
    } else {
        None
    }
}

/// Makes the issue `issue_id` the one that the running session works on,
/// and hands the issue back.
pub fn work(db: &mut Database, issue_id: i64) -> (r: Result<Issue, CommandError>)
    requires
        old(db).wf(),
    ensures
        final(db).wf(),
        match work_error(old(db)@, issue_id as int) {
            Some(e) => r == Err::<Issue, CommandError>(e) && final(db)@ == old(db)@,
            None => {
                &&& final(db)@ == old(db)@.set_session_issue(
                    old(db)@.current_session()->0.id,
                    issue_id as int,
                )
                &&& r matches Ok(issue) && Some(issue@) == old(db)@.find_issue(issue_id as int)
            },
        },
{
    let session = match db.get_current_session() {
        Ok(Some(s)) => s,
        Ok(None) => {
            return Err(CommandError::SessionNotStarted);
        },
        Err(e) => {
            return Err(CommandError::Store(e));
        },
    };
    let issue = match db.get_issue(issue_id) {
        Ok(Some(i)) => i,
        Ok(None) => {
            return Err(CommandError::Store(DbError::IssueNotFound(issue_id)));
        },
        Err(e) => {
            return Err(CommandError::Store(e));
        },
    };
    match db.set_session_issue(session.id, issue_id) {
        Ok(_) => Ok(issue),
        Err(e) => Err(CommandError::Store(e)),
    }
}

/// What the latest ended session left for the next one.
#[derive(Debug, Clone, PartialEq)]
pub enum Handoff {
    /// The notes that it left.
    Notes(String),
    /// It left no notes, or empty ones.
    NoNotes,
    /// No session has ended yet.
    NoSession,
}

/// Whether `h` is what the session `last` left.
pub open spec fn is_handoff(last: Option<SessionView>, h: Handoff) -> bool {
    match last {
        None => h == Handoff::NoSession,
        Some(s) => if s.handoff_notes is Some && s.handoff_notes->0.len() > 0 {
            h matches Handoff::Notes(n) && n@ == s.handoff_notes->0
        } else {
            h == Handoff::NoNotes
        },
    }
}

/// The notes that the latest ended session left.
pub fn last_handoff(db: &Database) -> (r: Result<Handoff, CommandError>)
    ensures
        r matches Ok(h) && is_handoff(db@.last_session(), h),
{
    match db.get_last_session() {
        Ok(Some(session)) => match session.handoff_notes {
            Some(notes) => if notes.as_str().unicode_len() > 0 {
                Ok(Handoff::Notes(notes))
            } else {
                Ok(Handoff::NoNotes)
            },
            None => Ok(Handoff::NoNotes),
        },
        Ok(None) => Ok(Handoff::NoSession),
        Err(e) => Err(CommandError::Store(e)),
    }
}

} // verus!
