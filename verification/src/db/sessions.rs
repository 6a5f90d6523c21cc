//! Sessions: stretches of work, the issue each is on, and the notes left for
//! the next one.

use vstd::prelude::*;

use crate::clock::{system_time, Timestamp};
use crate::db::{issue_ids, opt_row, opt_str, own_opt_str, rows_view, Database, DbError, DbView};
use crate::models::{Row, Session, SessionView};
use crate::seqs::{lemma_filter_last, lemma_filter_none};

verus! {

impl DbView {
    /// Whether a session has the number `id`.
    pub open spec fn has_session(self, id: int) -> bool {
        exists|k: int| 0 <= k < self.sessions.len() && (#[trigger] self.sessions[k]).id == id
    }

    /// Whether the sessions table can still give out a number.
    pub open spec fn can_start_session(self) -> bool {
        self.last_session_id < i64::MAX
    }

    /// The store with one more session, begun at `now` and not yet ended.
    pub open spec fn start_session(self, now: Timestamp) -> DbView {
        DbView {
            sessions: self.sessions.push(
                SessionView {
                    id: self.last_session_id + 1,
                    started_at: now,
                    ended_at: None,
                    active_issue_id: None,
                    handoff_notes: None,
                },
            ),
            last_session_id: self.last_session_id + 1,
            ..self
        }
    }

    /// The store after the session `id` was ended at `now` with `notes`.
    pub open spec fn end_session(self, id: int, notes: Option<Seq<char>>, now: Timestamp) -> DbView {
        DbView {
            sessions: self.sessions.map_values(
                |s: SessionView|
                    if s.id == id {
                        SessionView { ended_at: Some(now), handoff_notes: notes, ..s }
                    } else {
                        s
                    },
            ),
            ..self
        }
    }

    /// The sessions that have not ended, by rising number.
    pub open spec fn running_sessions(self) -> Seq<SessionView> {
        self.sessions.filter(|s: SessionView| s.ended_at is None)
    }

    /// The sessions that have ended, by rising number.
    pub open spec fn ended_sessions(self) -> Seq<SessionView> {
        self.sessions.filter(|s: SessionView| s.ended_at is Some)
    }

    /// The session that has not ended; the latest where there are several.
    pub open spec fn current_session(self) -> Option<SessionView> {
        if self.running_sessions().len() > 0 {
            Some(self.running_sessions().last())
        } else {
            None
        }
    }

    /// The latest session that has ended.
    pub open spec fn last_session(self) -> Option<SessionView> {
        if self.ended_sessions().len() > 0 {
            Some(self.ended_sessions().last())
        } else {
            None
        }
    }

    /// What `set_session_issue` answers: `false` where there is no such
    /// session; otherwise the issue must exist.
    pub open spec fn set_session_issue_result(self, session_id: int, issue_id: int) -> Result<
        bool,
        DbError,
    > {
        if !self.has_session(session_id) {
            Ok(false)
        } else if !self.has_issue(issue_id) {
            Err(DbError::ForeignKey)
        } else {
            Ok(true)
        }
    }

    /// The store after `set_session_issue`.
    pub open spec fn set_session_issue(self, session_id: int, issue_id: int) -> DbView {
        if self.set_session_issue_result(session_id, issue_id) == Ok::<bool, DbError>(true) {
            DbView {
                sessions: self.sessions.map_values(
                    |s: SessionView|
                        if s.id == session_id {
                            SessionView { active_issue_id: Some(issue_id), ..s }
                        } else {
                            s
                        },
                ),
                ..self
            }
        } else {
            self
        }
    }
}

impl Database {
    /// The row of the session `id`, if there is one.
    fn session_index(&self, id: i64) -> (r: Option<usize>)
        ensures
            match r {
                Some(i) => i < self@.sessions.len() && self@.sessions[i as int].id == id,
                None => !self@.has_session(id as int),
            },
    {
        let mut i: usize = 0;
        while i < self.sessions.len()
            invariant
                i <= self.sessions@.len(),
                forall|k: int| 0 <= k < i ==> (#[trigger] self@.sessions[k]).id != id,
            decreases self.sessions@.len() - i,
        {
            if self.sessions[i].id == id {
                return Some(i);
            }
            i += 1;
        }
        None
    }

    /// Begins a session and hands back its number.
    pub fn start_session(&mut self) -> (r: Result<i64, DbError>)
        requires
            old(self).wf(),
        ensures
            final(self).wf(),
            match r {
                Ok(id) => old(self)@.can_start_session() && id == old(self)@.last_session_id + 1
                    && exists|now: Timestamp|
                    final(self)@ == #[trigger] old(self)@.start_session(now),
                Err(e) => e == DbError::Full && !old(self)@.can_start_session() && final(self)@
                    == old(self)@,
            },
    {
        let now = system_time();
        self.start_session_at(now)
    }

    /// `start_session` at the time `now`.
    pub fn start_session_at(&mut self, now: Timestamp) -> (r: Result<i64, DbError>)
        requires
            old(self).wf(),
        ensures
            final(self).wf(),
            match r {
                Ok(id) => old(self)@.can_start_session() && id == old(self)@.last_session_id + 1
                    && final(self)@ == old(self)@.start_session(now),
                Err(e) => e == DbError::Full && !old(self)@.can_start_session() && final(self)@
                    == old(self)@,
            },
    {
        if self.last_session_id == i64::MAX {
            return Err(DbError::Full);
        }
        let id: i64 = self.last_session_id + 1;
        self.sessions.push(
            Session {
                id,
                started_at: now,
                ended_at: None,
                active_issue_id: None,
                handoff_notes: None,
            },
        );
        self.last_session_id = id;
        proof {
            let before = old(self)@;
            assert(self@.sessions =~= before.start_session(now).sessions);
            assert forall|i: int, j: int| 0 <= i < j < self@.sessions.len() implies (
            #[trigger] self@.sessions[i]).id < (#[trigger] self@.sessions[j]).id by {
                assert(self@.sessions[i] == before.sessions[i]);
                if j < before.sessions.len() {
                    assert(self@.sessions[j] == before.sessions[j]);
                }
            }
            assert forall|i: int| 0 <= i < self@.sessions.len() implies 1 <= (
            #[trigger] self@.sessions[i]).id <= self@.last_session_id
                && crate::db::session_ref_ok(self@.sessions[i], issue_ids(self@.issues)) by {
                if i < before.sessions.len() {
                    assert(self@.sessions[i] == before.sessions[i]);
                }
            }
        }
        Ok(id)
    }

    /// Ends the session `id`, leaving `notes` for the next one, and says
    /// whether there is such a session. A session that had ended already is
    /// ended anew.
    pub fn end_session(&mut self, id: i64, notes: Option<&str>) -> (r: Result<bool, DbError>)
        requires
            old(self).wf(),
        ensures
            final(self).wf(),
            r == Ok::<bool, DbError>(old(self)@.has_session(id as int)),
            exists|now: Timestamp|
                final(self)@ == #[trigger] old(self)@.end_session(id as int, opt_str(notes), now),
    {
        let now = system_time();
        self.end_session_at(id, notes, now)
    }

    /// `end_session` at the time `now`.
    pub fn end_session_at(&mut self, id: i64, notes: Option<&str>, now: Timestamp) -> (r: Result<
        bool,
        DbError,
    >)
        requires
            old(self).wf(),
        ensures
            final(self).wf(),
            r == Ok::<bool, DbError>(old(self)@.has_session(id as int)),
            final(self)@ == old(self)@.end_session(id as int, opt_str(notes), now),
    {
        let ghost before = old(self)@;
        match self.session_index(id) {
            Some(i) => {
                self.sessions[i].ended_at = Some(now);
                self.sessions[i].handoff_notes = own_opt_str(notes);
                proof {
                    let after = before.end_session(id as int, opt_str(notes), now);
                    assert forall|j: int| 0 <= j < before.sessions.len() && j != i implies (
                    #[trigger] before.sessions[j]).id != id by {
                        if j < i {
                            assert(before.sessions[j].id < before.sessions[i as int].id);
                        } else {
                            assert(before.sessions[i as int].id < before.sessions[j].id);
                        }
                    }
                    assert(self@.sessions =~= after.sessions);
                    lemma_sessions_keep_rules(before, self@);
                }
                Ok(true)
            },
            None => {
                proof {
                    let after = before.end_session(id as int, opt_str(notes), now);
                    assert(after.sessions =~= before.sessions);
                }
                Ok(false)
            },
        }
    }

    /// The session that has not ended; the latest where there are several.
    pub fn get_current_session(&self) -> (r: Result<Option<Session>, DbError>)
        ensures
            r matches Ok(o) && opt_row(o) == self@.current_session(),
    {
        let ghost all = self@.sessions;
        let ghost p = |s: SessionView| s.ended_at is None;
        let mut i: usize = self.sessions.len();
        while i > 0
            invariant
                i <= self.sessions@.len(),
                all == self@.sessions,
                p == |s: SessionView| s.ended_at is None,
                forall|j: int| i <= j < all.len() ==> !p(#[trigger] all[j]),
            decreases i,
        {
            i -= 1;
            if self.sessions[i].ended_at.is_none() {
                proof {
                    lemma_filter_last(all, i as int, p);
                }
                return Ok(Some(self.sessions[i].duplicate()));
            }
        }
        proof {
            lemma_filter_none(all, p);
        }
        Ok(None)
    }

    /// The latest session that has ended.
    pub fn get_last_session(&self) -> (r: Result<Option<Session>, DbError>)
        ensures
            r matches Ok(o) && opt_row(o) == self@.last_session(),
    {
        let ghost all = self@.sessions;
        let ghost p = |s: SessionView| s.ended_at is Some;
        let mut i: usize = self.sessions.len();
        while i > 0
            invariant
                i <= self.sessions@.len(),
                all == self@.sessions,
                p == |s: SessionView| s.ended_at is Some,
                forall|j: int| i <= j < all.len() ==> !p(#[trigger] all[j]),
            decreases i,
        {
            i -= 1;
            if self.sessions[i].ended_at.is_some() {
                proof {
                    lemma_filter_last(all, i as int, p);
                }
                return Ok(Some(self.sessions[i].duplicate()));
            }
        }
        proof {
            lemma_filter_none(all, p);
        }
        Ok(None)
    }

    /// Makes `issue_id` the issue that the session `session_id` works on.
    /// Says `Ok(false)` where there is no such session.
    pub fn set_session_issue(&mut self, session_id: i64, issue_id: i64) -> (r: Result<
        bool,
        DbError,
    >)
        requires
            old(self).wf(),
        ensures
            final(self).wf(),
            r == old(self)@.set_session_issue_result(session_id as int, issue_id as int),
            final(self)@ == old(self)@.set_session_issue(session_id as int, issue_id as int),
    {
        let ghost before = old(self)@;
        match self.session_index(session_id) {
            Some(i) => {
                assert(before.has_session(session_id as int));
                if self.issue_index(issue_id).is_none() {
                    return Err(DbError::ForeignKey);
                }
                self.sessions[i].active_issue_id = Some(issue_id);
                proof {
                    let after = before.set_session_issue(session_id as int, issue_id as int);
                    assert forall|j: int| 0 <= j < before.sessions.len() && j != i implies (
                    #[trigger] before.sessions[j]).id != session_id by {
                        if j < i {
                            assert(before.sessions[j].id < before.sessions[i as int].id);
                        } else {
                            assert(before.sessions[i as int].id < before.sessions[j].id);
                        }
                    }
                    assert(self@.sessions =~= after.sessions);
                    lemma_sessions_keep_rules(before, self@);
                }
                Ok(true)
            },
            None => Ok(false),
        }
    }
}

/// Sessions that change while each keeps its number and names no issue that
/// does not exist keep the rules.
pub proof fn lemma_sessions_keep_rules(v: DbView, w: DbView)
    requires
        v.wf(),
        w == (DbView { sessions: w.sessions, ..v }),
        w.sessions.len() == v.sessions.len(),
        forall|i: int|
            0 <= i < v.sessions.len() ==> (#[trigger] w.sessions[i]).id == v.sessions[i].id
                && crate::db::session_ref_ok(w.sessions[i], issue_ids(v.issues)),
    ensures
        w.wf(),
{
    assert forall|i: int, j: int| 0 <= i < j < w.sessions.len() implies (#[trigger] w.sessions[i]).id
        < (#[trigger] w.sessions[j]).id by {
        assert(v.sessions[i].id < v.sessions[j].id);
    }
    assert forall|i: int| 0 <= i < w.sessions.len() implies 1 <= (#[trigger] w.sessions[i]).id
        <= w.last_session_id by {
        assert(1 <= v.sessions[i].id <= v.last_session_id);
    }
}

} // verus!
