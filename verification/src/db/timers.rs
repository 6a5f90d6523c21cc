//! Time entries: how long an issue was worked on.

use vstd::prelude::*;

use crate::clock::{system_time, Timestamp};
use crate::db::comments::as_row_number;
use crate::db::{issue_ids, Database, DbError, DbView};
use crate::models::{TimeEntry, TimeEntryView};
use crate::seqs::{lemma_filter_first, lemma_filter_last, lemma_filter_none};

verus! {

/// Whether `e` is an entry of `issue_id` that is still running.
pub open spec fn is_running_on(e: TimeEntryView, issue_id: int) -> bool {
    e.issue_id == issue_id && e.ended_at is None
}

/// The seconds counted for `issue_id` in `entries`, taken in order; `None`
/// once a partial sum leaves the range of `i64`.
pub open spec fn summed_seconds(entries: Seq<TimeEntryView>, issue_id: int) -> Option<int>
    decreases entries.len(),
{
    if entries.len() == 0 {
        Some(0)
    } else {
        let last = entries.last();
        match summed_seconds(entries.drop_last(), issue_id) {
            None => None,
            Some(t) => if last.issue_id == issue_id && last.duration_seconds is Some {
                let n = t + last.duration_seconds->0;
                if i64::MIN <= n <= i64::MAX {
                    Some(n)
                } else {
                    None
                }
            } else {
                Some(t)
            },
        }
    }
}

impl DbView {
    /// What `start_timer` answers: the number of the new entry, or why there
    /// is none.
    pub open spec fn start_timer_result(self, issue_id: int) -> Result<int, DbError> {
        if self.last_time_entry_id >= i64::MAX {
            Err(DbError::Full)
        } else if !self.has_issue(issue_id) {
            Err(DbError::ForeignKey)
        } else {
            Ok(self.last_time_entry_id + 1)
        }
    }

    /// The store after `start_timer` at the time `now`.
    pub open spec fn start_timer(self, issue_id: int, now: Timestamp) -> DbView {
        if self.start_timer_result(issue_id) is Ok {
            DbView {
                time_entries: self.time_entries.push(
                    TimeEntryView {
                        id: self.last_time_entry_id + 1,
                        issue_id,
                        started_at: now,
                        ended_at: None,
                        duration_seconds: None,
                    },
                ),
                last_time_entry_id: self.last_time_entry_id + 1,
                ..self
            }
        } else {
            self
        }
    }

    /// The entries of `issue_id` that are still running, by rising number.
    pub open spec fn running_entries(self, issue_id: int) -> Seq<TimeEntryView> {
        self.time_entries.filter(|e: TimeEntryView| is_running_on(e, issue_id))
    }

    /// The store after `stop_timer` at the time `now`: every running entry of
    /// the issue ends at `now`, with the seconds from the start of the first
    /// of them to `now`.
    pub open spec fn stop_timer(self, issue_id: int, now: Timestamp) -> DbView {
        if self.running_entries(issue_id).len() > 0 {
            let seconds = self.running_entries(issue_id)[0].started_at.seconds_until(now);
            DbView {
                time_entries: self.time_entries.map_values(
                    |e: TimeEntryView|
                        if is_running_on(e, issue_id) {
                            TimeEntryView {
                                ended_at: Some(now),
                                duration_seconds: Some(seconds),
                                ..e
                            }
                        } else {
                            e
                        },
                ),
                ..self
            }
        } else {
            self
        }
    }

    /// The running entry, the latest where there are several: its issue and
    /// its start.
    pub open spec fn active_timer(self) -> Option<(int, Timestamp)> {
        let running = self.time_entries.filter(|e: TimeEntryView| e.ended_at is None);
        if running.len() > 0 {
            Some((running.last().issue_id, running.last().started_at))
        } else {
            None
        }
    }

    /// The seconds counted for `issue_id`, or 0 where their sum leaves the
    /// range of `i64`.
    pub open spec fn total_time(self, issue_id: int) -> int {
        match summed_seconds(self.time_entries, issue_id) {
            Some(t) => t,
            None => 0,
        }
    }
}

/// The running entry as the machine holds it.
pub open spec fn timer_view(o: Option<(i64, Timestamp)>) -> Option<(int, Timestamp)> {
    match o {
        Some((id, t)) => Some((id as int, t)),
        None => None,
    }
}

impl Database {
    /// Starts the clock on the issue `issue_id` and hands back the number of
    /// the new entry.
    pub fn start_timer(&mut self, issue_id: i64) -> (r: Result<i64, DbError>)
        requires
            old(self).wf(),
        ensures
            final(self).wf(),
            as_row_number(r) == old(self)@.start_timer_result(issue_id as int),
            exists|now: Timestamp| final(self)@ == #[trigger] old(self)@.start_timer(issue_id as int, now),
    {
        let now = system_time();
        self.start_timer_at(issue_id, now)
    }

    /// `start_timer` at the time `now`.
    pub fn start_timer_at(&mut self, issue_id: i64, now: Timestamp) -> (r: Result<i64, DbError>)
        requires
            old(self).wf(),
        ensures
            final(self).wf(),
            as_row_number(r) == old(self)@.start_timer_result(issue_id as int),
            final(self)@ == old(self)@.start_timer(issue_id as int, now),
    {
        if self.last_time_entry_id == i64::MAX {
            return Err(DbError::Full);
        }
        if self.issue_index(issue_id).is_none() {
            return Err(DbError::ForeignKey);
        }
        let id: i64 = self.last_time_entry_id + 1;
        self.time_entries.push(
            TimeEntry { id, issue_id, started_at: now, ended_at: None, duration_seconds: None },
        );
        self.last_time_entry_id = id;
        proof {
            let before = old(self)@;
            assert(self@.time_entries =~= before.start_timer(issue_id as int, now).time_entries);
            assert forall|i: int, j: int| 0 <= i < j < self@.time_entries.len() implies (
            #[trigger] self@.time_entries[i]).id < (#[trigger] self@.time_entries[j]).id by {
                assert(self@.time_entries[i] == before.time_entries[i]);
                if j < before.time_entries.len() {
                    assert(self@.time_entries[j] == before.time_entries[j]);
                }
            }
            assert forall|i: int| 0 <= i < self@.time_entries.len() implies 1 <= (
            #[trigger] self@.time_entries[i]).id <= self@.last_time_entry_id && issue_ids(
                self@.issues,
            ).contains(self@.time_entries[i].issue_id) by {
                if i < before.time_entries.len() {
                    assert(self@.time_entries[i] == before.time_entries[i]);
                }
            }
        }
        Ok(id)
    }

    /// Stops the clock on the issue `issue_id` and says whether it was
    /// running.
    pub fn stop_timer(&mut self, issue_id: i64) -> (r: Result<bool, DbError>)
        requires
            old(self).wf(),
        ensures
            final(self).wf(),
            r == Ok::<bool, DbError>(old(self)@.running_entries(issue_id as int).len() > 0),
            exists|now: Timestamp| final(self)@ == #[trigger] old(self)@.stop_timer(issue_id as int, now),
    {
        let now = system_time();
        self.stop_timer_at(issue_id, now)
    }

    /// `stop_timer` at the time `now`.
    pub fn stop_timer_at(&mut self, issue_id: i64, now: Timestamp) -> (r: Result<bool, DbError>)
        requires
            old(self).wf(),
        ensures
            final(self).wf(),
            r == Ok::<bool, DbError>(old(self)@.running_entries(issue_id as int).len() > 0),
            final(self)@ == old(self)@.stop_timer(issue_id as int, now),
    {
        let ghost before = old(self)@;
        let ghost id = issue_id as int;
        let ghost p = |e: TimeEntryView| is_running_on(e, id);
        let n: usize = self.time_entries.len();
        let mut first: usize = 0;
        while first < n && !(self.time_entries[first].issue_id == issue_id
            && self.time_entries[first].ended_at.is_none())
            invariant
                first <= n == self.time_entries@.len(),
                self@ == before,
                id == issue_id as int,
                p == |e: TimeEntryView| is_running_on(e, id),
                forall|j: int| 0 <= j < first ==> !p(#[trigger] before.time_entries[j]),
            decreases n - first,
        {
            first += 1;
        }
        if first == n {
            proof {
                lemma_filter_none(before.time_entries, p);
            }
            return Ok(false);
        }
        proof {
            lemma_filter_first(before.time_entries, first as int, p);
        }
        let seconds: i64 = self.time_entries[first].started_at.elapsed_seconds(&now);
        let ghost after = before.stop_timer(id, now);
        let mut i: usize = first;
        while i < n
            invariant
                first <= i <= n == self.time_entries@.len(),
                id == issue_id as int,
                n == before.time_entries.len(),
                self@ == (DbView { time_entries: self@.time_entries, ..before }),
                after == before.stop_timer(id, now),
                after.time_entries.len() == n,
                before.running_entries(id).len() > 0,
                seconds == before.running_entries(id)[0].started_at.seconds_until(now),
                forall|j: int| 0 <= j < first ==> !is_running_on(#[trigger] before.time_entries[j], id),
                forall|j: int| 0 <= j < i ==> #[trigger] self@.time_entries[j] == after.time_entries[j],
                forall|j: int|
                    i <= j < n ==> #[trigger] self@.time_entries[j] == before.time_entries[j],
            decreases n - i,
        {
            let ghost prev = self@.time_entries;
            assert(prev[i as int] == before.time_entries[i as int]);
            if self.time_entries[i].issue_id == issue_id && self.time_entries[i].ended_at.is_none() {
                let e = self.time_entries[i];
                let stopped = TimeEntry {
                    ended_at: Some(now),
                    duration_seconds: Some(seconds),
                    ..e
                };
                self.time_entries.set(i, stopped);
                assert(self@.time_entries =~= prev.update(i as int, stopped@));
            }
            assert forall|j: int| 0 <= j < i + 1 implies #[trigger] self@.time_entries[j]
                == after.time_entries[j] by {
                if j < i {
                    assert(prev[j] == after.time_entries[j]);
                }
            }
            assert forall|j: int| i + 1 <= j < n implies #[trigger] self@.time_entries[j]
                == before.time_entries[j] by {
                assert(prev[j] == before.time_entries[j]);
            }
            i += 1;
        }
        proof {
            assert(self@.time_entries =~= after.time_entries);
            assert forall|a: int, b: int| 0 <= a < b < self@.time_entries.len() implies (
            #[trigger] self@.time_entries[a]).id < (#[trigger] self@.time_entries[b]).id by {
                assert(before.time_entries[a].id < before.time_entries[b].id);
            }
            assert forall|a: int| 0 <= a < self@.time_entries.len() implies 1 <= (
            #[trigger] self@.time_entries[a]).id <= self@.last_time_entry_id && issue_ids(
                self@.issues,
            ).contains(self@.time_entries[a].issue_id) by {
                assert(1 <= before.time_entries[a].id <= before.last_time_entry_id);
            }
        }
        Ok(true)
    }

    /// The running entry, the latest where there are several: its issue and
    /// its start.
    pub fn get_active_timer(&self) -> (r: Result<Option<(i64, Timestamp)>, DbError>)
        ensures
            r matches Ok(o) && timer_view(o) == self@.active_timer(),
    {
        let ghost all = self@.time_entries;
        let ghost p = |e: TimeEntryView| e.ended_at is None;
        let mut i: usize = self.time_entries.len();
        while i > 0
            invariant
                i <= self.time_entries@.len(),
                all == self@.time_entries,
                p == |e: TimeEntryView| e.ended_at is None,
                forall|j: int| i <= j < all.len() ==> !p(#[trigger] all[j]),
            decreases i,
        {
            i -= 1;
            if self.time_entries[i].ended_at.is_none() {
                proof {
                    lemma_filter_last(all, i as int, p);
                }
                return Ok(Some((self.time_entries[i].issue_id, self.time_entries[i].started_at)));
            }
        }
        proof {
            lemma_filter_none(all, p);
        }
        Ok(None)
    }

    /// The seconds counted for the issue `issue_id`: the sum over its ended
    /// entries, or 0 where the sum leaves the range of `i64`.
    pub fn get_total_time(&self, issue_id: i64) -> (r: Result<i64, DbError>)
        ensures
            r matches Ok(t) && t == self@.total_time(issue_id as int),
    {
        let ghost all = self@.time_entries;
        let mut total: i64 = 0;
        let mut i: usize = 0;
        while i < self.time_entries.len()
            invariant
                i <= self.time_entries@.len(),
                all == self@.time_entries,
                summed_seconds(all.subrange(0, i as int), issue_id as int) == Some(total as int),
            decreases self.time_entries@.len() - i,
        {
            let e = self.time_entries[i];
            proof {
                assert(all.subrange(0, i + 1).drop_last() =~= all.subrange(0, i as int));
                assert(all.subrange(0, i + 1).last() == e@);
            }
            if e.issue_id == issue_id {
                if let Some(d) = e.duration_seconds {
                    match total.checked_add(d) {
                        Some(n) => {
                            total = n;
                        },
                        None => {
                            proof {
                                lemma_sum_stays_lost(all, i + 1, issue_id as int);
                            }
                            return Ok(0);
                        },
                    }
                }
            }
            i += 1;
        }
        assert(all.subrange(0, i as int) =~= all);
        Ok(total)
    }
}

/// A sum that has left the range of `i64` after `n` entries stays lost.
proof fn lemma_sum_stays_lost(all: Seq<TimeEntryView>, n: int, issue_id: int)
    requires
        0 <= n <= all.len(),
        summed_seconds(all.subrange(0, n), issue_id) is None,
    ensures
        summed_seconds(all, issue_id) is None,
    decreases all.len() - n,
{
    if n < all.len() {
        assert(all.subrange(0, n + 1).drop_last() =~= all.subrange(0, n));
        lemma_sum_stays_lost(all, n + 1, issue_id);
    } else {
        assert(all.subrange(0, n) =~= all);
    }
}

} // verus!
