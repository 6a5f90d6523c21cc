//! Which issue to work on next: the ready issues, ranked.

use vstd::prelude::*;

use crate::commands::CommandError;
use crate::db::{rows_view, status_closed, Database, DbError, DbView};
use crate::models::{Issue, IssueView, Row};
use crate::text::text_eq;

verus! {

/// How much a priority counts: 4 for `critical` down to 1 for `low`, and 0
/// for any other text.
pub open spec fn weight_of(priority: Seq<char>) -> int {
    if priority == "critical"@ {
        4
    } else if priority == "high"@ {
        3
    } else if priority == "medium"@ {
        2
    } else if priority == "low"@ {
        1
    } else {
        0
    }
}

/// How much a priority counts: 4 for `critical` down to 1 for `low`, and 0
/// for any other text.
pub fn priority_weight(priority: &str) -> (w: i32)
    ensures
        w == weight_of(priority@),
{
    if text_eq(priority, "critical") {
        4
    } else if text_eq(priority, "high") {
        3
    } else if text_eq(priority, "medium") {
        2
    } else if text_eq(priority, "low") {
        1
    } else {
        0
    }
}

/// The subissues of an issue that are closed, and all of them, counted as
/// 32-bit numbers; `None` for an issue without subissues.
pub open spec fn progress_of(v: DbView, id: int) -> Option<(i32, i32)> {
    let subs = v.subissues(id);
    if subs.len() == 0 {
        None
    } else {
        Some(
            (
                subs.filter(|r: IssueView| r.status == status_closed()).len() as usize as i32,
                subs.len() as usize as i32,
            ),
        )
    }
}

/// How far the subissues of `issue` have come: how many are closed, and how
/// many there are; `None` where it has none.
pub fn calculate_progress(db: &Database, issue: &Issue) -> (r: Result<Option<(i32, i32)>, DbError>)
    requires
        db.wf(),
    ensures
        r == Ok::<Option<(i32, i32)>, DbError>(progress_of(db@, issue.id as int)),
{
    let subissues = match db.get_subissues(issue.id) {
        Ok(s) => s,
        Err(e) => {
            return Err(e);
        },
    };
    if subissues.len() == 0 {
        return Ok(None);
    }
    let ghost subs = rows_view(subissues@);
    let ghost p = |r: IssueView| r.status == status_closed();
    let mut closed: usize = 0;
    assert(subs.subrange(0, 0).filter(p).len() == 0) by {
        reveal(Seq::filter);
    }
    let mut i: usize = 0;
    while i < subissues.len()
        invariant
            i <= subissues@.len(),
            subs == rows_view(subissues@),
            p == |r: IssueView| r.status == status_closed(),
            closed <= i,
            closed == subs.subrange(0, i as int).filter(p).len(),
        decreases subissues@.len() - i,
    {
        proof {
            let done = subs.subrange(0, i as int);
            assert(subs.subrange(0, i + 1) =~= done.push(subs[i as int]));
            done.lemma_filter_push(subs[i as int], p);
            assert(subs[i as int] == subissues@[i as int]@);
        }
        if text_eq(subissues[i].status.as_str(), "closed") {
            closed += 1;
        }
        i += 1;
    }
    assert(subs.subrange(0, i as int) =~= subs);
    let total: usize = subissues.len();
    Ok(Some((#[verifier::truncate] (closed as i32), #[verifier::truncate] (total as i32))))
}

/// The score of an issue: a hundred for each step of priority, and fifty
/// more where some but not all of its subissues are closed.
pub open spec fn score_of(priority: Seq<char>, progress: Option<(i32, i32)>) -> int {
    weight_of(priority) * 100 + if progress matches Some((closed, total)) && 0 < closed < total {
        50int
    } else {
        0int
    }
}

/// The score of an issue: a hundred for each step of priority, and fifty
/// more where some but not all of its subissues are closed.
pub fn score(priority: &str, progress: &Option<(i32, i32)>) -> (s: i32)
    ensures
        s == score_of(priority@, *progress),
{
    let bonus: i32 = match progress {
        Some((closed, total)) => if *closed > 0 && *closed < *total {
            50
        } else {
            0
        },
        None => 0,
    };
    priority_weight(priority) * 100 + bonus
}

/// A ready issue with its score and the progress of its subissues.
#[derive(Debug, Clone, PartialEq)]
pub struct Candidate {
    pub issue: Issue,
    pub score: i32,
    pub progress: Option<(i32, i32)>,
}

pub ghost struct CandidateView {
    pub issue: IssueView,
    pub score: int,
    pub progress: Option<(i32, i32)>,
}

impl View for Candidate {
    type V = CandidateView;

    open spec fn view(&self) -> CandidateView {
        CandidateView { issue: self.issue@, score: self.score as int, progress: self.progress }
    }
}

/// The candidates as what they mean.
pub open spec fn candidates_view(v: Seq<Candidate>) -> Seq<CandidateView> {
    v.map_values(|c: Candidate| c@)
}

/// The issue `r` as a candidate.
pub open spec fn candidate_of(v: DbView, r: IssueView) -> CandidateView {
    CandidateView {
        issue: r,
        score: score_of(r.priority, progress_of(v, r.id)),
        progress: progress_of(v, r.id),
    }
}

/// Where `c` goes in `ranked`: behind every candidate whose score is at
/// least its own.
pub open spec fn place_of(ranked: Seq<CandidateView>, c: CandidateView) -> int
    decreases ranked.len(),
{
    if ranked.len() == 0 {
        0
    } else if ranked.last().score >= c.score {
        ranked.len() as int
    } else {
        place_of(ranked.drop_last(), c)
    }
}

/// The issues `rows` that have no parent, as candidates by falling score;
/// among equal scores the order of `rows` stays.
pub open spec fn ranked(v: DbView, rows: Seq<IssueView>) -> Seq<CandidateView>
    decreases rows.len(),
{
    if rows.len() == 0 {
        Seq::empty()
    } else {
        let before = ranked(v, rows.drop_last());
        let r = rows.last();
        if r.parent_id is Some {
            before
        } else {
            before.insert(place_of(before, candidate_of(v, r)), candidate_of(v, r))
        }
    }
}

/// The place that `place_of` gives lies in the sequence, after every score
/// that is at least the candidate's and before every score in a sequence by
/// falling score that is smaller.
pub proof fn lemma_place_of(ranked: Seq<CandidateView>, c: CandidateView)
    requires
        forall|i: int, j: int|
            0 <= i < j < ranked.len() ==> (#[trigger] ranked[i]).score >= (#[trigger] ranked[j]).score,
    ensures
        0 <= place_of(ranked, c) <= ranked.len(),
        forall|i: int| 0 <= i < place_of(ranked, c) ==> (#[trigger] ranked[i]).score >= c.score,
        forall|i: int| place_of(ranked, c) <= i < ranked.len() ==> (#[trigger] ranked[i]).score < c.score,
    decreases ranked.len(),
{
    if ranked.len() > 0 && ranked.last().score < c.score {
        let rest = ranked.drop_last();
        assert forall|i: int, j: int| 0 <= i < j < rest.len() implies (#[trigger] rest[i]).score >= (
        #[trigger] rest[j]).score by {
            assert(ranked[i].score >= ranked[j].score);
        }
        lemma_place_of(rest, c);
        assert forall|i: int| 0 <= i < place_of(ranked, c) implies (#[trigger] ranked[i]).score
            >= c.score by {
            assert(rest[i].score >= c.score);
        }
        assert forall|i: int| place_of(ranked, c) <= i < ranked.len() implies (
        #[trigger] ranked[i]).score < c.score by {
            if i < rest.len() {
                assert(rest[i].score < c.score);
            }
        }
    } else if ranked.len() > 0 {
        assert forall|i: int| 0 <= i < ranked.len() implies (#[trigger] ranked[i]).score
            >= c.score by {
            if i < ranked.len() - 1 {
                assert(ranked[i].score >= ranked[ranked.len() - 1].score);
            }
        }
    }
}

/// The ranking goes by falling score.
pub proof fn law_ranked_by_falling_score(v: DbView, rows: Seq<IssueView>)
    ensures
        forall|i: int, j: int|
            0 <= i < j < ranked(v, rows).len() ==> (#[trigger] ranked(v, rows)[i]).score >= (
            #[trigger] ranked(v, rows)[j]).score,
    decreases rows.len(),
{
    if rows.len() > 0 {
        law_ranked_by_falling_score(v, rows.drop_last());
        let before = ranked(v, rows.drop_last());
        let r = rows.last();
        if r.parent_id is None {
            let c = candidate_of(v, r);
            let at = place_of(before, c);
            lemma_place_of(before, c);
            let after = before.insert(at, c);
            assert forall|i: int, j: int| 0 <= i < j < after.len() implies (#[trigger] after[i]).score
                >= (#[trigger] after[j]).score by {
                if j < at {
                    assert(after[i] == before[i] && after[j] == before[j]);
                } else if j == at {
                    assert(after[i] == before[i]);
                } else if i == at {
                    assert(after[j] == before[j - 1]);
                } else if i < at {
                    assert(after[i] == before[i] && after[j] == before[j - 1]);
                } else {
                    assert(after[i] == before[i - 1] && after[j] == before[j - 1]);
                }
            }
        }
    }
}

/// The ready issues that have no parent, by falling score; among equal
/// scores the smaller number comes first. The first is the one to work on
/// next.
pub fn rank_ready(db: &Database) -> (r: Result<Vec<Candidate>, DbError>)
    requires
        db.wf(),
    ensures
        r matches Ok(v) && candidates_view(v@) == ranked(db@, db@.ready_issues()),
{
    let ready = match db.list_ready_issues() {
        Ok(v) => v,
        Err(e) => {
            return Err(e);
        },
    };
    let ghost rows = rows_view(ready@);
    let mut out: Vec<Candidate> = Vec::new();
    assert(candidates_view(out@) =~= ranked(db@, rows.subrange(0, 0)));
    let mut i: usize = 0;
    while i < ready.len()
        invariant
            i <= ready@.len(),
            db.wf(),
            rows == rows_view(ready@),
            candidates_view(out@) == ranked(db@, rows.subrange(0, i as int)),
        decreases ready@.len() - i,
    {
        let issue = &ready[i];
        proof {
            assert(rows.subrange(0, i + 1).drop_last() =~= rows.subrange(0, i as int));
            assert(rows.subrange(0, i + 1).last() == issue@);
            law_ranked_by_falling_score(db@, rows.subrange(0, i as int));
        }
        if issue.parent_id.is_none() {
            let progress = match calculate_progress(db, issue) {
                Ok(p) => p,
                Err(e) => {
                    return Err(e);
                },
            };
            let points = score(issue.priority.as_str(), &progress);
            let ghost c = candidate_of(db@, issue@);
            let ghost before = candidates_view(out@);
            let mut at: usize = out.len();
            assert(before.subrange(0, at as int) =~= before);
            while at > 0 && out[at - 1].score < points
                invariant
                    at <= out@.len(),
                    before == candidates_view(out@),
                    c.score == points,
                    place_of(before, c) == place_of(before.subrange(0, at as int), c),
                decreases at,
            {
                proof {
                    assert(before.subrange(0, at as int).drop_last() =~= before.subrange(
                        0,
                        at - 1,
                    ));
                    assert(before.subrange(0, at as int).last() == out@[at - 1]@);
                }
                at -= 1;
            }
            proof {
                if at > 0 {
                    assert(before.subrange(0, at as int).last() == out@[at - 1]@);
                }
                assert(place_of(before, c) == at);
            }
            let candidate = Candidate { issue: issue.duplicate(), score: points, progress };
            out.insert(at, candidate);
            assert(candidates_view(out@) =~= before.insert(at as int, c));
        }
        i += 1;
    }
    assert(rows.subrange(0, i as int) =~= rows);
    Ok(out)
}

/// What to work on next.
#[derive(Debug, Clone, PartialEq)]
pub enum Next {
    /// No issue is ready.
    NothingReady,
    /// The ready issues without a parent, the best first.
    Ranked(Vec<Candidate>),
    /// Every ready issue is a subissue; this is the first of them.
    OnlySubissues(Issue),
}

/// Whether `n` is the advice for the store `v`.
pub open spec fn is_advice(v: DbView, n: Next) -> bool {
    if v.ready_issues().len() == 0 {
        n == Next::NothingReady
    } else if ranked(v, v.ready_issues()).len() > 0 {
        n matches Next::Ranked(c) && candidates_view(c@) == ranked(v, v.ready_issues())
    } else {
        n matches Next::OnlySubissues(i) && i@ == v.ready_issues()[0]
    }
}

/// What to work on next: the ready issues that have no parent, by falling
/// score, or the first ready subissue where there is nothing else.
pub fn run(db: &Database) -> (r: Result<Next, CommandError>)
    requires
        db.wf(),
    ensures
        r matches Ok(n) && is_advice(db@, n),
{
    let ready = match db.list_ready_issues() {
        Ok(v) => v,
        Err(e) => {
            return Err(CommandError::Store(e));
        },
    };
    if ready.len() == 0 {
        return Ok(Next::NothingReady);
    }
    let scored = match rank_ready(db) {
        Ok(v) => v,
        Err(e) => {
            return Err(CommandError::Store(e));
        },
    };
    if scored.len() > 0 {
        Ok(Next::Ranked(scored))
    } else {
        assert(rows_view(ready@)[0] == ready@[0]@);
        Ok(Next::OnlySubissues(ready[0].duplicate()))
    }
}

} // verus!
