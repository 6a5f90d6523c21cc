//! Bringing exported issues into the store, all of them or none.

use vstd::prelude::*;

use crate::clock::{system_time, Timestamp};
use crate::db::{opt_str, status_closed, Database, DbError, DbView};
use crate::models::opt_id;
use crate::text::{opt_text, text_eq, texts_view};

verus! {

/// A comment as an export holds it.
#[derive(Debug, Clone, PartialEq)]
pub struct ExportedComment {
    pub content: String,
    pub created_at: String,
}

/// An issue as an export holds it.
#[derive(Debug, Clone, PartialEq)]
pub struct ExportedIssue {
    pub id: i64,
    pub title: String,
    pub description: Option<String>,
    pub status: String,
    pub priority: String,
    pub parent_id: Option<i64>,
    pub labels: Vec<String>,
    pub comments: Vec<ExportedComment>,
    pub created_at: String,
    pub updated_at: String,
    pub closed_at: Option<String>,
}

/// An export: the issues of a store at one time.
#[derive(Debug, Clone, PartialEq)]
pub struct ExportData {
    pub version: i32,
    pub exported_at: String,
    pub issues: Vec<ExportedIssue>,
}

/// What an import reads of an exported issue.
pub ghost struct ExportedIssueView {
    pub id: int,
    pub title: Seq<char>,
    pub description: Option<Seq<char>>,
    pub status: Seq<char>,
    pub priority: Seq<char>,
    pub parent_id: Option<int>,
    pub labels: Seq<Seq<char>>,
    pub comments: Seq<Seq<char>>,
}

impl View for ExportedIssue {
    type V = ExportedIssueView;

    open spec fn view(&self) -> ExportedIssueView {
        ExportedIssueView {
            id: self.id as int,
            title: self.title@,
            description: opt_text(self.description),
            status: self.status@,
            priority: self.priority@,
            parent_id: opt_id(self.parent_id),
            labels: texts_view(self.labels@),
            comments: contents_view(self.comments@),
        }
    }
}

/// The texts of the comments.
pub open spec fn contents_view(comments: Seq<ExportedComment>) -> Seq<Seq<char>> {
    comments.map_values(|c: ExportedComment| c.content@)
}

/// The exported issues as what an import reads of them.
pub open spec fn exported_view(issues: Seq<ExportedIssue>) -> Seq<ExportedIssueView> {
    issues.map_values(|x: ExportedIssue| x@)
}

/// The store after each of `labels` was put on the issue `id`, in order.
pub open spec fn with_labels(v: DbView, id: int, labels: Seq<Seq<char>>) -> DbView
    decreases labels.len(),
{
    if labels.len() == 0 {
        v
    } else {
        with_labels(v, id, labels.drop_last()).add_label(id, labels.last())
    }
}

/// The store after each of `comments` was added to the issue `id` at `now`,
/// in order; the error of the first that the store refuses.
pub open spec fn with_comments(v: DbView, id: int, comments: Seq<Seq<char>>, now: Timestamp) -> Result<
    DbView,
    DbError,
>
    decreases comments.len(),
{
    if comments.len() == 0 {
        Ok(v)
    } else {
        match with_comments(v, id, comments.drop_last(), now) {
            Err(e) => Err(e),
            Ok(w) => match w.add_comment_result(id) {
                Err(e) => Err(e),
                Ok(_) => Ok(w.add_comment(id, comments.last(), now)),
            },
        }
    }
}

/// The store after one exported issue was brought in at `now`: a new issue
/// without a parent, its labels, its comments, and closed where the export
/// says `closed`.
pub open spec fn import_one(v: DbView, x: ExportedIssueView, now: Timestamp) -> Result<
    DbView,
    DbError,
> {
    if !v.can_create_issue() {
        Err(DbError::Full)
    } else {
        let id = v.last_issue_id + 1;
        let created = v.create_issue(x.title, x.description, x.priority, None, now);
        match with_comments(with_labels(created, id, x.labels), id, x.comments, now) {
            Err(e) => Err(e),
            Ok(w) => if x.status == status_closed() {
                Ok(w.close_issue(id, now))
            } else {
                Ok(w)
            },
        }
    }
}

/// The store after each of `xs` was brought in at `now`, in order; the
/// error of the first that the store refuses.
pub open spec fn import_each(v: DbView, xs: Seq<ExportedIssueView>, now: Timestamp) -> Result<
    DbView,
    DbError,
>
    decreases xs.len(),
{
    if xs.len() == 0 {
        Ok(v)
    } else {
        match import_each(v, xs.drop_last(), now) {
            Err(e) => Err(e),
            Ok(w) => import_one(w, xs.last(), now),
        }
    }
}

/// The number that the issue exported as `old_id` has in the store, where
/// the issues `xs` got the numbers from `first` on: that of the last of them
/// with this exported number.
pub open spec fn new_number(xs: Seq<ExportedIssueView>, first: int, old_id: int) -> Option<int>
    decreases xs.len(),
{
    if xs.len() == 0 {
        None
    } else if xs.last().id == old_id {
        Some(first + xs.len() - 1)
    } else {
        new_number(xs.drop_last(), first, old_id)
    }
}

/// The store after the first `n` of `xs` were put under their parents, by
/// the numbers that the export gave them.
pub open spec fn relinked(
    v: DbView,
    xs: Seq<ExportedIssueView>,
    n: nat,
    first: int,
    now: Timestamp,
) -> DbView
    decreases n,
{
    if n == 0 {
        v
    } else {
        let w = relinked(v, xs, (n - 1) as nat, first, now);
        let x = xs[n - 1];
        if x.parent_id is Some && new_number(xs, first, x.parent_id->0) is Some && new_number(
            xs,
            first,
            x.id,
        ) is Some {
            w.update_parent(
                new_number(xs, first, x.id)->0,
                Some(new_number(xs, first, x.parent_id->0)->0),
                now,
            )
        } else {
            w
        }
    }
}

/// The store after an import of `xs` at `now`: every issue brought in, then
/// every issue put under its parent.
pub open spec fn imported(v: DbView, xs: Seq<ExportedIssueView>, now: Timestamp) -> Result<
    DbView,
    DbError,
> {
    match import_each(v, xs, now) {
        Err(e) => Err(e),
        Ok(w) => Ok(relinked(w, xs, xs.len(), v.last_issue_id + 1, now)),
    }
}

/// Bringing issues in gives them the numbers that follow the last one given
/// out before.
pub proof fn lemma_import_numbers(v: DbView, xs: Seq<ExportedIssueView>, now: Timestamp)
    ensures
        import_each(v, xs, now) matches Ok(w) ==> w.last_issue_id == v.last_issue_id + xs.len(),
    decreases xs.len(),
{
    if xs.len() > 0 {
        lemma_import_numbers(v, xs.drop_last(), now);
        if let Ok(w) = import_each(v, xs.drop_last(), now) {
            lemma_import_one(w, xs.last(), now);
        }
    }
}

proof fn lemma_with_labels(v: DbView, id: int, labels: Seq<Seq<char>>)
    ensures
        with_labels(v, id, labels) == (DbView { labels: with_labels(v, id, labels).labels, ..v }),
    decreases labels.len(),
{
    if labels.len() > 0 {
        lemma_with_labels(v, id, labels.drop_last());
    }
}

proof fn lemma_with_comments(v: DbView, id: int, comments: Seq<Seq<char>>, now: Timestamp)
    ensures
        with_comments(v, id, comments, now) matches Ok(w) ==> w == (DbView {
            comments: w.comments,
            last_comment_id: w.last_comment_id,
            ..v
        }),
    decreases comments.len(),
{
    if comments.len() > 0 {
        lemma_with_comments(v, id, comments.drop_last(), now);
    }
}

/// Bringing one issue in gives it the next number.
pub proof fn lemma_import_one(v: DbView, x: ExportedIssueView, now: Timestamp)
    ensures
        import_one(v, x, now) matches Ok(w) ==> w.last_issue_id == v.last_issue_id + 1,
{
    if v.can_create_issue() {
        let id = v.last_issue_id + 1;
        let created = v.create_issue(x.title, x.description, x.priority, None, now);
        lemma_with_labels(created, id, x.labels);
        lemma_with_comments(with_labels(created, id, x.labels), id, x.comments, now);
    }
}

/// Puts each of `labels` on the issue `id`.
pub(crate) fn put_labels(db: &mut Database, id: i64, labels: &[String]) -> (r: Result<(), DbError>)
    requires
        old(db).wf(),
        old(db)@.has_issue(id as int),
    ensures
        final(db).wf(),
        r is Ok,
        final(db)@ == with_labels(old(db)@, id as int, texts_view(labels@)),
        final(db)@.has_issue(id as int),
{
    let ghost before = db@;
    let ghost all = texts_view(labels@);
    let mut i: usize = 0;
    while i < labels.len()
        invariant
            i <= labels@.len(),
            db.wf(),
            all == texts_view(labels@),
            db@.has_issue(id as int),
            db@ == with_labels(before, id as int, all.subrange(0, i as int)),
        decreases labels@.len() - i,
    {
        proof {
            assert(all.subrange(0, i + 1).drop_last() =~= all.subrange(0, i as int));
            assert(all.subrange(0, i + 1).last() == labels@[i as int]@);
        }
        match db.add_label(id, labels[i].as_str()) {
            Ok(_) => {},
            Err(e) => {
                return Err(e);
            },
        }
        i += 1;
    }
    assert(all.subrange(0, i as int) =~= all);
    Ok(())
}

/// Adds each of `comments` to the issue `id`.
fn put_comments(db: &mut Database, id: i64, comments: &Vec<ExportedComment>, now: Timestamp) -> (r:
    Result<(), DbError>)
    requires
        old(db).wf(),
    ensures
        final(db).wf(),
        match with_comments(old(db)@, id as int, contents_view(comments@), now) {
            Ok(w) => r is Ok && final(db)@ == w,
            Err(e) => r == Err::<(), DbError>(e),
        },
{
    let ghost before = db@;
    let ghost all = contents_view(comments@);
    let mut i: usize = 0;
    while i < comments.len()
        invariant
            i <= comments@.len(),
            db.wf(),
            before == old(db)@,
            all == contents_view(comments@),
            with_comments(before, id as int, all.subrange(0, i as int), now) == Ok::<
                DbView,
                DbError,
            >(db@),
        decreases comments@.len() - i,
    {
        proof {
            assert(all.subrange(0, i + 1).drop_last() =~= all.subrange(0, i as int));
            assert(all.subrange(0, i + 1).last() == comments@[i as int].content@);
        }
        match db.add_comment_at(id, comments[i].content.as_str(), now) {
            Ok(_) => {},
            Err(e) => {
                proof {
                    assert(with_comments(before, id as int, all.subrange(0, i + 1), now) == Err::<
                        DbView,
                        DbError,
                    >(e));
                    lemma_comments_stay_failed(before, id as int, all, i + 1, now);
                }
                return Err(e);
            },
        }
        i += 1;
    }
    assert(all.subrange(0, i as int) =~= all);
    Ok(())
}

proof fn lemma_comments_stay_failed(
    v: DbView,
    id: int,
    all: Seq<Seq<char>>,
    n: int,
    now: Timestamp,
)
    requires
        0 <= n <= all.len(),
        with_comments(v, id, all.subrange(0, n), now) is Err,
    ensures
        with_comments(v, id, all, now) == with_comments(v, id, all.subrange(0, n), now),
    decreases all.len() - n,
{
    if n < all.len() {
        assert(all.subrange(0, n + 1).drop_last() =~= all.subrange(0, n));
        lemma_comments_stay_failed(v, id, all, n + 1, now);
    } else {
        assert(all.subrange(0, n) =~= all);
    }
}

proof fn lemma_import_stays_failed(v: DbView, xs: Seq<ExportedIssueView>, n: int, now: Timestamp)
    requires
        0 <= n <= xs.len(),
        import_each(v, xs.subrange(0, n), now) is Err,
    ensures
        import_each(v, xs, now) == import_each(v, xs.subrange(0, n), now),
    decreases xs.len() - n,
{
    if n < xs.len() {
        assert(xs.subrange(0, n + 1).drop_last() =~= xs.subrange(0, n));
        lemma_import_stays_failed(v, xs, n + 1, now);
    } else {
        assert(xs.subrange(0, n) =~= xs);
    }
}

/// Brings one exported issue into the store at the time `now` and hands back
/// its new number.
pub fn import_issue(db: &mut Database, issue: &ExportedIssue, now: Timestamp) -> (r: Result<
    i64,
    DbError,
>)
    requires
        old(db).wf(),
    ensures
        final(db).wf(),
        match import_one(old(db)@, issue@, now) {
            Ok(w) => r == Ok::<i64, DbError>((old(db)@.last_issue_id + 1) as i64) && final(db)@ == w
                && old(db)@.last_issue_id < i64::MAX,
            Err(e) => r == Err::<i64, DbError>(e),
        },
{
    let id = match db.create_issue_at(
        issue.title.as_str(),
        match &issue.description {
            Some(d) => Some(d.as_str()),
            None => None,
        },
        issue.priority.as_str(),
        None,
        now,
    ) {
        Ok(id) => id,
        Err(e) => {
            return Err(e);
        },
    };
    proof {
        crate::db::laws::law_create_then_get(
            old(db)@,
            issue@.title,
            issue@.description,
            issue@.priority,
            None,
            now,
        );
    }
    match put_labels(db, id, issue.labels.as_slice()) {
        Ok(()) => {},
        Err(e) => {
            return Err(e);
        },
    }
    match put_comments(db, id, &issue.comments, now) {
        Ok(()) => {},
        Err(e) => {
            return Err(e);
        },
    }
    if text_eq(issue.status.as_str(), "closed") {
        match db.close_issue_at(id, now) {
            Ok(_) => {},
            Err(e) => {
                return Err(e);
            },
        }
    }
    Ok(id)
}

/// The new number of the issue exported as `old_id`.
fn lookup(issues: &Vec<ExportedIssue>, first: i64, old_id: i64) -> (r: Option<i64>)
    requires
        first >= 1,
        first + issues@.len() <= i64::MAX + 1,
    ensures
        opt_id(r) == new_number(exported_view(issues@), first as int, old_id as int),
{
    let ghost xs = exported_view(issues@);
    let mut n: usize = issues.len();
    assert(xs.subrange(0, n as int) =~= xs);
    while n > 0
        invariant
            n <= issues@.len(),
            xs == exported_view(issues@),
            first >= 1,
            first + issues@.len() <= i64::MAX + 1,
            new_number(xs, first as int, old_id as int) == new_number(
                xs.subrange(0, n as int),
                first as int,
                old_id as int,
            ),
        decreases n,
    {
        proof {
            assert(xs.subrange(0, n as int).drop_last() =~= xs.subrange(0, n - 1));
            assert(xs.subrange(0, n as int).last() == issues@[n - 1]@);
        }
        if issues[n - 1].id == old_id {
            let k: i64 = (n - 1) as i64;
            return Some(first + k);
        }
        n -= 1;
    }
    None
}

/// Brings every issue of `issues` into `db` at the time `now` and puts each
/// under its parent; stops at the first step that the store refuses.
fn import_into(start: Database, issues: &Vec<ExportedIssue>, now: Timestamp) -> (out: (
    Database,
    Result<usize, DbError>,
))
    requires
        start.wf(),
    ensures
        out.0.wf(),
        match imported(start@, exported_view(issues@), now) {
            Ok(w) => out.1 == Ok::<usize, DbError>(issues@.len() as usize) && out.0@ == w,
            Err(e) => out.1 == Err::<usize, DbError>(e),
        },
{
    let mut db = start;
    let ghost before = start@;
    let ghost xs = exported_view(issues@);
    let first_free = db.next_issue_number();
    let mut i: usize = 0;
    while i < issues.len()
        invariant
            i <= issues@.len(),
            db.wf(),
            before == start@,
            xs == exported_view(issues@),
            import_each(before, xs.subrange(0, i as int), now) == Ok::<DbView, DbError>(db@),
        decreases issues@.len() - i,
    {
        proof {
            assert(xs.subrange(0, i + 1).drop_last() =~= xs.subrange(0, i as int));
            assert(xs.subrange(0, i + 1).last() == issues@[i as int]@);
        }
        match import_issue(&mut db, &issues[i], now) {
            Ok(_) => {},
            Err(e) => {
                proof {
                    assert(import_each(before, xs.subrange(0, i + 1), now) == Err::<
                        DbView,
                        DbError,
                    >(e));
                    lemma_import_stays_failed(before, xs, i + 1, now);
                }
                return (db, Err(e));
            },
        }
        i += 1;
    }
    proof {
        assert(xs.subrange(0, i as int) =~= xs);
        lemma_import_numbers(before, xs, now);
    }
    let first: i64 = match first_free {
        Some(f) => f,
        None => {
            assert(issues@.len() == 0);
            return (db, Ok(issues.len()));
        },
    };
    let ghost loaded = db@;
    let mut k: usize = 0;
    while k < issues.len()
        invariant
            k <= issues@.len(),
            db.wf(),
            xs == exported_view(issues@),
            first == before.last_issue_id + 1,
            first >= 1,
            first + issues@.len() <= i64::MAX + 1,
            db@ == relinked(loaded, xs, k as nat, first as int, now),
        decreases issues@.len() - k,
    {
        assert(xs[k as int] == issues@[k as int]@);
        if let Some(old_parent) = issues[k].parent_id {
            if let Some(new_parent) = lookup(issues, first, old_parent) {
                if let Some(new_id) = lookup(issues, first, issues[k].id) {
                    match db.update_parent_at(new_id, Some(new_parent), now) {
                        Ok(_) => {},
                        Err(e) => {
                            return (db, Err(e));
                        },
                    }
                }
            }
        }
        k += 1;
    }
    (db, Ok(issues.len()))
}

/// Brings every issue of `issues` into the store, then puts each under its
/// parent by the numbers that the export gave them. Either all of it takes
/// effect or none of it: where a step is refused, the store is as it was,
/// and the error is handed back. All rows are stamped with one time, read
/// when the import begins.
pub fn import_issues(db: &mut Database, issues: &Vec<ExportedIssue>) -> (r: Result<usize, DbError>)
    requires
        old(db).wf(),
    ensures
        final(db).wf(),
        exists|now: Timestamp|
            match #[trigger] imported(old(db)@, exported_view(issues@), now) {
                Ok(w) => r == Ok::<usize, DbError>(issues@.len() as usize) && final(db)@ == w,
                Err(e) => r == Err::<usize, DbError>(e) && final(db)@ == old(db)@,
            },
{
    let now = system_time();
    import_issues_at(db, issues, now)
}

/// `import_issues` at the time `now`.
pub fn import_issues_at(db: &mut Database, issues: &Vec<ExportedIssue>, now: Timestamp) -> (r:
    Result<usize, DbError>)
    requires
        old(db).wf(),
    ensures
        final(db).wf(),
        match imported(old(db)@, exported_view(issues@), now) {
            Ok(w) => r == Ok::<usize, DbError>(issues@.len() as usize) && final(db)@ == w,
            Err(e) => r == Err::<usize, DbError>(e) && final(db)@ == old(db)@,
        },
{
    let ghost xs = exported_view(issues@);
    let body = |d: Database| -> (out: (Database, Result<usize, DbError>))
        requires
            d.wf(),
        ensures
            out.0.wf(),
            match imported(d@, xs, now) {
                Ok(w) => out.1 == Ok::<usize, DbError>(issues@.len() as usize) && out.0@ == w,
                Err(e) => out.1 == Err::<usize, DbError>(e),
            },
        { import_into(d, issues, now) };
    db.transaction(body)
}

} // verus!
