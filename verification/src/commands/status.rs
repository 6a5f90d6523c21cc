//! Closing issues: under which heading of the changelog a closed issue goes.

use vstd::prelude::*;
use vstd::string::*;

use crate::clock::{system_time, Timestamp};
use crate::commands::CommandError;
use crate::db::{opt_str, rows_view, Database, DbError, DbView};
use crate::models::{Issue, IssueView};
use crate::text::{decimal_text, push_signed, text_eq, texts_rise, texts_view};

verus! {

/// The text `s` in small letters, as Unicode maps them.
pub uninterp spec fn lowercase_of(s: Seq<char>) -> Seq<char>;

/// Maps `s` to small letters with `str::to_lowercase`. The claim is only
/// that the outcome is a function of the text: `lowercase_of`.
#[verifier::external_body]
fn lowercased(s: &str) -> (r: String)
    ensures
        r@ == lowercase_of(s@),
{
    s.to_lowercase()
}

/// The heading for a label given in small letters, or `None` where the label
/// names no heading.
pub open spec fn heading_of(label: Seq<char>) -> Option<Seq<char>> {
    if label == "bug"@ || label == "fix"@ || label == "bugfix"@ {
        Some("Fixed"@)
    } else if label == "feature"@ || label == "enhancement"@ {
        Some("Added"@)
    } else if label == "breaking"@ || label == "breaking-change"@ {
        Some("Changed"@)
    } else if label == "deprecated"@ {
        Some("Deprecated"@)
    } else if label == "removed"@ {
        Some("Removed"@)
    } else if label == "security"@ {
        Some("Security"@)
    } else {
        None
    }
}

/// The heading for the labels: that of the first label which, in small
/// letters, names one; `Changed` where none does.
pub open spec fn category_of(labels: Seq<Seq<char>>) -> Seq<char>
    decreases labels.len(),
{
    if labels.len() == 0 {
        "Changed"@
    } else {
        match heading_of(lowercase_of(labels[0])) {
            Some(h) => h,
            None => category_of(labels.drop_first()),
        }
    }
}

/// The heading for a label given in small letters, or `None` where the label
/// names no heading.
pub fn heading_for(label: &str) -> (r: Option<&'static str>)
    ensures
        match r {
            Some(h) => heading_of(label@) == Some(h@),
            None => heading_of(label@) is None,
        },
{
    if text_eq(label, "bug") || text_eq(label, "fix") || text_eq(label, "bugfix") {
        Some("Fixed")
    } else if text_eq(label, "feature") || text_eq(label, "enhancement") {
        Some("Added")
    } else if text_eq(label, "breaking") || text_eq(label, "breaking-change") {
        Some("Changed")
    } else if text_eq(label, "deprecated") {
        Some("Deprecated")
    } else if text_eq(label, "removed") {
        Some("Removed")
    } else if text_eq(label, "security") {
        Some("Security")
    } else {
        None
    }
}

/// The heading of the changelog under which an issue with these labels
/// goes: that of the first label which names one, whatever its case;
/// `Changed` where none does.
pub fn determine_changelog_category(labels: &[String]) -> (r: String)
    ensures
        r@ == category_of(texts_view(labels@)),
{
    let ghost all = texts_view(labels@);
    let mut i: usize = 0;
    assert(all.skip(0) =~= all);
    while i < labels.len()
        invariant
            i <= labels@.len(),
            all == texts_view(labels@),
            category_of(all) == category_of(all.skip(i as int)),
        decreases labels@.len() - i,
    {
        let lower = lowercased(labels[i].as_str());
        proof {
            assert(all.skip(i as int)[0] == labels@[i as int]@);
            assert(all.skip(i as int).drop_first() =~= all.skip(i + 1));
        }
        match heading_for(lower.as_str()) {
            Some(h) => {
                return h.to_owned();
            },
            None => {},
        }
        i += 1;
    }
    "Changed".to_owned()
}

/// The line that a closed issue adds to the changelog.
pub open spec fn entry_text(title: Seq<char>, id: int) -> Seq<char> {
    "- "@ + title + " (#"@ + decimal_text(id) + ")\n"@
}

/// The line that a closed issue adds to the changelog.
pub fn changelog_entry(title: &str, id: i64) -> (r: String)
    ensures
        r@ == entry_text(title@, id as int),
{
    let mut s = "- ".to_owned();
    s.append(title);
    s.append(" (#");
    push_signed(&mut s, id);
    s.append(")\n");
    s
}

/// An issue that was closed, as it was before, with what the changelog
/// needs of it.
#[derive(Debug, Clone, PartialEq)]
pub struct Closed {
    /// The issue as it was before it was closed.
    pub issue: Issue,
    pub labels: Vec<String>,
    /// The heading of the changelog under which it goes.
    pub category: String,
    /// The line that it adds to the changelog.
    pub entry: String,
}

/// Closes the issue `id`, which must exist, at the time `now`.
pub fn close_at(db: &mut Database, id: i64, now: Timestamp) -> (r: Result<Closed, CommandError>)
    requires
        old(db).wf(),
    ensures
        final(db).wf(),
        final(db)@ == old(db)@.close_issue(id as int, now),
        match r {
            Ok(c) => {
                &&& old(db)@.find_issue(id as int) == Some(c.issue@)
                &&& texts_rise(texts_view(c.labels@))
                &&& forall|t: Seq<char>|
                    texts_view(c.labels@).contains(t) <==> old(db)@.has_label(id as int, t)
                &&& c.category@ == category_of(texts_view(c.labels@))
                &&& c.entry@ == entry_text(c.issue@.title, id as int)
            },
            Err(e) => !old(db)@.has_issue(id as int) && e == CommandError::Store(
                DbError::IssueNotFound(id),
            ),
        },
{
    let issue = match db.get_issue(id) {
        Ok(Some(i)) => i,
        Ok(None) => {
            proof {
                crate::db::lifecycle::lemma_change_absent(
                    db@,
                    id as int,
                    |r: IssueView|
                        IssueView {
                            status: crate::db::status_closed(),
                            closed_at: Some(now),
                            updated_at: now,
                            ..r
                        },
                );
            }
            return Err(CommandError::Store(DbError::IssueNotFound(id)));
        },
        Err(e) => {
            return Err(CommandError::Store(e));
        },
    };
    let labels = match db.get_labels(id) {
        Ok(l) => l,
        Err(e) => {
            return Err(CommandError::Store(e));
        },
    };
    match db.close_issue_at(id, now) {
        Ok(_) => {},
        Err(e) => {
            return Err(CommandError::Store(e));
        },
    }
    let category = determine_changelog_category(labels.as_slice());
    let entry = changelog_entry(issue.title.as_str(), id);
    Ok(Closed { issue, labels, category, entry })
}

/// Closes the issue `id`, which must exist.
pub fn close(db: &mut Database, id: i64) -> (r: Result<Closed, CommandError>)
    requires
        old(db).wf(),
    ensures
        final(db).wf(),
        exists|now: Timestamp| final(db)@ == #[trigger] old(db)@.close_issue(id as int, now),
        match r {
            Ok(c) => {
                &&& old(db)@.find_issue(id as int) == Some(c.issue@)
                &&& c.category@ == category_of(texts_view(c.labels@))
                &&& c.entry@ == entry_text(c.issue@.title, id as int)
            },
            Err(e) => !old(db)@.has_issue(id as int) && e == CommandError::Store(
                DbError::IssueNotFound(id),
            ),
        },
{
    let now = system_time();
    close_at(db, id, now)
}

/// Closes the issue `id`, which must exist, for a caller that reports
/// nothing.
pub fn close_quiet(db: &mut Database, id: i64) -> (r: Result<Closed, CommandError>)
    requires
        old(db).wf(),
    ensures
        final(db).wf(),
        exists|now: Timestamp| final(db)@ == #[trigger] old(db)@.close_issue(id as int, now),
        match r {
            Ok(c) => {
                &&& old(db)@.find_issue(id as int) == Some(c.issue@)
                &&& c.category@ == category_of(texts_view(c.labels@))
                &&& c.entry@ == entry_text(c.issue@.title, id as int)
            },
            Err(e) => !old(db)@.has_issue(id as int) && e == CommandError::Store(
                DbError::IssueNotFound(id),
            ),
        },
{
    close(db, id)
}

/// The store after each of the issues `ids` was closed at `now`, in order.
pub open spec fn close_each(v: DbView, ids: Seq<int>, now: Timestamp) -> DbView
    decreases ids.len(),
{
    if ids.len() == 0 {
        v
    } else {
        close_each(v, ids.drop_last(), now).close_issue(ids.last(), now)
    }
}

/// The numbers of the issues.
pub open spec fn numbers_of(rows: Seq<IssueView>) -> Seq<int> {
    rows.map_values(|r: IssueView| r.id)
}

/// The open issues that pass the filters, by falling number.
pub open spec fn open_listed(v: DbView, label: Option<Seq<char>>, priority: Option<Seq<char>>) -> Seq<
    IssueView,
> {
    v.list_issues(Some("open"@), label, priority)
}

/// Closes every open issue that passes the filters, at the time `now`, and
/// says how many there were.
pub fn close_all_at(
    db: &mut Database,
    label_filter: Option<&str>,
    priority_filter: Option<&str>,
    now: Timestamp,
) -> (r: Result<usize, CommandError>)
    requires
        old(db).wf(),
    ensures
        final(db).wf(),
        r == Ok::<usize, CommandError>(
            open_listed(old(db)@, opt_str(label_filter), opt_str(priority_filter)).len() as usize,
        ),
        final(db)@ == close_each(
            old(db)@,
            numbers_of(open_listed(old(db)@, opt_str(label_filter), opt_str(priority_filter))),
            now,
        ),
{
    let issues = match db.list_issues(Some("open"), label_filter, priority_filter) {
        Ok(v) => v,
        Err(e) => {
            return Err(CommandError::Store(e));
        },
    };
    let ghost before = db@;
    let ghost ids = numbers_of(rows_view(issues@));
    let mut i: usize = 0;
    assert(ids.subrange(0, 0) =~= Seq::<int>::empty());
    while i < issues.len()
        invariant
            i <= issues@.len(),
            db.wf(),
            ids == numbers_of(rows_view(issues@)),
            db@ == close_each(before, ids.subrange(0, i as int), now),
        decreases issues@.len() - i,
    {
        proof {
            assert(ids.subrange(0, i + 1).drop_last() =~= ids.subrange(0, i as int));
            assert(ids.subrange(0, i + 1).last() == issues@[i as int].id);
        }
        match db.close_issue_at(issues[i].id, now) {
            Ok(_) => {},
            Err(e) => {
                return Err(CommandError::Store(e));
            },
        }
        i += 1;
    }
    assert(ids.subrange(0, i as int) =~= ids);
    Ok(issues.len())
}

/// Closes every open issue that passes the filters and says how many there
/// were.
pub fn close_all(db: &mut Database, label_filter: Option<&str>, priority_filter: Option<&str>) -> (r:
    Result<usize, CommandError>)
    requires
        old(db).wf(),
    ensures
        final(db).wf(),
        r == Ok::<usize, CommandError>(
            open_listed(old(db)@, opt_str(label_filter), opt_str(priority_filter)).len() as usize,
        ),
        exists|now: Timestamp|
            final(db)@ == #[trigger] close_each(
                old(db)@,
                numbers_of(open_listed(old(db)@, opt_str(label_filter), opt_str(priority_filter))),
                now,
            ),
{
    let now = system_time();
    close_all_at(db, label_filter, priority_filter, now)
}

/// Opens the issue `id` again, which must exist.
pub fn reopen(db: &mut Database, id: i64) -> (r: Result<(), CommandError>)
    requires
        old(db).wf(),
    ensures
        final(db).wf(),
        exists|now: Timestamp| final(db)@ == #[trigger] old(db)@.reopen_issue(id as int, now),
        r == (if old(db)@.has_issue(id as int) {
            Ok::<(), CommandError>(())
        } else {
            Err::<(), CommandError>(CommandError::Store(DbError::IssueNotFound(id)))
        }),
{
    match db.reopen_issue(id) {
        Ok(true) => Ok(()),
        Ok(false) => Err(CommandError::Store(DbError::IssueNotFound(id))),
        Err(e) => Err(CommandError::Store(e)),
    }
}

} // verus!
