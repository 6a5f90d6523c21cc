//! Code clones found by a clone detector: the issues that report them.

use vstd::prelude::*;
use vstd::string::*;

use crate::clock::{system_time, Timestamp};
use crate::commands::create::{create_planned, created, CreateOpts, Created, IssuePlan, IssuePlanView, Working};
use crate::commands::status::{close_all_at, close_each, numbers_of, open_listed};
use crate::commands::CommandError;
use crate::db::{rows_view, Database, DbError, DbView};
use crate::models::{Issue, IssueView};
use crate::text::{
    chars_of, contains_chars, contains_text, decimal_digits, occurs_at, push_decimal, text_before,
    text_eq, text_lt, texts_view,
};

verus! {

/// Two stretches of lines that are copies of each other.
#[derive(Debug, Clone, PartialEq)]
pub struct CloneGroup {
    /// The first and the last line in the first file.
    pub lines_a: Vec<usize>,
    /// The first and the last line in the second file.
    pub lines_b: Vec<usize>,
    pub line_count: usize,
    pub token_count: usize,
}

/// The copies between two files.
#[derive(Debug, Clone, PartialEq)]
pub struct CloneReport {
    pub file_a: String,
    pub file_b: String,
    pub total_cloned_lines: usize,
    pub groups: Vec<CloneGroup>,
}

/// The marker of a pair of files, the same whichever of the two is named
/// first: the file that comes first in the order of a dictionary stands
/// first.
pub open spec fn marker_text(file_a: Seq<char>, file_b: Seq<char>) -> Seq<char> {
    if text_lt(file_b, file_a) {
        "<!-- cpitd:file_a="@ + file_b + ":file_b="@ + file_a + " -->"@
    } else {
        "<!-- cpitd:file_a="@ + file_a + ":file_b="@ + file_b + " -->"@
    }
}

/// The marker by which the issue on a pair of files is found again.
pub fn dedup_marker(file_a: &str, file_b: &str) -> (r: String)
    ensures
        r@ == marker_text(file_a@, file_b@),
{
    let (a, b) = if text_before(file_b, file_a) {
        (file_b, file_a)
    } else {
        (file_a, file_b)
    };
    let mut s = "<!-- cpitd:file_a=".to_owned();
    s.append(a);
    s.append(":file_b=");
    s.append(b);
    s.append(" -->");
    s
}

/// The marker does not depend on which file is named first.
pub proof fn law_marker_is_symmetric(file_a: Seq<char>, file_b: Seq<char>)
    ensures
        marker_text(file_a, file_b) == marker_text(file_b, file_a),
{
    if file_a == file_b {
    } else {
        crate::text::lemma_text_lt_total(file_a, file_b);
        if text_lt(file_a, file_b) && text_lt(file_b, file_a) {
            crate::text::lemma_text_lt_transitive(file_a, file_b, file_a);
            crate::text::lemma_text_lt_irreflexive(file_a);
        }
    }
}

/// Whether a group names the first and the last line in both files.
pub open spec fn group_ok(g: CloneGroup) -> bool {
    g.lines_a@.len() >= 2 && g.lines_b@.len() >= 2
}

/// Whether every group of the report names the first and the last line in
/// both files.
pub open spec fn report_ok(report: CloneReport) -> bool {
    forall|i: int| 0 <= i < report.groups@.len() ==> group_ok(#[trigger] report.groups@[i])
}

/// The line of the description for the group with the number `n`.
pub open spec fn group_line(n: nat, g: CloneGroup) -> Seq<char> {
    decimal_digits(n) + ". Lines "@ + decimal_digits(g.lines_a@[0] as nat) + "-"@ + decimal_digits(
        g.lines_a@[1] as nat,
    ) + " <-> Lines "@ + decimal_digits(g.lines_b@[0] as nat) + "-"@ + decimal_digits(
        g.lines_b@[1] as nat,
    ) + " ("@ + decimal_digits(g.line_count as nat) + " lines, "@ + decimal_digits(
        g.token_count as nat,
    ) + " tokens)\n"@
}

/// The lines of the description for the first `n` groups.
pub open spec fn group_lines(groups: Seq<CloneGroup>, n: nat) -> Seq<char>
    decreases n,
{
    if n == 0 {
        Seq::empty()
    } else {
        group_lines(groups, (n - 1) as nat) + group_line(n, groups[n - 1])
    }
}

/// The description of the issue on a report.
pub open spec fn description_text(report: CloneReport) -> Seq<char> {
    marker_text(report.file_a@, report.file_b@) + "\n\nDetected code clones between:\n- `"@
        + report.file_a@ + "`\n- `"@ + report.file_b@ + "`\n\nTotal cloned lines: "@
        + decimal_digits(report.total_cloned_lines as nat) + "\n\nClone groups:\n"@ + group_lines(
        report.groups@,
        report.groups@.len(),
    ) + "\nConsider extracting shared logic into a common function or module."@
}

/// Whether every group of the report names the first and the last line in
/// both files, as `format_clone_description` needs it.
pub fn is_well_formed(report: &CloneReport) -> (r: bool)
    ensures
        r == report_ok(*report),
{
    let mut i: usize = 0;
    while i < report.groups.len()
        invariant
            i <= report.groups@.len(),
            forall|k: int| 0 <= k < i ==> group_ok(#[trigger] report.groups@[k]),
        decreases report.groups@.len() - i,
    {
        if report.groups[i].lines_a.len() < 2 || report.groups[i].lines_b.len() < 2 {
            return false;
        }
        i += 1;
    }
    true
}

fn push_group_line(out: &mut String, n: usize, g: &CloneGroup)
    requires
        group_ok(*g),
    ensures
        final(out)@ == old(out)@ + group_line(n as nat, *g),
{
    let ghost start = out@;
    push_decimal(out, n as u64);
    let ghost mut line = decimal_digits(n as nat);
    assert(out@ == start + line);
    out.append(". Lines ");
    proof {
        assert(out@ =~= start + (line + ". Lines "@));
        line = line + ". Lines "@;
    }
    push_decimal(out, g.lines_a[0] as u64);
    proof {
        assert(out@ =~= start + (line + decimal_digits(g.lines_a@[0] as nat)));
        line = line + decimal_digits(g.lines_a@[0] as nat);
    }
    out.append("-");
    proof {
        assert(out@ =~= start + (line + "-"@));
        line = line + "-"@;
    }
    push_decimal(out, g.lines_a[1] as u64);
    proof {
        assert(out@ =~= start + (line + decimal_digits(g.lines_a@[1] as nat)));
        line = line + decimal_digits(g.lines_a@[1] as nat);
    }
    out.append(" <-> Lines ");
    proof {
        assert(out@ =~= start + (line + " <-> Lines "@));
        line = line + " <-> Lines "@;
    }
    push_decimal(out, g.lines_b[0] as u64);
    proof {
        assert(out@ =~= start + (line + decimal_digits(g.lines_b@[0] as nat)));
        line = line + decimal_digits(g.lines_b@[0] as nat);
    }
    out.append("-");
    proof {
        assert(out@ =~= start + (line + "-"@));
        line = line + "-"@;
    }
    push_decimal(out, g.lines_b[1] as u64);
    proof {
        assert(out@ =~= start + (line + decimal_digits(g.lines_b@[1] as nat)));
        line = line + decimal_digits(g.lines_b@[1] as nat);
    }
    out.append(" (");
    proof {
        assert(out@ =~= start + (line + " ("@));
        line = line + " ("@;
    }
    push_decimal(out, g.line_count as u64);
    proof {
        assert(out@ =~= start + (line + decimal_digits(g.line_count as nat)));
        line = line + decimal_digits(g.line_count as nat);
    }
    out.append(" lines, ");
    proof {
        assert(out@ =~= start + (line + " lines, "@));
        line = line + " lines, "@;
    }
    push_decimal(out, g.token_count as u64);
    proof {
        assert(out@ =~= start + (line + decimal_digits(g.token_count as nat)));
        line = line + decimal_digits(g.token_count as nat);
    }
    out.append(" tokens)\n");
    proof {
        assert(out@ =~= start + (line + " tokens)\n"@));
        line = line + " tokens)\n"@;
        assert(line == group_line(n as nat, *g));
    }
}

/// The description of the issue on a report: the marker, the two files, the
/// number of copied lines, and a numbered line for each group.
pub fn format_clone_description(report: &CloneReport) -> (r: String)
    requires
        report_ok(*report),
    ensures
        r@ == description_text(*report),
{
    let mut desc = dedup_marker(report.file_a.as_str(), report.file_b.as_str());
    desc.append("\n\nDetected code clones between:\n- `");
    desc.append(report.file_a.as_str());
    desc.append("`\n- `");
    desc.append(report.file_b.as_str());
    desc.append("`\n\nTotal cloned lines: ");
    push_decimal(&mut desc, report.total_cloned_lines as u64);
    desc.append("\n\nClone groups:\n");
    let ghost head = desc@;
    let groups = &report.groups;
    let mut i: usize = 0;
    while i < groups.len()
        invariant
            i <= groups@.len(),
            groups@ == report.groups@,
            report_ok(*report),
            desc@ == head + group_lines(groups@, i as nat),
        decreases groups@.len() - i,
    {
        let ghost before = desc@;
        push_group_line(&mut desc, i + 1, &groups[i]);
        assert(desc@ =~= head + group_lines(groups@, (i + 1) as nat));
        i += 1;
    }
    desc.append("\nConsider extracting shared logic into a common function or module.");
    assert(desc@ =~= description_text(*report));
    desc
}

/// Asks `std::path::Path::file_name` for the last part of `path`; `None`
/// where the path has none or where it is not valid text. Where the parts
/// of a path begin and end depends on the platform; what is claimed holds on
/// every platform: the last part is a contiguous part of the path.
#[verifier::external_body]
fn last_component(path: &str) -> (r: Option<&str>)
    ensures
        r matches Some(name) ==> contains_text(path@, name@),
{
    match std::path::Path::new(path).file_name() {
        Some(name) => name.to_str(),
        None => None,
    }
}

/// `name` where there is one, and otherwise `path`.
pub fn name_or_path<'a>(name: Option<&'a str>, path: &'a str) -> (r: &'a str)
    ensures
        r@ == match name {
            Some(n) => n@,
            None => path@,
        },
{
    match name {
        Some(n) => n,
        None => path,
    }
}

/// The file name at the end of `path`, or `path` itself where it ends in
/// none: a contiguous part of `path` either way.
pub fn shorten_path(path: &str) -> (r: &str)
    ensures
        contains_text(path@, r@),
{
    proof {
        assert(path@.subrange(0, path@.len() as int) =~= path@);
        assert(occurs_at(path@, path@, 0));
    }
    name_or_path(last_component(path), path)
}

/// The title of the issue on a report, given the names of the two files.
pub open spec fn title_text(name_a: Seq<char>, name_b: Seq<char>, lines: nat) -> Seq<char> {
    "Code clone: "@ + name_a + " <-> "@ + name_b + " ("@ + decimal_digits(lines) + " lines)"@
}

/// The title of the issue on a report, given the names of the two files.
pub fn clone_title(name_a: &str, name_b: &str, lines: usize) -> (r: String)
    ensures
        r@ == title_text(name_a@, name_b@, lines as nat),
{
    let mut s = "Code clone: ".to_owned();
    s.append(name_a);
    s.append(" <-> ");
    s.append(name_b);
    s.append(" (");
    push_decimal(&mut s, lines as u64);
    s.append(" lines)");
    s
}

/// What to tell a user whose machine lacks the clone detector.
pub open spec fn install_hint() -> Seq<char> {
    "cpitd is not installed or not found in PATH.\n\ncpitd (Copy Paste Is The Devil) is a language-agnostic code clone\ndetector that integrates with chainlink to track duplicated code\nas issues.\n\nInstall it with:\n\n  pip install cpitd\n\nOr visit: https://github.com/scythia-marrow/cpitd"@
}

/// Fails with the hint on how to install the clone detector.
pub fn suggest_install() -> (r: Result<(), String>)
    ensures
        r matches Err(m) && m@ == install_hint(),
{
    Err(
        "cpitd is not installed or not found in PATH.\n\ncpitd (Copy Paste Is The Devil) is a language-agnostic code clone\ndetector that integrates with chainlink to track duplicated code\nas issues.\n\nInstall it with:\n\n  pip install cpitd\n\nOr visit: https://github.com/scythia-marrow/cpitd".to_owned(),
    )
}

/// The open issues that report clones, by falling number.
pub open spec fn clone_issues(v: DbView) -> Seq<IssueView> {
    v.list_issues(Some("open"@), Some("cpitd"@), None)
}

/// The number of the first of `rows` whose description holds `marker`.
pub open spec fn first_marked(rows: Seq<IssueView>, marker: Seq<char>) -> Option<int>
    decreases rows.len(),
{
    if rows.len() == 0 {
        None
    } else if rows[0].description is Some && contains_text(rows[0].description->0, marker) {
        Some(rows[0].id)
    } else {
        first_marked(rows.drop_first(), marker)
    }
}

/// The open issue that reports the clones between the two files, if there
/// is one: the newest whose description holds the marker of the pair.
pub fn find_existing_clone_issue(db: &Database, file_a: &str, file_b: &str) -> (r: Result<
    Option<i64>,
    CommandError,
>)
    requires
        db.wf(),
    ensures
        r matches Ok(found) && crate::models::opt_id(found) == first_marked(
            clone_issues(db@),
            marker_text(file_a@, file_b@),
        ),
{
    let marker = dedup_marker(file_a, file_b);
    let needle = chars_of(marker.as_str());
    let issues = match db.list_issues(Some("open"), Some("cpitd"), None) {
        Ok(v) => v,
        Err(e) => {
            return Err(CommandError::Store(e));
        },
    };
    let ghost rows = rows_view(issues@);
    let mut i: usize = 0;
    assert(rows.skip(0) =~= rows);
    while i < issues.len()
        invariant
            i <= issues@.len(),
            rows == rows_view(issues@),
            rows == clone_issues(db@),
            marker@ == marker_text(file_a@, file_b@),
            needle@ == marker@,
            first_marked(rows, marker@) == first_marked(rows.skip(i as int), marker@),
        decreases issues@.len() - i,
    {
        proof {
            assert(rows.skip(i as int)[0] == issues@[i as int]@);
            assert(rows.skip(i as int).drop_first() =~= rows.skip(i + 1));
        }
        if let Some(desc) = &issues[i].description {
            assert(issues@[i as int]@.description == Some(desc@));
            if contains_chars(&chars_of(desc.as_str()), &needle) {
                return Ok(Some(issues[i].id));
            }
        }
        i += 1;
    }
    Ok(None)
}

/// The comment that a repeated finding leaves on the issue.
pub open spec fn rescan_text(lines: nat, groups: nat) -> Seq<char> {
    "[cpitd rescan] "@ + decimal_digits(lines) + " total cloned lines, "@ + decimal_digits(groups)
        + " group(s)"@
}

/// The comment that a repeated finding leaves on the issue.
pub fn rescan_comment(report: &CloneReport) -> (r: String)
    ensures
        r@ == rescan_text(report.total_cloned_lines as nat, report.groups@.len()),
{
    let mut s = "[cpitd rescan] ".to_owned();
    push_decimal(&mut s, report.total_cloned_lines as u64);
    s.append(" total cloned lines, ");
    push_decimal(&mut s, report.groups.len() as u64);
    s.append(" group(s)");
    s
}

/// The labels of an issue that reports clones.
pub open spec fn clone_labels() -> Seq<Seq<char>> {
    seq!["cpitd"@, "refactor"@]
}

/// What an issue that reports `report` is created with.
pub open spec fn clone_plan(report: CloneReport) -> IssuePlanView {
    IssuePlanView { priority: "low"@, description: Some(description_text(report)), label: None }
}

/// Creates the issue that reports `report` under the title `title` at the
/// time `now`: of low priority, described by the report, and labelled
/// `cpitd` and `refactor`.
pub fn create_clone_issue_at(db: &mut Database, report: &CloneReport, title: &str, now: Timestamp) -> (r:
    Result<i64, CommandError>)
    requires
        old(db).wf(),
        report_ok(*report),
    ensures
        final(db).wf(),
        if old(db)@.can_create_issue() {
            &&& r == Ok::<i64, CommandError>((old(db)@.last_issue_id + 1) as i64)
            &&& final(db)@ == created(
                old(db)@,
                title@,
                clone_plan(*report),
                None,
                clone_labels(),
                false,
                now,
            )
        } else {
            &&& r == Err::<i64, CommandError>(CommandError::Store(DbError::Full))
            &&& final(db)@ == old(db)@
        },
{
    let plan = IssuePlan {
        priority: "low".to_owned(),
        description: Some(format_clone_description(report)),
        label: None,
    };
    let mut labels: Vec<String> = Vec::new();
    labels.push("cpitd".to_owned());
    labels.push("refactor".to_owned());
    assert(texts_view(labels@) =~= clone_labels());
    let opts = CreateOpts { labels: labels.as_slice(), work: false, quiet: true };
    match create_planned(db, title, &plan, None, &opts, now) {
        Ok(c) => Ok(c.id),
        Err(e) => Err(e),
    }
}

/// Creates the issue that reports `report`, titled with the names of the
/// two files.
pub fn create_clone_issue(db: &mut Database, report: &CloneReport) -> (r: Result<i64, CommandError>)
    requires
        old(db).wf(),
        report_ok(*report),
    ensures
        final(db).wf(),
        if old(db)@.can_create_issue() {
            &&& r == Ok::<i64, CommandError>((old(db)@.last_issue_id + 1) as i64)
            &&& exists|title: Seq<char>, now: Timestamp|
                final(db)@ == #[trigger] created(
                    old(db)@,
                    title,
                    clone_plan(*report),
                    None,
                    clone_labels(),
                    false,
                    now,
                )
        } else {
            &&& r == Err::<i64, CommandError>(CommandError::Store(DbError::Full))
            &&& final(db)@ == old(db)@
        },
{
    let title = clone_title(
        shorten_path(report.file_a.as_str()),
        shorten_path(report.file_b.as_str()),
        report.total_cloned_lines,
    );
    let now = system_time();
    create_clone_issue_at(db, report, title.as_str(), now)
}

/// An issue that was created for a pair of files.
#[derive(Debug, Clone, PartialEq)]
pub struct CreatedClone {
    pub id: i64,
    pub file_a: String,
    pub file_b: String,
}

/// Whether two created issues have a file in common.
pub open spec fn share_file(a: CreatedClone, b: CreatedClone) -> bool {
    a.file_a@ == b.file_a@ || a.file_a@ == b.file_b@ || a.file_b@ == b.file_a@ || a.file_b@
        == b.file_b@
}

/// The store after the issue at `i` was linked with each of the issues at
/// the places from `i + 1` up to `j` that share a file with it.
pub open spec fn linked_row(v: DbView, created: Seq<CreatedClone>, i: int, j: int, now: Timestamp) -> DbView
    decreases j - i,
{
    if j <= i + 1 {
        v
    } else {
        let w = linked_row(v, created, i, j - 1, now);
        if share_file(created[i], created[j - 1]) {
            w.add_relation(created[i].id as int, created[j - 1].id as int, now)
        } else {
            w
        }
    }
}

/// The store after each of the first `n` issues was linked with every later
/// issue that shares a file with it.
pub open spec fn linked(v: DbView, created: Seq<CreatedClone>, n: int, now: Timestamp) -> DbView
    decreases n,
{
    if n <= 0 {
        v
    } else {
        linked_row(linked(v, created, n - 1, now), created, n - 1, created.len() as int, now)
    }
}

fn files_shared(a: &CreatedClone, b: &CreatedClone) -> (r: bool)
    ensures
        r == share_file(*a, *b),
{
    text_eq(a.file_a.as_str(), b.file_a.as_str()) || text_eq(a.file_a.as_str(), b.file_b.as_str())
        || text_eq(a.file_b.as_str(), b.file_a.as_str()) || text_eq(
        a.file_b.as_str(),
        b.file_b.as_str(),
    )
}

/// Links every two of the created issues that have a file in common, at the
/// time `now`. A link that the store refuses is left out.
pub fn relate_clone_issues_at(db: &mut Database, created: &Vec<CreatedClone>, now: Timestamp)
    requires
        old(db).wf(),
    ensures
        final(db).wf(),
        final(db)@ == linked(old(db)@, created@, created@.len() as int, now),
{
    let ghost before = db@;
    let n: usize = created.len();
    let mut i: usize = 0;
    while i < n
        invariant
            i <= n == created@.len(),
            db.wf(),
            db@ == linked(before, created@, i as int, now),
        decreases n - i,
    {
        let ghost row_start = db@;
        let mut j: usize = i + 1;
        while j < n
            invariant
                i < j <= n == created@.len(),
                db.wf(),
                db@ == linked_row(row_start, created@, i as int, j as int, now),
            decreases n - j,
        {
            if files_shared(&created[i], &created[j]) {
                let _ = db.add_relation_at(created[i].id, created[j].id, now);
            }
            j += 1;
        }
        i += 1;
    }
}

/// Links every two of the created issues that have a file in common.
pub fn relate_clone_issues(db: &mut Database, created: &Vec<CreatedClone>)
    requires
        old(db).wf(),
    ensures
        final(db).wf(),
        exists|now: Timestamp|
            final(db)@ == #[trigger] linked(old(db)@, created@, created@.len() as int, now),
{
    let now = system_time();
    relate_clone_issues_at(db, created, now)
}

/// The open issues that report clones, by falling number.
pub fn status(db: &Database) -> (r: Result<Vec<Issue>, CommandError>)
    requires
        db.wf(),
    ensures
        r matches Ok(v) && rows_view(v@) == clone_issues(db@),
{
    match db.list_issues(Some("open"), Some("cpitd"), None) {
        Ok(v) => Ok(v),
        Err(e) => Err(CommandError::Store(e)),
    }
}

/// Closes the open issues that report clones and says how many there were.
pub fn clear(db: &mut Database) -> (r: Result<usize, CommandError>)
    requires
        old(db).wf(),
    ensures
        final(db).wf(),
        r == Ok::<usize, CommandError>(clone_issues(old(db)@).len() as usize),
        exists|now: Timestamp|
            final(db)@ == #[trigger] close_each(
                old(db)@,
                numbers_of(clone_issues(old(db)@)),
                now,
            ),
{
    let now = system_time();
    let r = close_all_at(db, Some("cpitd"), None, now);
    assert(open_listed(old(db)@, Some("cpitd"@), None) == clone_issues(old(db)@));
    assert(db@ == close_each(old(db)@, numbers_of(clone_issues(old(db)@)), now));
    r
}

} // verus!
