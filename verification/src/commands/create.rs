//! Creating issues: the priorities that are accepted and the built-in
//! templates.

use vstd::prelude::*;
use vstd::string::*;

use crate::clock::{system_time, Timestamp};
use crate::commands::import::{put_labels, with_labels};
use crate::commands::CommandError;
use crate::db::{opt_str, Database, DbError, DbView};
use crate::text::{opt_text, text_eq, texts_view};

verus! {

/// A built-in starting point for an issue.
#[derive(Debug, Clone, Copy)]
pub struct Template {
    pub name: &'static str,
    pub priority: &'static str,
    pub label: &'static str,
    pub description_prefix: Option<&'static str>,
}

pub ghost struct TemplateView {
    pub name: Seq<char>,
    pub priority: Seq<char>,
    pub label: Seq<char>,
    pub description_prefix: Option<Seq<char>>,
}

impl View for Template {
    type V = TemplateView;

    open spec fn view(&self) -> TemplateView {
        TemplateView {
            name: self.name@,
            priority: self.priority@,
            label: self.label@,
            description_prefix: match self.description_prefix {
                Some(p) => Some(p@),
                None => None,
            },
        }
    }
}

/// Options shared by the commands that create an issue.
pub struct CreateOpts<'a> {
    pub labels: &'a [String],
    pub work: bool,
    pub quiet: bool,
}

/// A template whose name is also its label.
pub open spec fn template_row(name: Seq<char>, priority: Seq<char>, prefix: Seq<char>) -> TemplateView {
    TemplateView { name, priority, label: name, description_prefix: Some(prefix) }
}

/// The built-in templates, in the order in which they are listed.
pub open spec fn template_table() -> Seq<TemplateView> {
    seq![
        template_row("bug"@, "high"@, "Steps to reproduce:\n1. \n\nExpected: \nActual: "@),
        template_row("feature"@, "medium"@, "Goal: \n\nAcceptance criteria:\n- "@),
        template_row("refactor"@, "low"@, "Current state: \n\nDesired state: \n\nReason: "@),
        template_row("research"@, "low"@, "Question: \n\nContext: \n\nFindings: "@),
        template_row(
            "audit"@,
            "high"@,
            "Scope: \n\nFiles to review: \n\nFindings: \n\nSeverity: "@,
        ),
        template_row(
            "continuation"@,
            "high"@,
            "Previous session: \n\nCompleted: \n\nRemaining: \n\nBlockers: "@,
        ),
        template_row(
            "investigation"@,
            "medium"@,
            "Symptom: \n\nReproduction: \n\nHypotheses: \n\nRoot cause: \n\nFix: "@,
        ),
    ]
}

/// The templates as what they hold.
pub open spec fn templates_view(v: Seq<Template>) -> Seq<TemplateView> {
    v.map_values(|t: Template| t@)
}

/// Whether `priority` is one of the four priorities.
pub open spec fn is_priority(priority: Seq<char>) -> bool {
    priority == "low"@ || priority == "medium"@ || priority == "high"@ || priority == "critical"@
}

fn template(name: &'static str, priority: &'static str, prefix: &'static str) -> (t: Template)
    ensures
        t@ == template_row(name@, priority@, prefix@),
{
    Template { name, priority, label: name, description_prefix: Some(prefix) }
}

/// The built-in templates, in the order in which they are listed.
pub fn templates() -> (v: Vec<Template>)
    ensures
        templates_view(v@) == template_table(),
{
    let mut v: Vec<Template> = Vec::new();
    v.push(template("bug", "high", "Steps to reproduce:\n1. \n\nExpected: \nActual: "));
    v.push(template("feature", "medium", "Goal: \n\nAcceptance criteria:\n- "));
    v.push(template("refactor", "low", "Current state: \n\nDesired state: \n\nReason: "));
    v.push(template("research", "low", "Question: \n\nContext: \n\nFindings: "));
    v.push(template("audit", "high", "Scope: \n\nFiles to review: \n\nFindings: \n\nSeverity: "));
    v.push(
        template(
            "continuation",
            "high",
            "Previous session: \n\nCompleted: \n\nRemaining: \n\nBlockers: ",
        ),
    );
    v.push(
        template(
            "investigation",
            "medium",
            "Symptom: \n\nReproduction: \n\nHypotheses: \n\nRoot cause: \n\nFix: ",
        ),
    );
    assert(templates_view(v@) =~= template_table());
    v
}

/// The first of `table` from the place `from` on that is named `name`.
pub open spec fn first_named(table: Seq<TemplateView>, name: Seq<char>, from: int) -> Option<
    TemplateView,
>
    decreases table.len() - from,
{
    if from < 0 || from >= table.len() {
        None
    } else if table[from].name == name {
        Some(table[from])
    } else {
        first_named(table, name, from + 1)
    }
}

/// The built-in template named `name`.
pub open spec fn find_template(name: Seq<char>) -> Option<TemplateView> {
    first_named(template_table(), name, 0)
}

/// A template as what it holds, if there is one.
pub open spec fn opt_template(o: Option<Template>) -> Option<TemplateView> {
    match o {
        Some(t) => Some(t@),
        None => None,
    }
}

/// The template named `name`, or `None` where no template has that name.
pub fn get_template(name: &str) -> (r: Option<Template>)
    ensures
        opt_template(r) == find_template(name@),
{
    let all = templates();
    let mut i: usize = 0;
    while i < all.len()
        invariant
            i <= all@.len(),
            templates_view(all@) == template_table(),
            find_template(name@) == first_named(template_table(), name@, i as int),
        decreases all@.len() - i,
    {
        let t = all[i];
        assert(templates_view(all@)[i as int] == t@);
        if text_eq(t.name, name) {
            return Some(t);
        }
        i += 1;
    }
    None
}

/// The names of the built-in templates, in the order of the table.
pub fn list_templates() -> (r: Vec<&'static str>)
    ensures
        r@.len() == template_table().len(),
        forall|i: int| 0 <= i < r@.len() ==> (#[trigger] r@[i])@ == template_table()[i].name,
{
    let all = templates();
    let mut names: Vec<&'static str> = Vec::new();
    let mut i: usize = 0;
    while i < all.len()
        invariant
            i <= all@.len(),
            templates_view(all@) == template_table(),
            names@.len() == i,
            forall|k: int| 0 <= k < i ==> (#[trigger] names@[k])@ == template_table()[k].name,
        decreases all@.len() - i,
    {
        let t = all[i];
        assert(templates_view(all@)[i as int] == t@);
        names.push(t.name);
        i += 1;
    }
    names
}

/// Whether `priority` is one of `low`, `medium`, `high` and `critical`.
pub fn validate_priority(priority: &str) -> (r: bool)
    ensures
        r == is_priority(priority@),
{
    text_eq(priority, "low") || text_eq(priority, "medium") || text_eq(priority, "high")
        || text_eq(priority, "critical")
}

/// What an issue is created with once a template was applied.
#[derive(Debug, Clone, PartialEq)]
pub struct IssuePlan {
    pub priority: String,
    pub description: Option<String>,
    /// The label that the template brings.
    pub label: Option<&'static str>,
}

pub ghost struct IssuePlanView {
    pub priority: Seq<char>,
    pub description: Option<Seq<char>>,
    pub label: Option<Seq<char>>,
}

impl View for IssuePlan {
    type V = IssuePlanView;

    open spec fn view(&self) -> IssuePlanView {
        IssuePlanView {
            priority: self.priority@,
            description: opt_text(self.description),
            label: match self.label {
                Some(l) => Some(l@),
                None => None,
            },
        }
    }
}

/// The description of an issue made from a template: the template's text,
/// and after an empty line what the user wrote.
pub open spec fn described(prefix: Option<Seq<char>>, description: Option<Seq<char>>) -> Option<
    Seq<char>,
> {
    match (prefix, description) {
        (Some(p), Some(d)) => Some(p + "\n\n"@ + d),
        (Some(p), None) => Some(p),
        (None, d) => d,
    }
}

/// What an issue is created with: without a template, what the user gave;
/// with one, the template's priority unless the user gave another than
/// `medium`, the template's text before the user's description, and the
/// template's label. The priority must be one of the four.
pub open spec fn plan_of(
    description: Option<Seq<char>>,
    priority: Seq<char>,
    template: Option<Seq<char>>,
) -> Result<IssuePlanView, CommandError> {
    match template {
        None => if is_priority(priority) {
            Ok(IssuePlanView { priority, description, label: None })
        } else {
            Err(CommandError::InvalidPriority)
        },
        Some(name) => match find_template(name) {
            None => Err(CommandError::UnknownTemplate),
            Some(t) => {
                let p = if priority != "medium"@ {
                    priority
                } else {
                    t.priority
                };
                if is_priority(p) {
                    Ok(
                        IssuePlanView {
                            priority: p,
                            description: described(t.description_prefix, description),
                            label: Some(t.label),
                        },
                    )
                } else {
                    Err(CommandError::InvalidPriority)
                }
            },
        },
    }
}

/// The plan as what it holds, or the error.
pub open spec fn plan_view(r: Result<IssuePlan, CommandError>) -> Result<
    IssuePlanView,
    CommandError,
> {
    match r {
        Ok(p) => Ok(p@),
        Err(e) => Err(e),
    }
}

/// Works out what an issue is created with.
pub fn plan_issue(description: Option<&str>, priority: &str, template: Option<&str>) -> (r: Result<
    IssuePlan,
    CommandError,
>)
    ensures
        plan_view(r) == plan_of(opt_str(description), priority@, opt_str(template)),
{
    let (final_priority, final_description, label) = match template {
        Some(name) => {
            let t = match get_template(name) {
                Some(t) => t,
                None => {
                    return Err(CommandError::UnknownTemplate);
                },
            };
            let p = if !text_eq(priority, "medium") {
                priority
            } else {
                t.priority
            };
            let d = match (t.description_prefix, description) {
                (Some(prefix), Some(user)) => {
                    let mut s = prefix.to_owned();
                    s.append("\n\n");
                    s.append(user);
                    Some(s)
                },
                (Some(prefix), None) => Some(prefix.to_owned()),
                (None, Some(user)) => Some(user.to_owned()),
                (None, None) => None,
            };
            (p.to_owned(), d, Some(t.label))
        },
        None => (
            priority.to_owned(),
            match description {
                Some(d) => Some(d.to_owned()),
                None => None,
            },
            None,
        ),
    };
    if !validate_priority(final_priority.as_str()) {
        return Err(CommandError::InvalidPriority);
    }
    Ok(IssuePlan { priority: final_priority, description: final_description, label })
}

/// Whether a new issue became the one that the running session works on.
#[derive(Debug, Clone, Copy, PartialEq, Eq, Structural)]
pub enum Working {
    /// It was not asked for.
    NotAsked,
    /// The running session now works on the issue.
    Started,
    /// It was asked for, and no session is running.
    NoSession,
}

/// What creating an issue came to.
#[derive(Debug, Clone, Copy, PartialEq, Eq, Structural)]
pub struct Created {
    pub id: i64,
    pub working: Working,
}

/// The store with `label` on the issue `id`, where there is a label.
pub open spec fn with_label(v: DbView, id: int, label: Option<Seq<char>>) -> DbView {
    match label {
        Some(l) => v.add_label(id, l),
        None => v,
    }
}

/// The store with the running session working on the issue `id`, where
/// that is asked for and a session is running.
pub open spec fn with_work(v: DbView, id: int, work: bool) -> DbView {
    if work && v.current_session() is Some {
        v.set_session_issue(v.current_session()->0.id, id)
    } else {
        v
    }
}

/// Whether the session works on the new issue.
pub open spec fn working_of(v: DbView, work: bool) -> Working {
    if !work {
        Working::NotAsked
    } else if v.current_session() is Some {
        Working::Started
    } else {
        Working::NoSession
    }
}

/// The store after an issue was created from `plan` at `now`, with the
/// labels `labels` besides the template's.
pub open spec fn created(
    v: DbView,
    title: Seq<char>,
    plan: IssuePlanView,
    parent: Option<int>,
    labels: Seq<Seq<char>>,
    work: bool,
    now: Timestamp,
) -> DbView {
    let id = v.last_issue_id + 1;
    with_work(
        with_labels(
            with_label(
                v.create_issue(title, plan.description, plan.priority, parent, now),
                id,
                plan.label,
            ),
            id,
            labels,
        ),
        id,
        work,
    )
}

/// Creates an issue from `plan` at the time `now`, puts the labels on it,
/// and makes it the work of the running session where that is asked for.
pub fn create_planned(
    db: &mut Database,
    title: &str,
    plan: &IssuePlan,
    parent_id: Option<i64>,
    opts: &CreateOpts<'_>,
    now: Timestamp,
) -> (r: Result<Created, CommandError>)
    requires
        old(db).wf(),
    ensures
        final(db).wf(),
        if old(db)@.can_create_issue() {
            &&& r matches Ok(c)
            &&& c.id == old(db)@.last_issue_id + 1
            &&& final(db)@ == created(
                old(db)@,
                title@,
                plan@,
                crate::models::opt_id(parent_id),
                texts_view(opts.labels@),
                opts.work,
                now,
            )
            &&& c.working == working_of(old(db)@, opts.work)
        } else {
            r == Err::<Created, CommandError>(CommandError::Store(DbError::Full)) && final(db)@
                == old(db)@
        },
{
    let id = match db.create_issue_at(
        title,
        match &plan.description {
            Some(d) => Some(d.as_str()),
            None => None,
        },
        plan.priority.as_str(),
        parent_id,
        now,
    ) {
        Ok(id) => id,
        Err(e) => {
            return Err(CommandError::Store(e));
        },
    };
    proof {
        crate::db::laws::law_create_then_get(
            old(db)@,
            title@,
            plan@.description,
            plan@.priority,
            crate::models::opt_id(parent_id),
            now,
        );
    }
    if let Some(label) = plan.label {
        match db.add_label(id, label) {
            Ok(_) => {},
            Err(e) => {
                return Err(CommandError::Store(e));
            },
        }
    }
    match put_labels(db, id, opts.labels) {
        Ok(()) => {},
        Err(e) => {
            return Err(CommandError::Store(e));
        },
    }
    let ghost labelled = db@;
    proof {
        lemma_labels_keep_sessions(
            with_label(
                old(db)@.create_issue(
                    title@,
                    plan@.description,
                    plan@.priority,
                    crate::models::opt_id(parent_id),
                    now,
                ),
                id as int,
                plan@.label,
            ),
            id as int,
            texts_view(opts.labels@),
        );
    }
    let mut working = Working::NotAsked;
    if opts.work {
        match db.get_current_session() {
            Ok(Some(session)) => {
                match db.set_session_issue(session.id, id) {
                    Ok(_) => {},
                    Err(e) => {
                        return Err(CommandError::Store(e));
                    },
                }
                working = Working::Started;
            },
            _ => {
                working = Working::NoSession;
            },
        }
    }
    Ok(Created { id, working })
}

/// Putting labels on an issue leaves the sessions as they are.
pub proof fn lemma_labels_keep_sessions(v: DbView, id: int, labels: Seq<Seq<char>>)
    ensures
        with_labels(v, id, labels).sessions == v.sessions,
        with_labels(v, id, labels).issues == v.issues,
    decreases labels.len(),
{
    if labels.len() > 0 {
        lemma_labels_keep_sessions(v, id, labels.drop_last());
    }
}

/// Creates an issue, from a template where one is named, puts the labels on
/// it, and makes it the work of the running session where that is asked
/// for.
pub fn run(
    db: &mut Database,
    title: &str,
    description: Option<&str>,
    priority: &str,
    template: Option<&str>,
    opts: &CreateOpts<'_>,
) -> (r: Result<Created, CommandError>)
    requires
        old(db).wf(),
    ensures
        final(db).wf(),
        match plan_of(opt_str(description), priority@, opt_str(template)) {
            Err(e) => r == Err::<Created, CommandError>(e) && final(db)@ == old(db)@,
            Ok(plan) => if old(db)@.can_create_issue() {
                &&& r matches Ok(c)
                &&& c.id == old(db)@.last_issue_id + 1
                &&& c.working == working_of(old(db)@, opts.work)
                &&& exists|now: Timestamp|
                    final(db)@ == #[trigger] created(
                        old(db)@,
                        title@,
                        plan,
                        None,
                        texts_view(opts.labels@),
                        opts.work,
                        now,
                    )
            } else {
                &&& r == Err::<Created, CommandError>(CommandError::Store(DbError::Full))
                &&& final(db)@ == old(db)@
            },
        },
{
    let plan = match plan_issue(description, priority, template) {
        Ok(p) => p,
        Err(e) => {
            return Err(e);
        },
    };
    let now = system_time();
    create_planned(db, title, &plan, None, opts, now)
}

/// What `run_subissue` refuses: a priority that is none of the four, and a
/// parent that does not exist.
pub open spec fn subissue_error(v: DbView, parent_id: int, priority: Seq<char>) -> Option<
    CommandError,
> {
    if !is_priority(priority) {
        Some(CommandError::InvalidPriority)
    } else if !v.has_issue(parent_id) {
        Some(CommandError::ParentNotFound(parent_id as i64))
    } else if !v.can_create_issue() {
        Some(CommandError::Store(DbError::Full))
    } else {
        None
    }
}

/// Creates an issue under the issue `parent_id`, which must exist, and puts
/// the labels on it.
pub fn run_subissue(
    db: &mut Database,
    parent_id: i64,
    title: &str,
    description: Option<&str>,
    priority: &str,
    opts: &CreateOpts<'_>,
) -> (r: Result<Created, CommandError>)
    requires
        old(db).wf(),
    ensures
        final(db).wf(),
        match subissue_error(old(db)@, parent_id as int, priority@) {
            Some(e) => r == Err::<Created, CommandError>(e) && final(db)@ == old(db)@,
            None => {
                &&& r matches Ok(c)
                &&& c.id == old(db)@.last_issue_id + 1
                &&& c.working == working_of(old(db)@, opts.work)
                &&& exists|now: Timestamp|
                    final(db)@ == #[trigger] created(
                        old(db)@,
                        title@,
                        IssuePlanView {
                            priority: priority@,
                            description: opt_str(description),
                            label: None,
                        },
                        Some(parent_id as int),
                        texts_view(opts.labels@),
                        opts.work,
                        now,
                    )
            },
        },
{
    if !validate_priority(priority) {
        return Err(CommandError::InvalidPriority);
    }
    match db.get_issue(parent_id) {
        Ok(Some(_)) => {},
        Ok(None) => {
            return Err(CommandError::ParentNotFound(parent_id));
        },
        Err(e) => {
            return Err(CommandError::Store(e));
        },
    }
    let plan = IssuePlan {
        priority: priority.to_owned(),
        description: match description {
            Some(d) => Some(d.to_owned()),
            None => None,
        },
        label: None,
    };
    let now = system_time();
    create_planned(db, title, &plan, Some(parent_id), opts, now)
}

} // verus!
