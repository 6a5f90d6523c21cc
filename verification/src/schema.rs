//! The layout of the persisted store: its version, and the steps that bring
//! an older file up to it.

use vstd::prelude::*;

verus! {

/// The version of the layout that this library writes.
pub const SCHEMA_VERSION: i32 = 7;

/// One step of opening a persisted store.
#[derive(Debug, Clone, Copy, PartialEq, Eq, Structural)]
pub enum SchemaStep {
    /// Create every table and index that is not there yet.
    CreateTables,
    /// Add the parent column to the issues of a first-version file.
    AddParentColumn,
    /// Rebuild the sessions so that deleting an issue clears a session's
    /// reference to it.
    RebuildSessions,
    /// Record the version that the file now has.
    SetVersion(i32),
    /// Make the engine hold rows to the issues they name.
    EnableForeignKeys,
}

/// The steps for a file that records the version `version`: a file that is
/// behind gets the full layout and the later changes, and then records the
/// current version; every file ends with the references enforced.
pub open spec fn upgrade_plan(version: int) -> Seq<SchemaStep> {
    if version < SCHEMA_VERSION {
        seq![
            SchemaStep::CreateTables,
            SchemaStep::AddParentColumn,
            SchemaStep::RebuildSessions,
            SchemaStep::SetVersion(SCHEMA_VERSION),
            SchemaStep::EnableForeignKeys,
        ]
    } else {
        seq![SchemaStep::EnableForeignKeys]
    }
}

/// The version that a file records once the steps for `version` were taken.
pub open spec fn version_after(version: int) -> int {
    if version < SCHEMA_VERSION {
        SCHEMA_VERSION as int
    } else {
        version
    }
}

impl SchemaStep {
    /// Whether opening goes on where this step fails: the two changes to
    /// older files fail on a file that has them already.
    pub open spec fn failure_is_ignored(self) -> bool {
        self == SchemaStep::AddParentColumn || self == SchemaStep::RebuildSessions
    }

    pub fn may_fail(&self) -> (r: bool)
        ensures
            r == self.failure_is_ignored(),
    {
        match self {
            SchemaStep::AddParentColumn => true,
            SchemaStep::RebuildSessions => true,
            _ => false,
        }
    }
}

/// The steps to take on a file that records the version `version`.
pub fn plan_upgrade(version: i32) -> (steps: Vec<SchemaStep>)
    ensures
        steps@ == upgrade_plan(version as int),
{
    let mut steps: Vec<SchemaStep> = Vec::new();
    if version < SCHEMA_VERSION {
        steps.push(SchemaStep::CreateTables);
        steps.push(SchemaStep::AddParentColumn);
        steps.push(SchemaStep::RebuildSessions);
        steps.push(SchemaStep::SetVersion(SCHEMA_VERSION));
    }
    steps.push(SchemaStep::EnableForeignKeys);
    assert(steps@ =~= upgrade_plan(version as int));
    steps
}

/// Opening a store twice changes nothing the second time: after the steps
/// for any version, the steps that remain are only the one that every
/// opening takes, and the version stays.
pub proof fn law_upgrade_is_idempotent(version: int)
    ensures
        upgrade_plan(version_after(version)) == seq![SchemaStep::EnableForeignKeys],
        version_after(version_after(version)) == version_after(version),
        version_after(version) >= version,
        version_after(version) >= SCHEMA_VERSION,
{
}

} // verus!
