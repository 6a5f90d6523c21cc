//! What the commands decide and do to the store; showing the outcome is left
//! to the caller.

use vstd::prelude::*;
use vstd::string::*;

use crate::db::DbError;

pub mod changelog;
pub mod comment;
pub mod cpitd;
pub mod create;
pub mod deps;
pub mod import;
pub mod label;
pub mod list;
pub mod next;
pub mod relate;
pub mod search;
pub mod session;
pub mod show;
pub mod status;

verus! {

/// Why a command did nothing.
#[derive(Debug, Clone, Copy, PartialEq, Eq, Structural)]
pub enum CommandError {
    /// The store refused.
    Store(DbError),
    /// A session was to be ended and none is running.
    NoActiveSession,
    /// A session was to be worked in and none is running.
    SessionNotStarted,
    /// The issue that was to be the parent does not exist.
    ParentNotFound(i64),
    /// The priority is none of the four.
    InvalidPriority,
    /// No template has the name.
    UnknownTemplate,
}

/// The error of a command for an outcome of the store.
pub open spec fn lift<T>(r: Result<T, DbError>) -> Result<T, CommandError> {
    match r {
        Ok(v) => Ok(v),
        Err(e) => Err(CommandError::Store(e)),
    }
}

impl CommandError {
    /// What the error says.
    pub open spec fn message_text(self) -> Seq<char> {
        match self {
            CommandError::Store(e) => e.message_text(),
            CommandError::NoActiveSession => "No active session"@,
            CommandError::SessionNotStarted =>
                "No active session. Use 'chainlink session start' first."@,
            CommandError::ParentNotFound(id) => "Parent issue #"@ + crate::text::decimal_text(
                id as int,
            ) + " not found"@,
            CommandError::InvalidPriority =>
                "Invalid priority. Must be one of: low, medium, high, critical"@,
            CommandError::UnknownTemplate => "Unknown template"@,
        }
    }

    /// What the error says.
    pub fn message(&self) -> (r: String)
        ensures
            r@ == self.message_text(),
    {
        match self {
            CommandError::Store(e) => e.message(),
            CommandError::NoActiveSession => "No active session".to_owned(),
            CommandError::SessionNotStarted =>
                "No active session. Use 'chainlink session start' first.".to_owned(),
            CommandError::ParentNotFound(id) => {
                let mut s = "Parent issue #".to_owned();
                crate::text::push_signed(&mut s, *id);
                s.append(" not found");
                s
            },
            CommandError::InvalidPriority =>
                "Invalid priority. Must be one of: low, medium, high, critical".to_owned(),
            CommandError::UnknownTemplate => "Unknown template".to_owned(),
        }
    }
}

} // verus!
