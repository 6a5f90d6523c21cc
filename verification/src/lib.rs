//! An issue tracker's store: issues, dependencies, labels, comments,
//! relations, sessions, milestones and time entries, with the rules that keep
//! them consistent.

pub mod clock;
pub mod commands;
pub mod db;
pub mod graph;
pub mod models;
pub mod schema;
pub mod seqs;
pub mod text;
pub mod utils;
