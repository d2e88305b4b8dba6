//! Folder synchronisation: run results, failure reasons, the resume cursor, the
//! traversal engine, the rules of the background loop that schedules runs, and
//! the edits of the job list and run requests.

pub mod outcome;
pub mod resume;
pub mod engine;
pub mod step;
pub mod schedule;
pub mod history;
pub mod failures;
pub mod requests;
