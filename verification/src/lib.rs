//! Verified core of a local code-context engine: parsing of git output,
//! symbol extraction, ranking of files for a task, and the bookkeeping
//! decisions of the indexer and the session tracker.

pub mod text;
pub mod digest;
pub mod git;
pub mod history;
pub mod indexer;
pub mod sessions;
pub mod parsers;
pub mod search;
pub mod file_details;
pub mod onboarding;
pub mod working_set;
pub mod smart_context;
