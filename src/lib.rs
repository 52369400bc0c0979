//! Aggregate statistics over a source-control repository: commits per
//! committer, local and remote branches, tags, and file status categories.
//!
//! The repository itself is read elsewhere; this library receives what was
//! read as plain values and folds it into a [`RepositoryStats`].

pub mod outcome;
pub mod report;
pub mod stats;
pub mod status;

pub use outcome::{run_output, RunOutput, StatsError};
pub use stats::{aggregate, count_branches, tally_commits, tally_statuses, BranchKind, RepositoryStats};
pub use status::{classify, StatusCategory};
