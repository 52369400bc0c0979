//! What a run prints and how it exits, given whether the statistics could be
//! gathered.
use vstd::prelude::*;

use crate::report::report_text;
use crate::stats::RepositoryStats;

verus! {

/// Why the statistics of a repository could not be gathered.
pub enum StatsError {
    /// The path does not exist, is not a repository, or cannot be opened.
    RepositoryUnavailable { path: String },
    /// The commit history could not be walked for a reason other than an
    /// empty history.
    HistoryUnavailable,
}

/// The diagnostic for an error.
pub open spec fn error_text(e: StatsError) -> Seq<char> {
    match e {
        StatsError::RepositoryUnavailable { path } => "cannot open repository at "@ + path@,
        StatsError::HistoryUnavailable => "cannot walk the commit history"@,
    }
}

impl StatsError {
    /// The diagnostic for this error.
    pub fn message(&self) -> (r: String)
        ensures
            r@ == error_text(*self),
    {
        match self {
            StatsError::RepositoryUnavailable { path } => {
                let mut m = String::from_str("cannot open repository at ");
                m.append(path.as_str());
                m
            },
            StatsError::HistoryUnavailable => String::from_str("cannot walk the commit history"),
        }
    }
}

/// What a run writes to standard output and standard error, and its exit code.
pub struct RunOutput {
    pub stdout: String,
    pub stderr: String,
    pub exit_code: i32,
}

/// The output of a run: the report and exit code 0 on success; on an error,
/// nothing on standard output, the diagnostic on standard error and exit
/// code 1.
pub fn run_output(result: &Result<RepositoryStats, StatsError>) -> (r: RunOutput)
    requires
        result matches Ok(s) ==> s.wf(),
    ensures
        match result {
            Ok(s) => r.exit_code == 0 && r.stdout@ == report_text(*s) && r.stderr@.len() == 0,
            Err(e) => r.exit_code == 1 && r.stdout@.len() == 0 && r.stderr@ == error_text(*e),
        },
{
    match result {
        Ok(s) => RunOutput { stdout: s.report(), stderr: String::new(), exit_code: 0 },
        Err(e) => RunOutput { stdout: String::new(), stderr: e.message(), exit_code: 1 },
    }
}

} // verus!
