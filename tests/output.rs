use git_stats::{aggregate, run_output, BranchKind, StatsError};

fn name(s: &str) -> Option<String> {
    Some(s.to_string())
}

#[test]
fn report_lists_contributors_branches_tags_and_files() {
    let history = vec![name("Alice"), name("Bob"), name("Alice")];
    let branches = vec![Some(BranchKind::Local), Some(BranchKind::Remote)];
    let stats = aggregate(&history, &branches, 12, &vec![0x2 | 0x100, 0x80]);
    assert_eq!(
        stats.report(),
        "Alice: 2\nBob: 1\n\nBranches:\n\tLocal: 1\n\tRemote: 1\ntags: 12\nFiles:\n\tIndexModified: 1\n\tWorktreeNew: 1\n\tWorktreeModified: 1"
    );
}

#[test]
fn successful_run_prints_report() {
    let stats = aggregate(&vec![name("Bob")], &vec![], 0, &vec![]);
    let expected = stats.report();
    let out = run_output(&Ok(stats));
    assert_eq!(out.exit_code, 0);
    assert_eq!(out.stdout, expected);
    assert_eq!(out.stdout, "Bob: 1\n\nBranches:\n\tLocal: 0\n\tRemote: 0\ntags: 0\nFiles:");
    assert!(out.stderr.is_empty());
}

#[test]
fn unavailable_repository_fails_without_stats() {
    let out = run_output(&Err(StatsError::RepositoryUnavailable { path: "/no/such/dir".to_string() }));
    assert_ne!(out.exit_code, 0);
    assert!(out.stdout.is_empty());
    assert_eq!(out.stderr, "cannot open repository at /no/such/dir");
}

#[test]
fn unavailable_history_fails() {
    let out = run_output(&Err(StatsError::HistoryUnavailable));
    assert_eq!(out.exit_code, 1);
    assert!(out.stdout.is_empty());
    assert_eq!(out.stderr, "cannot walk the commit history");
}
