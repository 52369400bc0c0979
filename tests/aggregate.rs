use git_stats::{aggregate, count_branches, tally_commits, tally_statuses, BranchKind, StatusCategory};

fn name(s: &str) -> Option<String> {
    Some(s.to_string())
}

#[test]
fn commits_grouped_by_committer_name() {
    let history = vec![name("Alice"), name("Bob"), name("Alice")];
    let stats = aggregate(&history, &vec![], 0, &vec![]);
    assert_eq!(stats.contributor_count(), 2);
    assert_eq!(stats.commit_count(&"Alice".to_string()), 2);
    assert_eq!(stats.commit_count(&"Bob".to_string()), 1);
    assert_eq!(stats.commit_count(&"Carol".to_string()), 0);
    assert_eq!(
        stats.commits_by_contributor,
        vec![("Alice".to_string(), 2), ("Bob".to_string(), 1)]
    );
}

#[test]
fn unreadable_committers_are_skipped() {
    let history = vec![name("Alice"), None, name("Alice"), None];
    let entries = tally_commits(&history);
    assert_eq!(entries, vec![("Alice".to_string(), 2)]);
    let total: usize = entries.iter().map(|e| e.1).sum();
    assert_eq!(total, 2);
}

#[test]
fn commit_order_does_not_change_counts() {
    let a = tally_commits(&vec![name("Alice"), name("Bob"), name("Alice")]);
    let b = tally_commits(&vec![name("Bob"), name("Alice"), name("Alice")]);
    let mut a_sorted = a.clone();
    let mut b_sorted = b.clone();
    a_sorted.sort();
    b_sorted.sort();
    assert_eq!(a_sorted, b_sorted);
}

#[test]
fn aggregate_twice_is_identical() {
    let history = vec![name("Alice"), name("Bob")];
    let branches = vec![Some(BranchKind::Local), Some(BranchKind::Remote)];
    let statuses = vec![0x2u32, 0x80];
    let first = aggregate(&history, &branches, 3, &statuses);
    let second = aggregate(&history, &branches, 3, &statuses);
    assert_eq!(first.commits_by_contributor, second.commits_by_contributor);
    assert_eq!(first.local_branch_count, second.local_branch_count);
    assert_eq!(first.remote_branch_count, second.remote_branch_count);
    assert_eq!(first.tag_count, second.tag_count);
    assert_eq!(first.files_by_status, second.files_by_status);
}

#[test]
fn two_local_one_remote_branch() {
    let branches = vec![
        Some(BranchKind::Local),
        Some(BranchKind::Remote),
        Some(BranchKind::Local),
    ];
    let stats = aggregate(&vec![], &branches, 0, &vec![]);
    assert_eq!(stats.local_branch_count, 2);
    assert_eq!(stats.remote_branch_count, 1);
}

#[test]
fn unreadable_branches_are_skipped() {
    let branches = vec![Some(BranchKind::Remote), None, Some(BranchKind::Local), None];
    let (local, remote) = count_branches(&branches);
    assert_eq!((local, remote), (1, 1));
    assert_eq!(local + remote, 2);
}

#[test]
fn file_modified_in_index_and_worktree_counts_twice() {
    let stats = aggregate(&vec![], &vec![], 0, &vec![0x2 | 0x100]);
    assert_eq!(stats.files_with_status(StatusCategory::IndexModified), 1);
    assert_eq!(stats.files_with_status(StatusCategory::WorktreeModified), 1);
    assert_eq!(stats.files_with_status(StatusCategory::Unclassified), 0);
    assert_eq!(stats.files_with_status(StatusCategory::Current), 0);
}

#[test]
fn status_counts_per_category() {
    let counts = tally_statuses(&vec![0, 0x1, 0x1 | 0x8000, 0x1000, 0x4000]);
    assert_eq!(counts.len(), 14);
    assert_eq!(counts[StatusCategory::Current.index()], 1);
    assert_eq!(counts[StatusCategory::IndexNew.index()], 2);
    assert_eq!(counts[StatusCategory::Conflicted.index()], 1);
    assert_eq!(counts[StatusCategory::Unclassified.index()], 1);
    assert_eq!(counts[StatusCategory::Ignored.index()], 1);
    assert_eq!(counts[StatusCategory::WorktreeNew.index()], 0);
}

#[test]
fn empty_repository_has_no_contributors() {
    let branches = vec![Some(BranchKind::Local)];
    let stats = aggregate(&vec![], &branches, 2, &vec![]);
    assert_eq!(stats.contributor_count(), 0);
    assert!(stats.commits_by_contributor.is_empty());
    assert_eq!(stats.local_branch_count, 1);
    assert_eq!(stats.remote_branch_count, 0);
    assert_eq!(stats.tag_count, 2);
    assert!(stats.files_by_status.iter().all(|&n| n == 0));
}

#[test]
fn large_counts_stay_exact() {
    let history: Vec<Option<String>> = (0..1000).map(|i| name(if i % 4 == 0 { "Bob" } else { "Alice" })).collect();
    let stats = aggregate(&history, &vec![], 0, &vec![]);
    assert_eq!(stats.commit_count(&"Alice".to_string()), 750);
    assert_eq!(stats.commit_count(&"Bob".to_string()), 250);
}
