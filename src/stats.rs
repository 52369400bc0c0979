//! Folding what was read from a repository into [`RepositoryStats`].
use vstd::multiset::Multiset;
use vstd::prelude::*;

use crate::status::{
    category_at, category_at_index, category_index, in_category, lemma_category_order,
    CATEGORY_COUNT, StatusCategory,
};

verus! {

broadcast use vstd::seq_lib::group_to_multiset_ensures;

/// Where a branch lives.
#[derive(Clone, Copy, Debug, PartialEq, Eq, Structural)]
pub enum BranchKind {
    Local,
    Remote,
}

/// Committer names of a commit history as values; `None` marks a commit whose
/// committer could not be read.
pub open spec fn names_view(history: Seq<Option<String>>) -> Seq<Option<Seq<char>>> {
    history.map_values(
        |o: Option<String>|
            match o {
                Option::Some(s) => Option::Some(s@),
                Option::None => Option::None,
            },
    )
}

/// Number of commits of `history` whose committer is `name`.
pub open spec fn commits_by(history: Seq<Option<Seq<char>>>, name: Seq<char>) -> nat {
    history.to_multiset().count(Option::Some(name))
}

/// Each committer of `history` with the number of their commits.
pub open spec fn contributor_map(history: Seq<Option<Seq<char>>>) -> Map<Seq<char>, nat> {
    Map::new(|n: Seq<char>| commits_by(history, n) > 0, |n: Seq<char>| commits_by(history, n))
}

/// Number of items of `s` that could be read.
pub open spec fn present_count<T>(s: Seq<Option<T>>) -> nat
    decreases s.len(),
{
    if s.len() == 0 {
        0
    } else {
        present_count(s.drop_last()) + if s.last() is Some {
            1nat
        } else {
            0nat
        }
    }
}

/// Sum of the counts of a list of (name, count) entries.
pub open spec fn entry_total(e: Seq<(String, usize)>) -> nat
    decreases e.len(),
{
    if e.len() == 0 {
        0
    } else {
        entry_total(e.drop_last()) + e.last().1 as nat
    }
}

/// The names of a list of entries are pairwise distinct.
pub open spec fn distinct_names(e: Seq<(String, usize)>) -> bool {
    forall|i: int, j: int| 0 <= i < j < e.len() ==> e[i].0@ != e[j].0@
}

/// A list of (name, count) entries as a map from name to count.
pub open spec fn entries_map(e: Seq<(String, usize)>) -> Map<Seq<char>, nat> {
    Map::new(
        |n: Seq<char>| exists|i: int| 0 <= i < e.len() && e[i].0@ == n,
        |n: Seq<char>| e[choose|i: int| 0 <= i < e.len() && e[i].0@ == n].1 as nat,
    )
}

/// Number of branches of `branches` of the given kind.
pub open spec fn branch_count(branches: Seq<Option<BranchKind>>, kind: BranchKind) -> nat {
    branches.to_multiset().count(Option::Some(kind))
}

/// Number of files of `statuses` that belong to category `c`.
pub open spec fn files_in(statuses: Seq<u32>, c: StatusCategory) -> nat
    decreases statuses.len(),
{
    if statuses.len() == 0 {
        0
    } else {
        files_in(statuses.drop_last(), c) + if in_category(statuses.last(), c) {
            1nat
        } else {
            0nat
        }
    }
}

proof fn lemma_entry_total_update(e: Seq<(String, usize)>, j: int, x: (String, usize))
    requires
        0 <= j < e.len(),
    ensures
        entry_total(e.update(j, x)) == entry_total(e) - e[j].1 + x.1,
    decreases e.len(),
{
    if j == e.len() - 1 {
        assert(e.update(j, x).drop_last() =~= e.drop_last());
    } else {
        lemma_entry_total_update(e.drop_last(), j, x);
        assert(e.update(j, x).drop_last() =~= e.drop_last().update(j, x));
    }
}

proof fn lemma_files_in_bound(statuses: Seq<u32>, c: StatusCategory)
    ensures
        files_in(statuses, c) <= statuses.len(),
    decreases statuses.len(),
{
    if statuses.len() > 0 {
        lemma_files_in_bound(statuses.drop_last(), c);
    }
}

proof fn lemma_present_count_bound<T>(s: Seq<Option<T>>)
    ensures
        present_count(s) <= s.len(),
    decreases s.len(),
{
    if s.len() > 0 {
        lemma_present_count_bound(s.drop_last());
    }
}

proof fn lemma_entries_map_len(e: Seq<(String, usize)>)
    requires
        distinct_names(e),
    ensures
        entries_map(e).dom().finite(),
        entries_map(e).len() == e.len(),
    decreases e.len(),
{
    if e.len() == 0 {
        assert(entries_map(e).dom() =~= Set::empty());
    } else {
        let init = e.drop_last();
        lemma_entries_map_len(init);
        assert forall|n: Seq<char>| #[trigger]
            entries_map(e).dom().contains(n) <==> entries_map(init).dom().insert(
                e.last().0@,
            ).contains(n) by {
            if entries_map(e).dom().contains(n) && n != e.last().0@ {
                let i = choose|i: int| 0 <= i < e.len() && e[i].0@ == n;
                assert(init[i].0@ == n);
            }
            if entries_map(init).dom().contains(n) {
                let i = choose|i: int| 0 <= i < init.len() && init[i].0@ == n;
                assert(e[i].0@ == n);
            }
            if n == e.last().0@ {
                assert(e[e.len() - 1].0@ == n);
            }
        }
        assert(entries_map(e).dom() =~= entries_map(init).dom().insert(e.last().0@));
        assert forall|i: int| 0 <= i < init.len() implies init[i].0@ != e.last().0@ by {
            assert(e[i] == init[i]);
        }
        assert(!entries_map(init).dom().contains(e.last().0@));
    }
}

/// Position of the entry named `name`, if there is one.
fn find_name(entries: &Vec<(String, usize)>, name: &String) -> (r: Option<usize>)
    ensures
        match r {
            Option::Some(j) => j < entries@.len() && entries@[j as int].0@ == name@,
            Option::None => forall|i: int| 0 <= i < entries@.len() ==> entries@[i].0@ != name@,
        },
{
    let mut j: usize = 0;
    while j < entries.len()
        invariant
            j <= entries@.len(),
            forall|i: int| 0 <= i < j ==> entries@[i].0@ != name@,
        decreases entries@.len() - j,
    {
        if entries[j].0 == *name {
            return Option::Some(j);
        }
        j = j + 1;
    }
    Option::None
}

/// Counts the commits of each committer, in the order in which committers are
/// first seen. Commits whose committer could not be read are skipped.
pub fn tally_commits(history: &Vec<Option<String>>) -> (r: Vec<(String, usize)>)
    ensures
        entries_map(r@) == contributor_map(names_view(history@)),
        distinct_names(r@),
        forall|i: int| 0 <= i < r@.len() ==> r@[i].1 > 0,
        entry_total(r@) == present_count(names_view(history@)),
{
    let ghost h = names_view(history@);
    let mut r: Vec<(String, usize)> = Vec::new();
    let mut k: usize = 0;
    while k < history.len()
        invariant
            h == names_view(history@),
            k <= history@.len(),
            distinct_names(r@),
            forall|i: int|
                0 <= i < r@.len() ==> {
                    &&& r@[i].1 as nat == commits_by(h.take(k as int), r@[i].0@)
                    &&& 0 < r@[i].1 <= k
                },
            forall|n: Seq<char>|
                commits_by(h.take(k as int), n) > 0 ==> exists|i: int|
                    0 <= i < r@.len() && r@[i].0@ == n,
            entry_total(r@) == present_count(h.take(k as int)),
        decreases history@.len() - k,
    {
        let ghost before = r@;
        proof {
            assert(h.take(k + 1) =~= h.take(k as int).push(h[k as int]));
            assert(h.take(k + 1).drop_last() =~= h.take(k as int));
        }
        match &history[k] {
            Option::Some(name) => {
                assert(h[k as int] == Option::Some(name@));
                let pos: usize = match find_name(&r, name) {
                    Option::Some(j) => {
                        let cnt = r[j].1;
                        let key = r[j].0.clone();
                        r.set(j, (key, cnt + 1));
                        proof {
                            lemma_entry_total_update(before, j as int, (key, (cnt + 1) as usize));
                        }
                        j
                    },
                    Option::None => {
                        r.push((name.clone(), 1));
                        proof {
                            assert(r@.drop_last() =~= before);
                        }
                        r.len() - 1
                    },
                };
                proof {
                    assert forall|n: Seq<char>|
                        #[trigger] commits_by(h.take(k + 1), n) > 0 implies exists|i: int|
                            0 <= i < r@.len() && r@[i].0@ == n by {
                        if n == name@ {
                            assert(r@[pos as int].0@ == n);
                        } else {
                            assert(commits_by(h.take(k as int), n) > 0);
                            let i = choose|i: int| 0 <= i < before.len() && before[i].0@ == n;
                            assert(r@[i].0@ == n);
                        }
                    }
                }
            },
            Option::None => {
                proof {
                    assert forall|n: Seq<char>|
                        #[trigger] commits_by(h.take(k + 1), n) == commits_by(
                            h.take(k as int),
                            n,
                        ) by {}
                }
            },
        }
        k = k + 1;
    }
    proof {
        assert(h.take(k as int) =~= h);
        assert forall|n: Seq<char>| #[trigger]
            entries_map(r@).dom().contains(n) <==> contributor_map(h).dom().contains(n) by {
            if entries_map(r@).dom().contains(n) {
                let i = choose|i: int| 0 <= i < r@.len() && r@[i].0@ == n;
                assert(r@[i].1 > 0);
            }
        }
        assert(entries_map(r@) =~= contributor_map(h));
    }
    r
}

/// Counts the local and the remote branches, in that order. Branches that
/// could not be read are skipped.
pub fn count_branches(branches: &Vec<Option<BranchKind>>) -> (r: (usize, usize))
    ensures
        r.0 == branch_count(branches@, BranchKind::Local),
        r.1 == branch_count(branches@, BranchKind::Remote),
        r.0 + r.1 == present_count(branches@),
{
    let mut local: usize = 0;
    let mut remote: usize = 0;
    let mut k: usize = 0;
    while k < branches.len()
        invariant
            k <= branches@.len(),
            local == branch_count(branches@.take(k as int), BranchKind::Local),
            remote == branch_count(branches@.take(k as int), BranchKind::Remote),
            local + remote == present_count(branches@.take(k as int)),
        decreases branches@.len() - k,
    {
        proof {
            assert(branches@.take(k + 1) =~= branches@.take(k as int).push(branches@[k as int]));
            assert(branches@.take(k + 1).drop_last() =~= branches@.take(k as int));
            lemma_present_count_bound(branches@.take(k as int));
        }
        match branches[k] {
            Option::Some(BranchKind::Local) => {
                local = local + 1;
            },
            Option::Some(BranchKind::Remote) => {
                remote = remote + 1;
            },
            Option::None => {},
        }
        k = k + 1;
    }
    proof {
        assert(branches@.take(k as int) =~= branches@);
    }
    (local, remote)
}

/// Counts, for each status category in the fixed order, the files that belong
/// to it. A file with several status bits counts under each of its categories.
pub fn tally_statuses(statuses: &Vec<u32>) -> (r: Vec<usize>)
    ensures
        r@.len() == CATEGORY_COUNT,
        forall|c: StatusCategory| #[trigger] r@[category_index(c) as int] == files_in(statuses@, c),
{
    let mut r: Vec<usize> = Vec::new();
    while r.len() < CATEGORY_COUNT
        invariant
            r@.len() <= CATEGORY_COUNT,
            forall|x: int| 0 <= x < r@.len() ==> r@[x] == 0,
        decreases CATEGORY_COUNT - r@.len(),
    {
        r.push(0);
    }
    let mut k: usize = 0;
    while k < statuses.len()
        invariant
            k <= statuses@.len(),
            r@.len() == CATEGORY_COUNT,
            forall|x: int|
                0 <= x < CATEGORY_COUNT ==> #[trigger] r@[x] == files_in(
                    statuses@.take(k as int),
                    category_at(x as nat),
                ),
        decreases statuses@.len() - k,
    {
        let bits = statuses[k];
        proof {
            assert(statuses@.take(k + 1).drop_last() =~= statuses@.take(k as int));
            assert(statuses@.take(k + 1).last() == bits);
        }
        let mut i: usize = 0;
        while i < CATEGORY_COUNT
            invariant
                k < statuses@.len() <= usize::MAX,
                bits == statuses@[k as int],
                i <= CATEGORY_COUNT,
                r@.len() == CATEGORY_COUNT,
                forall|x: int|
                    0 <= x < i ==> #[trigger] r@[x] == files_in(
                        statuses@.take(k + 1),
                        category_at(x as nat),
                    ),
                forall|x: int|
                    i <= x < CATEGORY_COUNT ==> #[trigger] r@[x] == files_in(
                        statuses@.take(k as int),
                        category_at(x as nat),
                    ),
            decreases CATEGORY_COUNT - i,
        {
            let c = category_at_index(i);
            proof {
                assert(statuses@.take(k + 1).drop_last() =~= statuses@.take(k as int));
                assert(statuses@.take(k + 1).last() == bits);
                assert(files_in(statuses@.take(k + 1), c) == files_in(statuses@.take(k as int), c)
                    + if in_category(bits, c) {
                    1nat
                } else {
                    0nat
                });
                lemma_files_in_bound(statuses@.take(k as int), c);
                assert(r@[i as int] == files_in(statuses@.take(k as int), c));
                assert(statuses@.take(k as int).len() == k);
            }
            if c.matches(bits) {
                let v = r[i];
                r.set(i, v + 1);
            }
            i = i + 1;
        }
        k = k + 1;
    }
    proof {
        assert(statuses@.take(k as int) =~= statuses@);
        assert forall|c: StatusCategory| #[trigger]
            r@[category_index(c) as int] == files_in(statuses@, c) by {
            lemma_category_order(c);
        }
    }
    r
}

/// Aggregate statistics of a repository.
pub struct RepositoryStats {
    /// Each committer's name with the number of their commits, in the order in
    /// which committers were first seen; names are distinct.
    pub commits_by_contributor: Vec<(String, usize)>,
    pub local_branch_count: usize,
    pub remote_branch_count: usize,
    pub tag_count: usize,
    /// Number of files in each status category, indexed by the category's
    /// position in the fixed order.
    pub files_by_status: Vec<usize>,
}

/// The statistics as mathematical values.
pub struct StatsView {
    pub contributors: Map<Seq<char>, nat>,
    pub local_branches: nat,
    pub remote_branches: nat,
    pub tags: nat,
    pub files: Map<StatusCategory, nat>,
}

impl View for RepositoryStats {
    type V = StatsView;

    open spec fn view(&self) -> StatsView {
        StatsView {
            contributors: entries_map(self.commits_by_contributor@),
            local_branches: self.local_branch_count as nat,
            remote_branches: self.remote_branch_count as nat,
            tags: self.tag_count as nat,
            files: Map::new(
                |c: StatusCategory| true,
                |c: StatusCategory| self.files_by_status@[category_index(c) as int] as nat,
            ),
        }
    }
}

/// The statistics of a repository whose commit history (committer names),
/// branches, tag count and file statuses are the given ones.
pub open spec fn stats_of(
    history: Seq<Option<Seq<char>>>,
    branches: Seq<Option<BranchKind>>,
    tags: nat,
    statuses: Seq<u32>,
) -> StatsView {
    StatsView {
        contributors: contributor_map(history),
        local_branches: branch_count(branches, BranchKind::Local),
        remote_branches: branch_count(branches, BranchKind::Remote),
        tags,
        files: Map::new(|c: StatusCategory| true, |c: StatusCategory| files_in(statuses, c)),
    }
}

impl RepositoryStats {
    /// Entry names are distinct, every entry counts at least one commit, and
    /// there is one file count per status category.
    pub open spec fn wf(&self) -> bool {
        &&& distinct_names(self.commits_by_contributor@)
        &&& forall|i: int|
            0 <= i < self.commits_by_contributor@.len() ==> self.commits_by_contributor@[i].1 > 0
        &&& self.files_by_status@.len() == CATEGORY_COUNT
    }
}

/// Folds a commit history, a branch list, a tag count and the file statuses of
/// a repository into its statistics. Each item that could not be read (`None`)
/// is skipped; an empty history gives no contributors.
pub fn aggregate(
    history: &Vec<Option<String>>,
    branches: &Vec<Option<BranchKind>>,
    tag_count: usize,
    statuses: &Vec<u32>,
) -> (r: RepositoryStats)
    ensures
        r.wf(),
        r@ == stats_of(names_view(history@), branches@, tag_count as nat, statuses@),
        entry_total(r.commits_by_contributor@) == present_count(names_view(history@)),
        r.local_branch_count + r.remote_branch_count == present_count(branches@),
{
    let commits_by_contributor = tally_commits(history);
    let (local_branch_count, remote_branch_count) = count_branches(branches);
    let files_by_status = tally_statuses(statuses);
    let r = RepositoryStats {
        commits_by_contributor,
        local_branch_count,
        remote_branch_count,
        tag_count,
        files_by_status,
    };
    proof {
        assert(r@.files =~= stats_of(
            names_view(history@),
            branches@,
            tag_count as nat,
            statuses@,
        ).files);
    }
    r
}

/// Every readable branch is either local or remote: the two counts add up to
/// the number of readable branches, and together with the unreadable ones to
/// the length of the list.
pub proof fn lemma_branch_partition(branches: Seq<Option<BranchKind>>)
    ensures
        branch_count(branches, BranchKind::Local) + branch_count(branches, BranchKind::Remote)
            == present_count(branches),
        present_count(branches) + branches.to_multiset().count(Option::None) == branches.len(),
    decreases branches.len(),
{
    if branches.len() > 0 {
        let init = branches.drop_last();
        lemma_branch_partition(init);
        assert(branches =~= init.push(branches.last()));
        assert(branches.to_multiset() =~= init.to_multiset().insert(branches.last()));
        match branches.last() {
            Option::Some(BranchKind::Local) => {},
            Option::Some(BranchKind::Remote) => {},
            Option::None => {},
        }
    } else {
        assert(branches.to_multiset() =~= Multiset::empty());
    }
}

/// Aggregating twice over the same repository contents gives the same
/// statistics.
pub proof fn lemma_aggregate_idempotent(
    history: Seq<Option<String>>,
    branches: Seq<Option<BranchKind>>,
    tag_count: nat,
    statuses: Seq<u32>,
    first: RepositoryStats,
    second: RepositoryStats,
)
    requires
        first@ == stats_of(names_view(history), branches, tag_count, statuses),
        second@ == stats_of(names_view(history), branches, tag_count, statuses),
    ensures
        first@ == second@,
{
}

/// Visiting the commits in another order leaves the statistics unchanged:
/// two histories that are permutations of each other (equal as multisets)
/// give the same contributors and counts.
pub proof fn lemma_commit_order_irrelevant(
    history: Seq<Option<String>>,
    permuted: Seq<Option<String>>,
    branches: Seq<Option<BranchKind>>,
    tag_count: nat,
    statuses: Seq<u32>,
    first: RepositoryStats,
    second: RepositoryStats,
)
    requires
        names_view(history).to_multiset() == names_view(permuted).to_multiset(),
        first@ == stats_of(names_view(history), branches, tag_count, statuses),
        second@ == stats_of(names_view(permuted), branches, tag_count, statuses),
    ensures
        first@.contributors == second@.contributors,
        first@ == second@,
{
    assert(contributor_map(names_view(history)) =~= contributor_map(names_view(permuted)));
}

impl RepositoryStats {
    /// Number of commits made by committer `name`; 0 for one never seen.
    pub fn commit_count(&self, name: &String) -> (r: usize)
        requires
            self.wf(),
        ensures
            r == if self@.contributors.dom().contains(name@) {
                self@.contributors[name@]
            } else {
                0
            },
    {
        match find_name(&self.commits_by_contributor, name) {
            Option::Some(j) => {
                let r = self.commits_by_contributor[j].1;
                proof {
                    let e = self.commits_by_contributor@;
                    let i = choose|i: int| 0 <= i < e.len() && e[i].0@ == name@;
                    assert(i == j as int);
                }
                r
            },
            Option::None => 0,
        }
    }

    /// Number of distinct committers.
    pub fn contributor_count(&self) -> (r: usize)
        requires
            self.wf(),
        ensures
            r == self@.contributors.len(),
    {
        proof {
            lemma_entries_map_len(self.commits_by_contributor@);
        }
        self.commits_by_contributor.len()
    }

    /// Number of files in status category `c`.
    pub fn files_with_status(&self, c: StatusCategory) -> (r: usize)
        requires
            self.wf(),
        ensures
            r == self@.files[c],
    {
        let i = c.index();
        self.files_by_status[i]
    }
}

} // verus!
