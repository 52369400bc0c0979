//! Human-readable text of [`RepositoryStats`].
use vstd::prelude::*;

use crate::stats::RepositoryStats;
use crate::status::{category_at, category_at_index, category_name, CATEGORY_COUNT};

verus! {

/// The decimal digit `d`, for `d < 10`.
pub open spec fn digit_char(d: nat) -> char {
    seq!['0', '1', '2', '3', '4', '5', '6', '7', '8', '9'][d as int]
}

/// Decimal notation of `n`, without leading zeros.
pub open spec fn decimal_text(n: nat) -> Seq<char>
    decreases n,
{
    if n < 10 {
        seq![digit_char(n)]
    } else {
        decimal_text(n / 10).push(digit_char(n % 10))
    }
}

/// Relies on `usize`'s `ToString` (through `Display`): the decimal notation of
/// the number.
#[verifier::external_body]
fn decimal(n: usize) -> (r: String)
    ensures
        r@ == decimal_text(n as nat),
{
    n.to_string()
}

/// One line `<name>: <count>` per contributor entry, in list order.
pub open spec fn contributor_lines(e: Seq<(String, usize)>) -> Seq<char>
    decreases e.len(),
{
    if e.len() == 0 {
        Seq::empty()
    } else {
        contributor_lines(e.drop_last()) + e.last().0@ + ": "@ + decimal_text(e.last().1 as nat)
            + "\n"@
    }
}

/// One line `\t<category>: <count>` for each of the first `upto` categories
/// whose count is not zero, each line preceded by a line break.
pub open spec fn status_lines(counts: Seq<usize>, upto: nat) -> Seq<char>
    decreases upto,
{
    if upto == 0 {
        Seq::empty()
    } else {
        let i = (upto - 1) as nat;
        status_lines(counts, i) + if counts[i as int] > 0 {
            "\n\t"@ + category_name(category_at(i)) + ": "@ + decimal_text(counts[i as int] as nat)
        } else {
            Seq::empty()
        }
    }
}

/// The report: contributor lines, then branch and tag counts, then the files
/// of each status category that has any.
pub open spec fn report_text(s: RepositoryStats) -> Seq<char> {
    contributor_lines(s.commits_by_contributor@) + "\nBranches:\n\tLocal: "@ + decimal_text(
        s.local_branch_count as nat,
    ) + "\n\tRemote: "@ + decimal_text(s.remote_branch_count as nat) + "\ntags: "@
        + decimal_text(s.tag_count as nat) + "\nFiles:"@ + status_lines(
        s.files_by_status@,
        CATEGORY_COUNT as nat,
    )
}

impl RepositoryStats {
    /// The statistics as text, contributors in the order in which they were
    /// first seen.
    pub fn report(&self) -> (r: String)
        requires
            self.wf(),
        ensures
            r@ == report_text(*self),
    {
        let e = &self.commits_by_contributor;
        let mut text = String::new();
        let mut i: usize = 0;
        while i < e.len()
            invariant
                i <= e@.len(),
                text@ == contributor_lines(e@.take(i as int)),
            decreases e@.len() - i,
        {
            proof {
                assert(e@.take(i + 1).drop_last() =~= e@.take(i as int));
            }
            text.append(e[i].0.as_str());
            text.append(": ");
            let count = decimal(e[i].1);
            text.append(count.as_str());
            text.append("\n");
            i = i + 1;
        }
        proof {
            assert(e@.take(i as int) =~= e@);
        }
        text.append("\nBranches:\n\tLocal: ");
        let local = decimal(self.local_branch_count);
        text.append(local.as_str());
        text.append("\n\tRemote: ");
        let remote = decimal(self.remote_branch_count);
        text.append(remote.as_str());
        text.append("\ntags: ");
        let tags = decimal(self.tag_count);
        text.append(tags.as_str());
        text.append("\nFiles:");
        let ghost head = text@;
        let counts = &self.files_by_status;
        let mut k: usize = 0;
        while k < CATEGORY_COUNT
            invariant
                k <= CATEGORY_COUNT,
                counts@.len() == CATEGORY_COUNT,
                text@ == head + status_lines(counts@, k as nat),
            decreases CATEGORY_COUNT - k,
        {
            let c = category_at_index(k);
            if counts[k] > 0 {
                text.append("\n\t");
                text.append(c.name());
                text.append(": ");
                let n = decimal(counts[k]);
                text.append(n.as_str());
            }
            proof {
                assert(text@ =~= head + status_lines(counts@, (k + 1) as nat));
            }
            k = k + 1;
        }
        text
    }
}

} // verus!
