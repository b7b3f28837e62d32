//! Ranking the contributors and writing the lines of a report.

use vstd::prelude::*;
use vstd::string::*;
use crate::algebra::Counts;
use crate::comments::texts;
use crate::stats::{ContributorEntry, IndividualReviewStats, PullReviewStats};

verus! {

/// The numeral of one decimal digit.
pub open spec fn digit_text(d: int) -> Seq<char> {
    if d == 0 {
        "0"@
    } else if d == 1 {
        "1"@
    } else if d == 2 {
        "2"@
    } else if d == 3 {
        "3"@
    } else if d == 4 {
        "4"@
    } else if d == 5 {
        "5"@
    } else if d == 6 {
        "6"@
    } else if d == 7 {
        "7"@
    } else if d == 8 {
        "8"@
    } else {
        "9"@
    }
}

/// The decimal numeral of `n`, without leading zeros.
pub open spec fn decimal_text(n: nat) -> Seq<char>
    decreases n,
{
    if n < 10 {
        digit_text(n as int)
    } else {
        decimal_text(n / 10) + digit_text((n % 10) as int)
    }
}

fn digit(d: usize) -> (r: &'static str)
    requires
        d < 10,
    ensures
        r@ == digit_text(d as int),
{
    if d == 0 {
        "0"
    } else if d == 1 {
        "1"
    } else if d == 2 {
        "2"
    } else if d == 3 {
        "3"
    } else if d == 4 {
        "4"
    } else if d == 5 {
        "5"
    } else if d == 6 {
        "6"
    } else if d == 7 {
        "7"
    } else if d == 8 {
        "8"
    } else {
        "9"
    }
}

/// Writes `n` in decimal.
pub fn decimal(n: usize) -> (r: String)
    ensures
        r@ == decimal_text(n as nat),
    decreases n,
{
    if n < 10 {
        String::from_str(digit(n))
    } else {
        let mut text = decimal(n / 10);
        text.append(digit(n % 10));
        text
    }
}

/// The line of the summary for one contributor.
pub open spec fn summary_text(name: Seq<char>, counts: Counts) -> Seq<char> {
    "- "@ + name + " left "@ + decimal_text(counts.0) + " comments and "@ + decimal_text(counts.1)
        + " review comments in "@ + decimal_text(counts.2) + " PRs"@
}

/// Writes the line of the summary for one contributor.
pub fn summary_line(name: &str, stats: &IndividualReviewStats) -> (r: String)
    ensures
        r@ == summary_text(name@, stats.counts()),
{
    let mut line = String::from_str("- ");
    line.append(name);
    line.append(" left ");
    line.append(decimal(stats.num_comments).as_str());
    line.append(" comments and ");
    line.append(decimal(stats.num_review_comments).as_str());
    line.append(" review comments in ");
    line.append(decimal(stats.prs_participated_in).as_str());
    line.append(" PRs");
    line
}

/// The heading of one item in the report on a user.
pub open spec fn heading_text(owner: Seq<char>, repo: Seq<char>, title: Seq<char>) -> Seq<char> {
    "- "@ + owner + "/"@ + repo + ": "@ + title
}

/// The line of one link below the heading of its item.
pub open spec fn link_text(link: Seq<char>) -> Seq<char> {
    "  - "@ + link
}

/// The lines that an item takes in the report on a user: none where the
/// user left no comment on it, else the heading and a line for each link.
pub open spec fn item_lines(
    owner: Seq<char>,
    repo: Seq<char>,
    title: Seq<char>,
    links: Seq<Seq<char>>,
) -> Seq<Seq<char>> {
    if links.len() == 0 {
        Seq::empty()
    } else {
        seq![heading_text(owner, repo, title)] + Seq::new(links.len(), |i: int| link_text(links[i]))
    }
}

/// Writes the lines that an item takes in the report on a user.
pub fn item_report(owner: &str, repo: &str, title: &str, links: &Vec<String>) -> (r: Vec<String>)
    ensures
        texts(r@) == item_lines(owner@, repo@, title@, texts(links@)),
{
    let mut lines: Vec<String> = Vec::new();
    if links.len() == 0 {
        assert(texts(lines@) =~= Seq::<Seq<char>>::empty());
        return lines;
    }
    let mut heading = String::from_str("- ");
    heading.append(owner);
    heading.append("/");
    heading.append(repo);
    heading.append(": ");
    heading.append(title);
    lines.push(heading);
    let mut i: usize = 0;
    while i < links.len()
        invariant
            i <= links@.len(),
            lines@.len() == i + 1,
            lines@[0]@ == heading_text(owner@, repo@, title@),
            forall|j: int| 0 <= j < i ==> (#[trigger] lines@[j + 1])@ == link_text(links@[j]@),
        decreases links@.len() - i,
    {
        let mut line = String::from_str("  - ");
        line.append(links[i].as_str());
        lines.push(line);
        i = i + 1;
    }
    proof {
        let want = item_lines(owner@, repo@, title@, texts(links@));
        assert(texts(lines@).len() == want.len());
        assert forall|k: int| 0 <= k < want.len() implies texts(lines@)[k] == want[k] by {
            if k > 0 {
                assert(lines@[(k - 1) + 1]@ == link_text(links@[k - 1]@));
            }
        }
        assert(texts(lines@) =~= want);
    }
    lines
}

/// The number by which contributors are ranked: comments of both
/// categories together.
pub open spec fn combined(entry: ContributorEntry) -> nat {
    entry.stats.num_comments as nat + entry.stats.num_review_comments as nat
}

/// No entry is followed by one with a higher rank.
pub open spec fn descending(list: Seq<ContributorEntry>) -> bool {
    forall|i: int, j: int|
        0 <= i < j < list.len() ==> combined(#[trigger] list[i]) >= combined(#[trigger] list[j])
}

fn rank_of(entry: &ContributorEntry) -> (k: u128)
    ensures
        k == combined(*entry),
{
    (entry.stats.num_comments as u128) + (entry.stats.num_review_comments as u128)
}

/// The position of the first entry that none of the list outranks.
pub fn leader(list: &Vec<ContributorEntry>) -> (best: usize)
    requires
        list@.len() > 0,
    ensures
        best < list@.len(),
        forall|j: int| 0 <= j < list@.len() ==> combined(list@[best as int]) >= combined(#[trigger] list@[j]),
        forall|j: int| 0 <= j < best ==> combined(list@[best as int]) > combined(#[trigger] list@[j]),
{
    let mut best: usize = 0;
    let mut k: usize = 1;
    while k < list.len()
        invariant
            best < k <= list@.len(),
            forall|j: int| 0 <= j < k ==> combined(list@[best as int]) >= combined(#[trigger] list@[j]),
            forall|j: int| 0 <= j < best ==> combined(list@[best as int]) > combined(#[trigger] list@[j]),
        decreases list@.len() - k,
    {
        if rank_of(&list[k]) > rank_of(&list[best]) {
            best = k;
        }
        k = k + 1;
    }
    best
}

/// `first` stands before `second` in `list`.
pub open spec fn came_before(
    list: Seq<ContributorEntry>,
    first: ContributorEntry,
    second: ContributorEntry,
) -> bool {
    exists|p: int, q: int|
        0 <= p < q < list.len() && #[trigger] list[p] == first && #[trigger] list[q] == second
}

/// Entry `i` of one list and entry `j` of another are in ranking order:
/// the first has more comments, or as many and an earlier place of origin.
pub open spec fn in_order(
    upper: Seq<ContributorEntry>,
    upper_from: Seq<int>,
    i: int,
    lower: Seq<ContributorEntry>,
    lower_from: Seq<int>,
    j: int,
) -> bool {
    combined(upper[i]) > combined(lower[j]) || (combined(upper[i]) == combined(lower[j])
        && upper_from[i] < lower_from[j])
}

/// Each entry of `list` is the entry of `all` at its place of origin.
pub open spec fn drawn_from(
    list: Seq<ContributorEntry>,
    from: Seq<int>,
    all: Seq<ContributorEntry>,
) -> bool {
    &&& from.len() == list.len()
    &&& forall|i: int|
        0 <= i < list.len() ==> 0 <= #[trigger] from[i] < all.len() && all[from[i]] == list[i]
}

/// The contributors from the most active to the least, by comments of both
/// categories together. Of contributors with the same number, the one seen
/// first comes first.
pub fn ranked(stats: PullReviewStats) -> (r: Vec<ContributorEntry>)
    ensures
        descending(r@),
        r@.to_multiset() == stats.listing().to_multiset(),
        forall|i: int, j: int|
            0 <= i < j < r@.len() && combined(#[trigger] r@[i]) == combined(#[trigger] r@[j])
                ==> came_before(stats.listing(), r@[i], r@[j]),
{
    broadcast use vstd::seq_lib::group_to_multiset_ensures;

    let ghost all = stats.listing();
    let mut rest = stats.into_entries();
    let mut out: Vec<ContributorEntry> = Vec::new();
    let ghost mut rest_from: Seq<int> = Seq::new(all.len(), |i: int| i);
    let ghost mut out_from: Seq<int> = Seq::empty();
    proof {
        assert(out@.to_multiset().add(rest@.to_multiset()) =~= all.to_multiset());
    }
    while rest.len() > 0
        invariant
            out@.to_multiset().add(rest@.to_multiset()) == all.to_multiset(),
            drawn_from(rest@, rest_from, all),
            drawn_from(out@, out_from, all),
            forall|i: int, j: int|
                0 <= i < j < rest@.len() ==> #[trigger] rest_from[i] < #[trigger] rest_from[j],
            forall|i: int, j: int|
                0 <= i < j < out@.len() ==> in_order(out@, out_from, i, out@, out_from, j),
            forall|i: int, j: int|
                0 <= i < out@.len() && 0 <= j < rest@.len() ==> in_order(
                    out@,
                    out_from,
                    i,
                    rest@,
                    rest_from,
                    j,
                ),
        decreases rest@.len(),
    {
        let ghost rest_before = rest@;
        let ghost out_before = out@;
        let ghost rest_from_before = rest_from;
        let ghost out_from_before = out_from;
        let best = leader(&rest);
        let entry = rest.remove(best);
        out.push(entry);
        proof {
            let b = best as int;
            let n = out_before.len() as int;
            rest_from = rest_from_before.remove(b);
            out_from = out_from_before.push(rest_from_before[b]);
            assert(rest_before[b] == entry);
            vstd::seq_lib::to_multiset_remove(rest_before, b);
            vstd::seq_lib::to_multiset_build(out_before, entry);
            vstd::seq_lib::to_multiset_contains(rest_before, entry);
            assert(rest_before.contains(entry));
            assert(rest_before.to_multiset().count(entry) > 0);
            assert(out@.to_multiset().add(rest@.to_multiset()) =~= out_before.to_multiset().add(
                rest_before.to_multiset(),
            ));
            assert forall|j: int| 0 <= j < rest@.len() implies rest@[j] == rest_before[if j < b {
                j
            } else {
                j + 1
            }] && #[trigger] rest_from[j] == rest_from_before[if j < b {
                j
            } else {
                j + 1
            }] by {}
            assert forall|i: int| 0 <= i < out@.len() implies #[trigger] out_from[i] == (if i < n {
                out_from_before[i]
            } else {
                rest_from_before[b]
            }) && out@[i] == (if i < n {
                out_before[i]
            } else {
                entry
            }) by {}
            assert(drawn_from(rest@, rest_from, all)) by {
                assert forall|j: int| 0 <= j < rest@.len() implies 0 <= #[trigger] rest_from[j]
                    < all.len() && all[rest_from[j]] == rest@[j] by {
                    let k = if j < b {
                        j
                    } else {
                        j + 1
                    };
                    assert(0 <= rest_from_before[k] < all.len());
                }
            }
            assert(drawn_from(out@, out_from, all)) by {
                assert forall|i: int| 0 <= i < out@.len() implies 0 <= #[trigger] out_from[i]
                    < all.len() && all[out_from[i]] == out@[i] by {
                    if i < n {
                        assert(0 <= out_from_before[i] < all.len());
                    } else {
                        assert(0 <= rest_from_before[b] < all.len());
                    }
                }
            }
            assert forall|i: int, j: int| 0 <= i < j < rest@.len() implies #[trigger] rest_from[i]
                < #[trigger] rest_from[j] by {
                let ki = if i < b {
                    i
                } else {
                    i + 1
                };
                let kj = if j < b {
                    j
                } else {
                    j + 1
                };
                assert(rest_from_before[ki] < rest_from_before[kj]);
            }
            assert forall|i: int, j: int| 0 <= i < out@.len() && 0 <= j < rest@.len() implies in_order(
                out@,
                out_from,
                i,
                rest@,
                rest_from,
                j,
            ) by {
                let kj = if j < b {
                    j
                } else {
                    j + 1
                };
                if i < n {
                    assert(in_order(out_before, out_from_before, i, rest_before, rest_from_before, kj));
                } else {
                    assert(combined(rest_before[b]) >= combined(rest_before[kj]));
                    if kj < b {
                        assert(combined(rest_before[b]) > combined(rest_before[kj]));
                    } else {
                        assert(rest_from_before[b] < rest_from_before[kj]);
                    }
                }
            }
            assert forall|i: int, j: int| 0 <= i < j < out@.len() implies in_order(
                out@,
                out_from,
                i,
                out@,
                out_from,
                j,
            ) by {
                if j < n {
                    assert(in_order(out_before, out_from_before, i, out_before, out_from_before, j));
                } else {
                    assert(in_order(out_before, out_from_before, i, rest_before, rest_from_before, b));
                }
            }
        }
    }
    proof {
        assert(rest@.to_multiset() =~= vstd::multiset::Multiset::<ContributorEntry>::empty());
        assert(out@.to_multiset().add(rest@.to_multiset()) =~= out@.to_multiset());
        assert forall|i: int, j: int| 0 <= i < j < out@.len() implies combined(#[trigger] out@[i])
            >= combined(#[trigger] out@[j]) by {
            assert(in_order(out@, out_from, i, out@, out_from, j));
        }
        assert forall|i: int, j: int|
            0 <= i < j < out@.len() && combined(#[trigger] out@[i]) == combined(
                #[trigger] out@[j],
            ) implies came_before(all, out@[i], out@[j]) by {
            assert(in_order(out@, out_from, i, out@, out_from, j));
            let p = out_from[i];
            let q = out_from[j];
            assert(0 <= p < q < all.len() && all[p] == out@[i] && all[q] == out@[j]);
        }
    }
    out
}

} // verus!
