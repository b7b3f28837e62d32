//! Per-contributor statistics as held in memory.

use vstd::prelude::*;
use crate::algebra::{Counts, Totals, counts_plus, merge, single, fits};

verus! {

/// The activity of one contributor.
#[derive(Clone, Copy, Debug, PartialEq, Eq, Structural)]
pub struct IndividualReviewStats {
    pub num_comments: usize,
    pub num_review_comments: usize,
    pub prs_participated_in: usize,
}

impl IndividualReviewStats {
    pub open spec fn counts(&self) -> Counts {
        (self.num_comments as nat, self.num_review_comments as nat, self.prs_participated_in as nat)
    }

    /// The entry of a contributor first seen on an item: nothing counted yet,
    /// but the item is one they took part in.
    pub fn new() -> (r: Self)
        ensures
            r.counts() == (0nat, 0nat, 1nat),
    {
        Self { num_comments: 0, num_review_comments: 0, prs_participated_in: 1 }
    }

    /// The zero of addition.
    pub fn empty() -> (r: Self)
        ensures
            r.counts() == crate::algebra::zero(),
    {
        Self { num_comments: 0, num_review_comments: 0, prs_participated_in: 0 }
    }

    /// Adds `rhs` field by field.
    pub fn add_assign(&mut self, rhs: Self)
        requires
            old(self).num_comments + rhs.num_comments <= usize::MAX,
            old(self).num_review_comments + rhs.num_review_comments <= usize::MAX,
            old(self).prs_participated_in + rhs.prs_participated_in <= usize::MAX,
        ensures
            final(self).counts() == counts_plus(old(self).counts(), rhs.counts()),
    {
        self.num_comments = self.num_comments + rhs.num_comments;
        self.num_review_comments = self.num_review_comments + rhs.num_review_comments;
        self.prs_participated_in = self.prs_participated_in + rhs.prs_participated_in;
    }
}

/// One contributor with their statistics.
#[derive(Clone, Debug, PartialEq, Eq)]
pub struct ContributorEntry {
    pub name: String,
    pub stats: IndividualReviewStats,
}

/// No identity occurs twice.
pub open spec fn distinct_names(entries: Seq<ContributorEntry>) -> bool {
    forall|i: int, j: int|
        0 <= i < j < entries.len() ==> (#[trigger] entries[i]).name@ != (#[trigger] entries[j]).name@
}

/// The mapping that a list of entries stands for.
pub open spec fn totals_of(entries: Seq<ContributorEntry>) -> Totals
    decreases entries.len(),
{
    if entries.len() == 0 {
        Map::empty()
    } else {
        totals_of(entries.drop_last()).insert(entries.last().name@, entries.last().stats.counts())
    }
}

/// The names of a list of entries, in its order.
pub open spec fn names_of(entries: Seq<ContributorEntry>) -> Seq<Seq<char>> {
    Seq::new(entries.len(), |i: int| entries[i].name@)
}

/// A list of names with `who` at its end, unless the list holds it already.
pub open spec fn enlist(names: Seq<Seq<char>>, who: Seq<char>) -> Seq<Seq<char>> {
    if names.contains(who) {
        names
    } else {
        names.push(who)
    }
}

/// A list of names followed by those of `more` that it lacks, each once and
/// in the order of `more`.
pub open spec fn enlist_all(names: Seq<Seq<char>>, more: Seq<Seq<char>>) -> Seq<Seq<char>>
    decreases more.len(),
{
    if more.len() == 0 {
        names
    } else {
        enlist(enlist_all(names, more.drop_last()), more.last())
    }
}

/// The keys of `totals_of` are the names that occur in the list.
pub proof fn lemma_totals_dom(entries: Seq<ContributorEntry>, who: Seq<char>)
    ensures
        totals_of(entries).dom().contains(who) <==> exists|i: int|
            0 <= i < entries.len() && (#[trigger] entries[i]).name@ == who,
    decreases entries.len(),
{
    if entries.len() > 0 {
        let rest = entries.drop_last();
        lemma_totals_dom(rest, who);
        if totals_of(entries).dom().contains(who) {
            if entries.last().name@ == who {
                assert(entries[entries.len() - 1].name@ == who);
            } else {
                let i = choose|i: int| 0 <= i < rest.len() && (#[trigger] rest[i]).name@ == who;
                assert(entries[i].name@ == who);
            }
        }
        if exists|i: int| 0 <= i < entries.len() && (#[trigger] entries[i]).name@ == who {
            let i = choose|i: int| 0 <= i < entries.len() && (#[trigger] entries[i]).name@ == who;
            if i < rest.len() {
                assert(rest[i].name@ == who);
            }
        }
    }
}

/// With distinct names, each entry's counts are what the mapping holds for
/// its name.
pub proof fn lemma_totals_at(entries: Seq<ContributorEntry>, i: int)
    requires
        distinct_names(entries),
        0 <= i < entries.len(),
    ensures
        totals_of(entries).dom().contains(entries[i].name@),
        totals_of(entries)[entries[i].name@] == entries[i].stats.counts(),
    decreases entries.len(),
{
    if i < entries.len() - 1 {
        let rest = entries.drop_last();
        assert(distinct_names(rest)) by {
            assert forall|a: int, b: int| 0 <= a < b < rest.len() implies (#[trigger] rest[a]).name@
                != (#[trigger] rest[b]).name@ by {
                assert(entries[a].name@ != entries[b].name@);
            }
        }
        lemma_totals_at(rest, i);
        assert(entries[i].name@ != entries[entries.len() - 1].name@);
    }
}

/// What a list of entries holds fits in `usize`.
pub proof fn lemma_totals_fit(entries: Seq<ContributorEntry>)
    ensures
        fits(totals_of(entries)),
    decreases entries.len(),
{
    if entries.len() > 0 {
        lemma_totals_fit(entries.drop_last());
    }
}

/// A prefix of a list with distinct names has distinct names, and holds
/// nothing that the whole list does not hold.
pub proof fn lemma_totals_prefix(entries: Seq<ContributorEntry>, n: int)
    requires
        distinct_names(entries),
        0 <= n <= entries.len(),
    ensures
        distinct_names(entries.take(n)),
        crate::algebra::below(totals_of(entries.take(n)), totals_of(entries)),
{
    let head = entries.take(n);
    assert forall|a: int, b: int| 0 <= a < b < head.len() implies (#[trigger] head[a]).name@ != (
    #[trigger] head[b]).name@ by {
        assert(entries[a].name@ != entries[b].name@);
    }
    let small = totals_of(head);
    let large = totals_of(entries);
    assert forall|who: Seq<char>| #[trigger] small.dom().contains(who) implies large.dom().contains(
        who,
    ) && small[who] == large[who] by {
        lemma_totals_dom(head, who);
        let j = choose|j: int| 0 <= j < head.len() && (#[trigger] head[j]).name@ == who;
        assert(entries[j].name@ == who);
        lemma_totals_at(head, j);
        lemma_totals_at(entries, j);
    }
}

/// With distinct names, one entry more in the list is one merge more.
pub proof fn lemma_totals_step(entries: Seq<ContributorEntry>, n: int)
    requires
        distinct_names(entries),
        0 <= n < entries.len(),
    ensures
        totals_of(entries.take(n + 1)) == merge(
            totals_of(entries.take(n)),
            single(entries[n].name@, entries[n].stats.counts()),
        ),
{
    let head = entries.take(n);
    let next = entries.take(n + 1);
    let who = entries[n].name@;
    assert(next.drop_last() =~= head);
    assert(next.last() == entries[n]);
    lemma_totals_dom(head, who);
    if totals_of(head).dom().contains(who) {
        let j = choose|j: int| 0 <= j < head.len() && (#[trigger] head[j]).name@ == who;
        assert(entries[j].name@ != entries[n].name@);
    }
    assert(totals_of(next) =~= merge(
        totals_of(head),
        single(who, entries[n].stats.counts()),
    ));
}

/// The counts of `entry` can be added to those that `m` holds for its name.
pub open spec fn entry_fits(m: Totals, entry: ContributorEntry) -> bool {
    let sum = counts_plus(crate::algebra::counts_at(m, entry.name@), entry.stats.counts());
    sum.0 <= usize::MAX && sum.1 <= usize::MAX && sum.2 <= usize::MAX
}

/// The statistics of many contributors: at most one entry for each, kept in
/// the order in which the contributors were first seen.
#[derive(Clone, Debug)]
pub struct PullReviewStats {
    entries: Vec<ContributorEntry>,
}

impl Default for PullReviewStats {
    fn default() -> (r: Self)
        ensures
            r.wf(),
            r@ == Map::<Seq<char>, Counts>::empty(),
            r.listing().len() == 0,
    {
        Self::new()
    }
}

impl View for PullReviewStats {
    type V = Totals;

    closed spec fn view(&self) -> Totals {
        totals_of(self.entries@)
    }
}

impl PullReviewStats {
    /// The entries, in the order of first appearance.
    pub closed spec fn listing(&self) -> Seq<ContributorEntry> {
        self.entries@
    }

    /// The contributors in the order of first appearance.
    pub open spec fn names(&self) -> Seq<Seq<char>> {
        names_of(self.listing())
    }

    /// No contributor has two entries.
    pub closed spec fn wf(&self) -> bool {
        distinct_names(self.entries@)
    }

    /// The view is the mapping of the listing, and its counts fit in `usize`.
    pub proof fn lemma_view(&self)
        ensures
            self@ == totals_of(self.listing()),
            self.wf() == distinct_names(self.listing()),
            fits(self@),
    {
        lemma_totals_fit(self.entries@);
    }

    /// The empty mapping.
    pub fn new() -> (r: Self)
        ensures
            r.wf(),
            r@ == Map::<Seq<char>, Counts>::empty(),
            r.listing().len() == 0,
    {
        Self { entries: Vec::new() }
    }

    /// The number of contributors.
    pub fn len(&self) -> (n: usize)
        ensures
            n == self.listing().len(),
    {
        self.entries.len()
    }

    /// The entries, in the order of first appearance.
    pub fn into_entries(self) -> (r: Vec<ContributorEntry>)
        ensures
            r@ == self.listing(),
    {
        self.entries
    }

    fn find(&self, name: &String) -> (r: Option<usize>)
        ensures
            match r {
                Some(i) => i < self.entries@.len() && self.entries@[i as int].name@ == name@,
                None => forall|j: int|
                    0 <= j < self.entries@.len() ==> (#[trigger] self.entries@[j]).name@ != name@,
            },
    {
        let mut i: usize = 0;
        while i < self.entries.len()
            invariant
                i <= self.entries@.len(),
                forall|j: int| 0 <= j < i ==> (#[trigger] self.entries@[j]).name@ != name@,
            decreases self.entries@.len() - i,
        {
            if self.entries[i].name == *name {
                return Some(i);
            }
            i = i + 1;
        }
        None
    }

    /// The statistics of `name`, if it has an entry.
    pub fn get(&self, name: &String) -> (r: Option<IndividualReviewStats>)
        requires
            self.wf(),
        ensures
            r.is_some() == self@.dom().contains(name@),
            r matches Some(s) ==> s.counts() == self@[name@],
    {
        proof {
            lemma_totals_dom(self.entries@, name@);
        }
        match self.find(name) {
            Some(i) => {
                proof {
                    lemma_totals_at(self.entries@, i as int);
                }
                Some(self.entries[i].stats)
            },
            None => None,
        }
    }

    /// Adds `value` to the entry of `name`, which is made first, with zero
    /// counts, where there is none.
    pub fn credit(&mut self, name: String, value: IndividualReviewStats)
        requires
            old(self).wf(),
            fits(merge(old(self)@, single(name@, value.counts()))),
        ensures
            final(self).wf(),
            final(self)@ == merge(old(self)@, single(name@, value.counts())),
            final(self).names() == enlist(old(self).names(), name@),
    {
        let ghost before = self.entries@;
        let ghost target = merge(totals_of(before), single(name@, value.counts()));
        proof {
            lemma_totals_dom(before, name@);
            assert(target.dom().contains(name@));
        }
        match self.find(&name) {
            Some(i) => {
                let mut stats = self.entries[i].stats;
                proof {
                    lemma_totals_at(before, i as int);
                }
                stats.add_assign(value);
                self.entries.set(i, ContributorEntry { name, stats });
                proof {
                    let after = self.entries@;
                    assert forall|a: int, b: int| 0 <= a < b < after.len() implies (
                    #[trigger] after[a]).name@ != (#[trigger] after[b]).name@ by {
                        assert(before[a].name@ != before[b].name@);
                    }
                    let got = totals_of(after);
                    assert forall|who: Seq<char>|
                        (#[trigger] got.dom().contains(who)) == target.dom().contains(who) && (
                        target.dom().contains(who) ==> got[who] == target[who]) by {
                        lemma_totals_dom(before, who);
                        lemma_totals_dom(after, who);
                        if totals_of(before).dom().contains(who) {
                            let j = choose|j: int|
                                0 <= j < before.len() && (#[trigger] before[j]).name@ == who;
                            assert(after[j].name@ == who);
                            lemma_totals_at(before, j);
                            lemma_totals_at(after, j);
                        }
                        if totals_of(after).dom().contains(who) {
                            let j = choose|j: int|
                                0 <= j < after.len() && (#[trigger] after[j]).name@ == who;
                            assert(before[j].name@ == who);
                        }
                    }
                    assert(got.dom() =~= target.dom());
                    assert(got =~= target);
                    assert(names_of(before)[i as int] == name@);
                    assert(names_of(after) =~= names_of(before));
                }
            },
            None => {
                self.entries.push(ContributorEntry { name, stats: value });
                proof {
                    let after = self.entries@;
                    assert(after.drop_last() =~= before);
                    assert(!totals_of(before).dom().contains(name@));
                    assert(totals_of(after) == totals_of(before).insert(
                        name@,
                        value.counts(),
                    ));
                    assert(totals_of(after) =~= target);
                    assert(!names_of(before).contains(name@)) by {
                        if names_of(before).contains(name@) {
                            let j = choose|j: int|
                                0 <= j < names_of(before).len() && names_of(before)[j] == name@;
                            assert(before[j].name@ == name@);
                        }
                    }
                    assert(names_of(after) =~= names_of(before).push(name@));
                }
            },
        }
    }
    /// Whether the point-wise sum with `rhs` can be held in `usize` counts.
    pub fn can_absorb(&self, rhs: &PullReviewStats) -> (b: bool)
        requires
            self.wf(),
            rhs.wf(),
        ensures
            b == fits(merge(self@, rhs@)),
    {
        let ghost sum = merge(self@, rhs@);
        let mut i: usize = 0;
        while i < rhs.entries.len()
            invariant
                i <= rhs.entries@.len(),
                self.wf(),
                rhs.wf(),
                sum == merge(self@, rhs@),
                forall|j: int| 0 <= j < i ==> entry_fits(self@, #[trigger] rhs.entries@[j]),
            decreases rhs.entries@.len() - i,
        {
            let theirs = rhs.entries[i].stats;
            proof {
                lemma_totals_at(rhs.entries@, i as int);
            }
            match self.get(&rhs.entries[i].name) {
                Some(ours) => {
                    if ours.num_comments > usize::MAX - theirs.num_comments
                        || ours.num_review_comments > usize::MAX - theirs.num_review_comments
                        || ours.prs_participated_in > usize::MAX - theirs.prs_participated_in {
                        proof {
                            assert(sum.dom().contains(rhs.entries@[i as int].name@));
                        }
                        return false;
                    }
                },
                None => {},
            }
            i = i + 1;
        }
        proof {
            lemma_totals_fit(self.entries@);
            lemma_totals_fit(rhs.entries@);
            assert forall|who: Seq<char>| #[trigger] sum.dom().contains(who) implies sum[who].0
                <= usize::MAX && sum[who].1 <= usize::MAX && sum[who].2 <= usize::MAX by {
                if rhs@.dom().contains(who) {
                    lemma_totals_dom(rhs.entries@, who);
                    let j = choose|j: int|
                        0 <= j < rhs.entries@.len() && (#[trigger] rhs.entries@[j]).name@ == who;
                    lemma_totals_at(rhs.entries@, j);
                    assert(entry_fits(self@, rhs.entries@[j]));
                } else {
                    assert(self@.dom().contains(who));
                }
            }
        }
        true
    }

    /// Adds every entry of `rhs` to the entry of the same contributor.
    pub fn absorb(&mut self, rhs: &PullReviewStats)
        requires
            old(self).wf(),
            rhs.wf(),
            fits(merge(old(self)@, rhs@)),
        ensures
            final(self).wf(),
            final(self)@ == merge(old(self)@, rhs@),
            final(self).names() == enlist_all(old(self).names(), rhs.names()),
    {
        let ghost start = self@;
        let ghost start_names = self.names();
        let ghost items = rhs.entries@;
        proof {
            crate::algebra::lemma_merge_identity(start);
        }
        let mut i: usize = 0;
        while i < rhs.entries.len()
            invariant
                i <= items.len(),
                items == rhs.entries@,
                distinct_names(items),
                self.wf(),
                self@ == merge(start, totals_of(items.take(i as int))),
                self.names() == enlist_all(start_names, names_of(items.take(i as int))),
                fits(merge(start, totals_of(items))),
            decreases items.len() - i,
        {
            let name = rhs.entries[i].name.clone();
            let value = rhs.entries[i].stats;
            proof {
                let head = totals_of(items.take(i as int));
                let next = totals_of(items.take(i + 1));
                assert(names_of(items.take(i + 1)).drop_last() =~= names_of(items.take(i as int)));
                assert(names_of(items.take(i + 1)).last() == name@);
                lemma_totals_step(items, i as int);
                lemma_totals_prefix(items, i + 1);
                crate::algebra::lemma_merge_associative(start, head, single(name@, value.counts()));
                crate::algebra::lemma_merge_monotone(start, next, totals_of(items));
                crate::algebra::lemma_below_fits(
                    merge(start, next),
                    merge(start, totals_of(items)),
                );
            }
            self.credit(name, value);
            i = i + 1;
        }
        proof {
            assert(items.take(items.len() as int) =~= items);
        }
    }

    /// The point-wise sum of two mappings.
    pub fn add(self, rhs: Self) -> (r: Self)
        requires
            self.wf(),
            rhs.wf(),
            fits(merge(self@, rhs@)),
        ensures
            r.wf(),
            r@ == merge(self@, rhs@),
            r.names() == enlist_all(self.names(), rhs.names()),
    {
        let mut total = self;
        total.absorb(&rhs);
        total
    }
}

} // verus!
