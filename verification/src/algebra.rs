//! The commutative monoid of per-contributor totals.
//!
//! A total is a triple of counts: conversation comments, review comments and
//! items participated in. A mapping from contributor identity to such a triple
//! is merged with another by adding point-wise, an absent contributor counting
//! as zero.

use vstd::prelude::*;

verus! {

/// Conversation comments, review comments, items participated in.
pub type Counts = (nat, nat, nat);

/// Contributor identity to counts.
pub type Totals = Map<Seq<char>, Counts>;

pub open spec fn zero() -> Counts {
    (0, 0, 0)
}

pub open spec fn counts_plus(a: Counts, b: Counts) -> Counts {
    (a.0 + b.0, a.1 + b.1, a.2 + b.2)
}

/// The counts of `who` in `m`, zero where `m` has no entry.
pub open spec fn counts_at(m: Totals, who: Seq<char>) -> Counts {
    if m.dom().contains(who) {
        m[who]
    } else {
        zero()
    }
}

/// Point-wise sum of two mappings; the keys are those of either.
pub open spec fn merge(a: Totals, b: Totals) -> Totals {
    Map::new(
        |who: Seq<char>| a.dom().contains(who) || b.dom().contains(who),
        |who: Seq<char>| counts_plus(counts_at(a, who), counts_at(b, who)),
    )
}

/// The mapping with the single entry `who` to `c`.
pub open spec fn single(who: Seq<char>, c: Counts) -> Totals {
    Map::<Seq<char>, Counts>::empty().insert(who, c)
}

/// The sum of a sequence of fragments, taken from the left.
pub open spec fn fold(frags: Seq<Totals>) -> Totals
    decreases frags.len(),
{
    if frags.len() == 0 {
        Map::empty()
    } else {
        merge(fold(frags.drop_last()), frags.last())
    }
}

/// Every count of `m` can be held in a `usize`.
pub open spec fn fits(m: Totals) -> bool {
    forall|who: Seq<char>| #[trigger]
        m.dom().contains(who) ==> m[who].0 <= usize::MAX && m[who].1 <= usize::MAX && m[who].2
            <= usize::MAX
}

/// `a` has no entry that `b` lacks, and no count above that of `b`.
pub open spec fn below(a: Totals, b: Totals) -> bool {
    forall|who: Seq<char>| #[trigger]
        a.dom().contains(who) ==> b.dom().contains(who) && a[who].0 <= b[who].0 && a[who].1
            <= b[who].1 && a[who].2 <= b[who].2
}

/// The empty mapping is the identity of `merge`.
pub proof fn lemma_merge_identity(a: Totals)
    ensures
        merge(a, Map::empty()) == a,
        merge(Map::empty(), a) == a,
{
    assert(merge(a, Map::empty()) =~= a);
    assert(merge(Map::empty(), a) =~= a);
}

/// Merging is commutative.
pub proof fn lemma_merge_commutative(a: Totals, b: Totals)
    ensures
        merge(a, b) == merge(b, a),
{
    assert(merge(a, b) =~= merge(b, a));
}

/// Merging is associative.
pub proof fn lemma_merge_associative(a: Totals, b: Totals, c: Totals)
    ensures
        merge(merge(a, b), c) == merge(a, merge(b, c)),
{
    assert(merge(merge(a, b), c) =~= merge(a, merge(b, c)));
}

/// Merging never removes an entry nor lowers a count.
pub proof fn lemma_merge_grows(a: Totals, b: Totals)
    ensures
        below(a, merge(a, b)),
        below(b, merge(a, b)),
{
}

/// A contributor absent from both mappings is absent from their sum.
pub proof fn lemma_merge_keeps_absent(a: Totals, b: Totals, who: Seq<char>)
    requires
        !a.dom().contains(who),
        !b.dom().contains(who),
    ensures
        !merge(a, b).dom().contains(who),
{
}

/// Merging with a larger mapping gives a larger sum.
pub proof fn lemma_merge_monotone(a: Totals, b: Totals, c: Totals)
    requires
        below(b, c),
    ensures
        below(merge(a, b), merge(a, c)),
{
    assert forall|who: Seq<char>| #[trigger] merge(a, b).dom().contains(who) implies merge(
        a,
        c,
    ).dom().contains(who) && merge(a, b)[who].0 <= merge(a, c)[who].0 && merge(a, b)[who].1
        <= merge(a, c)[who].1 && merge(a, b)[who].2 <= merge(a, c)[who].2 by {
        if b.dom().contains(who) {
            assert(c.dom().contains(who));
        }
    }
}

/// What lies below a mapping that fits in `usize` fits too.
pub proof fn lemma_below_fits(a: Totals, b: Totals)
    requires
        below(a, b),
        fits(b),
    ensures
        fits(a),
{
    assert forall|who: Seq<char>| #[trigger] a.dom().contains(who) implies a[who].0 <= usize::MAX
        && a[who].1 <= usize::MAX && a[who].2 <= usize::MAX by {
        assert(b.dom().contains(who));
    }
}

/// Folding all fragments at once gives the sum of the folds of two groups
/// that they are split into.
pub proof fn lemma_fold_concat(a: Seq<Totals>, b: Seq<Totals>)
    ensures
        fold(a + b) == merge(fold(a), fold(b)),
    decreases b.len(),
{
    if b.len() == 0 {
        assert(a + b =~= a);
        lemma_merge_identity(fold(a));
    } else {
        assert((a + b).drop_last() =~= a + b.drop_last());
        assert((a + b).last() == b.last());
        lemma_fold_concat(a, b.drop_last());
        lemma_merge_associative(fold(a), fold(b.drop_last()), b.last());
    }
}

/// Taking one fragment out and merging it last changes nothing.
pub proof fn lemma_fold_remove(frags: Seq<Totals>, i: int)
    requires
        0 <= i < frags.len(),
    ensures
        fold(frags) == merge(fold(frags.remove(i)), frags[i]),
    decreases frags.len(),
{
    if i == frags.len() - 1 {
        assert(frags.remove(i) =~= frags.drop_last());
    } else {
        let rest = frags.drop_last();
        lemma_fold_remove(rest, i);
        assert(frags.remove(i).drop_last() =~= rest.remove(i));
        assert(frags.remove(i).last() == frags.last());
        let x = fold(rest.remove(i));
        assert(merge(merge(x, frags[i]), frags.last()) =~= merge(
            merge(x, frags.last()),
            frags[i],
        ));
    }
}

/// Folding the same fragments in another order gives the same mapping.
pub proof fn lemma_fold_permutation(a: Seq<Totals>, b: Seq<Totals>)
    requires
        a.to_multiset() == b.to_multiset(),
    ensures
        fold(a) == fold(b),
    decreases a.len(),
{
    broadcast use vstd::seq_lib::group_to_multiset_ensures;

    a.to_multiset_ensures();
    b.to_multiset_ensures();
    if a.len() == 0 {
        assert(b.len() == 0);
    } else {
        let x = a.last();
        assert(a.contains(x));
        assert(a.to_multiset().count(x) > 0);
        assert(b.contains(x));
        let i = b.index_of(x);
        assert(a.drop_last() =~= a.remove(a.len() - 1));
        assert(a.drop_last().to_multiset() =~= b.remove(i).to_multiset());
        lemma_fold_permutation(a.drop_last(), b.remove(i));
        lemma_fold_remove(b, i);
    }
}

/// The fold of a prefix lies below the fold of the whole.
pub proof fn lemma_fold_prefix_below(frags: Seq<Totals>, n: int)
    requires
        0 <= n <= frags.len(),
    ensures
        below(fold(frags.take(n)), fold(frags)),
    decreases frags.len() - n,
{
    if n == frags.len() {
        assert(frags.take(n) =~= frags);
    } else {
        lemma_fold_prefix_below(frags, n + 1);
        assert(frags.take(n + 1).drop_last() =~= frags.take(n));
        lemma_merge_grows(fold(frags.take(n)), frags[n]);
    }
}

} // verus!
