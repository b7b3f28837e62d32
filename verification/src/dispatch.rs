//! Collecting the outcomes of the per-item tasks.
//!
//! Each item of a query is worked on by a task of its own, which ends in a
//! fragment of statistics or in a failure. The outcomes are handed over in
//! the order in which the items were drawn. One failure fails the whole
//! aggregation: no partial total is ever returned.

use vstd::prelude::*;
use crate::algebra::{Totals, fold, fits};
use crate::comments::{
    CommentRecord, at_or_after, authors_listed, fragment_of, ignore_set, review_stats, since,
};
use crate::stats::{PullReviewStats, enlist_all};

verus! {

/// Why a run ended without a result.
#[derive(Clone, Debug, PartialEq, Eq)]
pub enum FetchError {
    /// The network or the service failed on a page or a sub-fetch.
    Transport(String),
    /// A fetched item lacks something that it must have.
    MalformedResource(String),
}

/// What one per-item task ended in.
pub type Outcome = Result<PullReviewStats, FetchError>;

/// No task failed.
pub open spec fn all_ok(outcomes: Seq<Outcome>) -> bool {
    forall|i: int| 0 <= i < outcomes.len() ==> (#[trigger] outcomes[i]) is Ok
}

/// Task `i` failed and none before it did.
pub open spec fn first_failure_at(outcomes: Seq<Outcome>, i: int) -> bool {
    &&& 0 <= i < outcomes.len()
    &&& outcomes[i] is Err
    &&& forall|j: int| 0 <= j < i ==> (#[trigger] outcomes[j]) is Ok
}

/// The fragment of each task, the empty mapping standing for a failed one.
pub open spec fn fragments(outcomes: Seq<Outcome>) -> Seq<Totals> {
    Seq::new(
        outcomes.len(),
        |i: int|
            match outcomes[i] {
                Ok(f) => f@,
                Err(_) => Map::empty(),
            },
    )
}

/// The contributors of all fragments, each once, in the order in which the
/// tasks first name them.
pub open spec fn contributors(outcomes: Seq<Outcome>) -> Seq<Seq<char>>
    decreases outcomes.len(),
{
    if outcomes.len() == 0 {
        Seq::empty()
    } else {
        let earlier = contributors(outcomes.drop_last());
        match outcomes.last() {
            Ok(f) => enlist_all(earlier, f.names()),
            Err(_) => earlier,
        }
    }
}

/// Every fragment is well formed.
pub open spec fn fragments_wf(outcomes: Seq<Outcome>) -> bool {
    forall|i: int|
        0 <= i < outcomes.len() ==> ((#[trigger] outcomes[i]) matches Ok(f) ==> f.wf())
}

/// What the fetch of one category of comments ended in.
pub type Fetched = Result<Vec<CommentRecord>, FetchError>;

/// The outcome of the task of one item, from what the fetches of its two
/// categories of comments ended in. Where one of them failed the task
/// fails with that failure, that of the conversation comments first;
/// nothing is counted of the category that was fetched. Else the comments
/// of both categories that are not older than `cutoff` make the fragment.
pub fn item_outcome(
    conversation: Fetched,
    review: Fetched,
    cutoff: i64,
    ignored: &Vec<String>,
) -> (r: Outcome)
    ensures
        conversation matches Err(e) ==> r == Err::<PullReviewStats, FetchError>(e),
        conversation is Ok ==> (review matches Err(e) ==> r == Err::<PullReviewStats, FetchError>(
            e,
        )),
        conversation matches Ok(c) ==> (review matches Ok(v) ==> (r matches Ok(f) && f.wf() && f@
            == fragment_of((c@ + v@).filter(at_or_after(cutoff)), ignore_set(ignored@))
            && f.names() == authors_listed(
            (c@ + v@).filter(at_or_after(cutoff)),
            ignore_set(ignored@),
        ))),
{
    match conversation {
        Err(e) => Err(e),
        Ok(comments) => match review {
            Err(e) => Err(e),
            Ok(reviews) => {
                let mut records = comments;
                let mut reviews = reviews;
                records.append(&mut reviews);
                let recent = since(&records, cutoff);
                Ok(review_stats(&recent, ignored))
            },
        },
    }
}

/// The position of the first failed task, if any task failed.
pub fn first_failure(outcomes: &Vec<Outcome>) -> (r: Option<usize>)
    ensures
        match r {
            Some(i) => first_failure_at(outcomes@, i as int),
            None => all_ok(outcomes@),
        },
{
    let mut i: usize = 0;
    while i < outcomes.len()
        invariant
            i <= outcomes@.len(),
            forall|j: int| 0 <= j < i ==> (#[trigger] outcomes@[j]) is Ok,
        decreases outcomes@.len() - i,
    {
        if outcomes[i].is_err() {
            return Some(i);
        }
        i = i + 1;
    }
    None
}

/// Folds the fragments of all tasks into one total, or fails with the
/// failure of the first task that failed. With no task at all the total is
/// the empty mapping. Where no task failed and the total has a count that
/// a `usize` cannot hold, there is no outcome.
pub fn try_aggregate(outcomes: Vec<Outcome>) -> (r: Option<Outcome>)
    requires
        fragments_wf(outcomes@),
    ensures
        r is None <==> all_ok(outcomes@) && !fits(fold(fragments(outcomes@))),
        r matches Some(o) ==> (o is Ok <==> all_ok(outcomes@)),
        r matches Some(Ok(total)) ==> total.wf() && total@ == fold(fragments(outcomes@))
            && total.names() == contributors(outcomes@),
        r matches Some(Err(e)) ==> exists|i: int|
            first_failure_at(outcomes@, i) && (#[trigger] outcomes@[i]) == Err::<
                PullReviewStats,
                FetchError,
            >(e),
{
    let ghost all = outcomes@;
    let mut list = outcomes;
    match first_failure(&list) {
        Some(i) => {
            let failed = list.remove(i);
            match failed {
                Err(e) => {
                    assert(all[i as int] == Err::<PullReviewStats, FetchError>(e));
                    Some(Err(e))
                },
                Ok(total) => Some(Ok(total)),
            }
        },
        None => {
            let mut total = PullReviewStats::new();
            let mut i: usize = 0;
            while i < list.len()
                invariant
                    i <= all.len(),
                    all == outcomes@,
                    all == list@,
                    all_ok(all),
                    fragments_wf(all),
                    total.wf(),
                    total@ == fold(fragments(all).take(i as int)),
                    total.names() == contributors(all.take(i as int)),
                decreases all.len() - i,
            {
                proof {
                    let frags = fragments(all);
                    assert(frags.take(i + 1).drop_last() =~= frags.take(i as int));
                    assert(all[i as int] is Ok);
                    assert(all.take(i + 1).drop_last() =~= all.take(i as int));
                    assert(all.take(i + 1).last() == all[i as int]);
                }
                match &list[i] {
                    Ok(fragment) => {
                        if !total.can_absorb(fragment) {
                            proof {
                                let frags = fragments(all);
                                crate::algebra::lemma_fold_prefix_below(frags, i + 1);
                                assert(frags[i as int] == fragment@);
                                assert(frags.take(i + 1).last() == frags[i as int]);
                                assert(fold(frags.take(i + 1)) == crate::algebra::merge(
                                    total@,
                                    fragment@,
                                ));
                                if fits(fold(frags)) {
                                    crate::algebra::lemma_below_fits(
                                        fold(frags.take(i + 1)),
                                        fold(frags),
                                    );
                                }
                            }
                            return None;
                        }
                        total.absorb(fragment);
                    },
                    Err(_) => {},
                }
                i = i + 1;
            }
            proof {
                assert(fragments(all).take(all.len() as int) =~= fragments(all));
                assert(all.take(all.len() as int) =~= all);
                total.lemma_view();
            }
            Some(Ok(total))
        },
    }
}

/// Folds the fragments of all tasks into one total, or fails with the
/// failure of the first task that failed. With no task at all the total is
/// the empty mapping.
pub fn aggregate(outcomes: Vec<Outcome>) -> (r: Outcome)
    requires
        fragments_wf(outcomes@),
        all_ok(outcomes@) ==> fits(fold(fragments(outcomes@))),
    ensures
        r is Ok <==> all_ok(outcomes@),
        r matches Ok(total) ==> total.wf() && total@ == fold(fragments(outcomes@))
            && total.names() == contributors(outcomes@),
        r matches Err(e) ==> exists|i: int|
            first_failure_at(outcomes@, i) && (#[trigger] outcomes@[i]) == Err::<
                PullReviewStats,
                FetchError,
            >(e),
{
    match try_aggregate(outcomes) {
        Some(outcome) => outcome,
        None => vstd::pervasive::unreached(),
    }
}

} // verus!
