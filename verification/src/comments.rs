//! Comment records and what is made of the comments of one item.

use vstd::prelude::*;
use crate::algebra::{Counts, Totals, merge, single, fits, fold};
use crate::stats::{IndividualReviewStats, PullReviewStats, enlist};

verus! {

/// The two categories of comments that an item has.
#[derive(Clone, Copy, Debug, PartialEq, Eq, Structural)]
pub enum CommentKind {
    Conversation,
    Review,
}

/// One comment: who wrote it, when (microseconds since the Unix epoch, UTC),
/// where it can be read, and of which category it is.
#[derive(Clone, Debug, PartialEq, Eq)]
pub struct CommentRecord {
    pub author: String,
    pub timestamp_micros: i64,
    pub link: String,
    pub kind: CommentKind,
}

impl CommentRecord {
    /// A copy of the record.
    pub fn duplicate(&self) -> (r: Self)
        ensures
            r == *self,
    {
        CommentRecord {
            author: self.author.clone(),
            timestamp_micros: self.timestamp_micros,
            link: self.link.clone(),
            kind: self.kind,
        }
    }
}

/// The test that a record is not older than `cutoff`: the bound is inclusive.
pub open spec fn at_or_after(cutoff: i64) -> spec_fn(CommentRecord) -> bool {
    |r: CommentRecord| r.timestamp_micros >= cutoff
}

/// The records that are not older than `cutoff`, order kept.
pub fn since(records: &Vec<CommentRecord>, cutoff: i64) -> (r: Vec<CommentRecord>)
    ensures
        r@ == records@.filter(at_or_after(cutoff)),
{
    let mut kept: Vec<CommentRecord> = Vec::new();
    let mut i: usize = 0;
    proof {
        reveal(Seq::filter);
        assert(records@.take(0) =~= Seq::<CommentRecord>::empty());
    }
    while i < records.len()
        invariant
            i <= records@.len(),
            kept@ == records@.take(i as int).filter(at_or_after(cutoff)),
        decreases records@.len() - i,
    {
        proof {
            assert(records@.take(i + 1) =~= records@.take(i as int).push(records@[i as int]));
            records@.take(i as int).lemma_filter_push(records@[i as int], at_or_after(cutoff));
        }
        if records[i].timestamp_micros >= cutoff {
            kept.push(records[i].duplicate());
        }
        i = i + 1;
    }
    proof {
        assert(records@.take(records@.len() as int) =~= records@);
    }
    kept
}

/// The lower bound is inclusive: of the records kept none is older than the
/// cutoff, a record stamped exactly at the cutoff is kept, and one stamped a
/// microsecond before it is not.
pub proof fn lemma_cutoff_boundary(records: Seq<CommentRecord>, cutoff: i64, i: int)
    requires
        0 <= i < records.len(),
    ensures
        forall|j: int|
            0 <= j < records.filter(at_or_after(cutoff)).len() ==> (#[trigger] records.filter(
                at_or_after(cutoff),
            )[j]).timestamp_micros >= cutoff,
        records[i].timestamp_micros == cutoff ==> records.filter(at_or_after(cutoff)).contains(
            records[i],
        ),
        records[i].timestamp_micros == cutoff - 1 ==> !records.filter(at_or_after(cutoff)).contains(
            records[i],
        ),
{
    let kept = records.filter(at_or_after(cutoff));
    records.filter_lemma(at_or_after(cutoff));
    if records[i].timestamp_micros == cutoff - 1 && kept.contains(records[i]) {
        let j = choose|j: int| 0 <= j < kept.len() && kept[j] == records[i];
        assert(kept[j].timestamp_micros >= cutoff);
    }
}

/// The views of a list of texts.
pub open spec fn texts(list: Seq<String>) -> Seq<Seq<char>> {
    Seq::new(list.len(), |i: int| list[i]@)
}

/// The links of the records that `who` wrote, order kept.
pub open spec fn links_of(records: Seq<CommentRecord>, who: Seq<char>) -> Seq<Seq<char>>
    decreases records.len(),
{
    if records.len() == 0 {
        Seq::empty()
    } else if records.last().author@ == who {
        links_of(records.drop_last(), who).push(records.last().link@)
    } else {
        links_of(records.drop_last(), who)
    }
}

/// The links of the comments that `name` wrote.
pub fn links_by(records: &Vec<CommentRecord>, name: &String) -> (r: Vec<String>)
    ensures
        texts(r@) == links_of(records@, name@),
{
    let mut links: Vec<String> = Vec::new();
    let mut i: usize = 0;
    proof {
        assert(texts(links@) =~= links_of(records@.take(0), name@));
    }
    while i < records.len()
        invariant
            i <= records@.len(),
            texts(links@) == links_of(records@.take(i as int), name@),
        decreases records@.len() - i,
    {
        let ghost before = links@;
        proof {
            assert(records@.take(i + 1).drop_last() =~= records@.take(i as int));
        }
        if records[i].author == *name {
            links.push(records[i].link.clone());
            proof {
                assert(texts(links@) =~= texts(before).push(records@[i as int].link@));
            }
        }
        i = i + 1;
    }
    proof {
        assert(records@.take(records@.len() as int) =~= records@);
    }
    links
}

/// The identities that a list of names holds.
pub open spec fn ignore_set(ignored: Seq<String>) -> Set<Seq<char>> {
    Set::new(|who: Seq<char>| exists|j: int| 0 <= j < ignored.len() && (#[trigger] ignored[j])@ == who)
}

/// Whether `name` is one of `ignored`.
pub fn is_ignored(ignored: &Vec<String>, name: &String) -> (b: bool)
    ensures
        b == ignore_set(ignored@).contains(name@),
{
    let mut j: usize = 0;
    while j < ignored.len()
        invariant
            j <= ignored@.len(),
            forall|k: int| 0 <= k < j ==> (#[trigger] ignored@[k])@ != name@,
        decreases ignored@.len() - j,
    {
        if ignored[j] == *name {
            return true;
        }
        j = j + 1;
    }
    false
}

/// How many of the records are of category `kind` and written by `who`.
pub open spec fn authored(records: Seq<CommentRecord>, who: Seq<char>, kind: CommentKind) -> nat
    decreases records.len(),
{
    if records.len() == 0 {
        0
    } else {
        let rest = authored(records.drop_last(), who, kind);
        if records.last().author@ == who && records.last().kind == kind {
            rest + 1
        } else {
            rest
        }
    }
}

/// Some record is written by `who`.
pub open spec fn mentions(records: Seq<CommentRecord>, who: Seq<char>) -> bool {
    exists|i: int| 0 <= i < records.len() && (#[trigger] records[i]).author@ == who
}

/// The fragment of one item: an entry for each author who is not ignored,
/// with their comments counted by category, and the item counted once.
pub open spec fn fragment_of(records: Seq<CommentRecord>, ignored: Set<Seq<char>>) -> Totals {
    Map::new(
        |who: Seq<char>| !ignored.contains(who) && mentions(records, who),
        |who: Seq<char>|
            (
                authored(records, who, CommentKind::Conversation),
                authored(records, who, CommentKind::Review),
                1nat,
            ),
    )
}

/// What one record adds to the entry of its author: one comment of its
/// category, and the item itself where the author is new to the fragment.
pub open spec fn share(kind: CommentKind, known: bool) -> Counts {
    (
        if kind == CommentKind::Conversation { 1nat } else { 0nat },
        if kind == CommentKind::Review { 1nat } else { 0nat },
        if known { 0nat } else { 1nat },
    )
}

/// No author has more comments than there are records.
pub proof fn lemma_authored_bound(records: Seq<CommentRecord>, who: Seq<char>, kind: CommentKind)
    ensures
        authored(records, who, kind) <= records.len(),
    decreases records.len(),
{
    if records.len() > 0 {
        lemma_authored_bound(records.drop_last(), who, kind);
    }
}

/// Who wrote no record has no comment counted.
pub proof fn lemma_authored_none(records: Seq<CommentRecord>, who: Seq<char>, kind: CommentKind)
    requires
        !mentions(records, who),
    ensures
        authored(records, who, kind) == 0,
    decreases records.len(),
{
    if records.len() > 0 {
        let rest = records.drop_last();
        assert(records[records.len() - 1].author@ != who);
        assert(!mentions(rest, who)) by {
            if mentions(rest, who) {
                let i = choose|i: int| 0 <= i < rest.len() && (#[trigger] rest[i]).author@ == who;
                assert(records[i].author@ == who);
            }
        }
        lemma_authored_none(rest, who, kind);
    }
}

/// The fragment of the first `n + 1` records, from that of the first `n`.
pub proof fn lemma_fragment_step(records: Seq<CommentRecord>, ignored: Set<Seq<char>>, n: int)
    requires
        0 <= n < records.len(),
    ensures
        ignored.contains(records[n].author@) ==> fragment_of(records.take(n + 1), ignored)
            == fragment_of(records.take(n), ignored),
        !ignored.contains(records[n].author@) ==> fragment_of(records.take(n + 1), ignored)
            == merge(
            fragment_of(records.take(n), ignored),
            single(
                records[n].author@,
                share(
                    records[n].kind,
                    fragment_of(records.take(n), ignored).dom().contains(records[n].author@),
                ),
            ),
        ),
{
    let head = records.take(n);
    let next = records.take(n + 1);
    let author = records[n].author@;
    assert(next.drop_last() =~= head);
    assert(next.last() == records[n]);
    assert forall|who: Seq<char>| #[trigger]
        mentions(next, who) == (mentions(head, who) || who == author) by {
        if mentions(head, who) {
            let i = choose|i: int| 0 <= i < head.len() && (#[trigger] head[i]).author@ == who;
            assert(next[i].author@ == who);
        }
        if who == author {
            assert(next[n].author@ == who);
        }
        if mentions(next, who) {
            let i = choose|i: int| 0 <= i < next.len() && (#[trigger] next[i]).author@ == who;
            if i < n {
                assert(head[i].author@ == who);
            }
        }
    }
    assert forall|who: Seq<char>, kind: CommentKind| #[trigger]
        authored(next, who, kind) == authored(head, who, kind) + (if author == who
            && records[n].kind == kind {
            1nat
        } else {
            0nat
        }) by {}
    let small = fragment_of(head, ignored);
    let large = fragment_of(next, ignored);
    if ignored.contains(author) {
        assert(large =~= small);
    } else {
        let known = small.dom().contains(author);
        let sum = merge(small, single(author, share(records[n].kind, known)));
        assert forall|who: Seq<char>| #[trigger]
            large.dom().contains(who) == sum.dom().contains(who) && (large.dom().contains(who)
                ==> large[who] == sum[who]) by {
            assert(mentions(next, who) == (mentions(head, who) || who == author));
            if !mentions(head, who) {
                lemma_authored_none(head, who, CommentKind::Conversation);
                lemma_authored_none(head, who, CommentKind::Review);
            }
            assert(authored(next, who, CommentKind::Conversation) == authored(
                head,
                who,
                CommentKind::Conversation,
            ) + (if author == who && records[n].kind == CommentKind::Conversation {
                1nat
            } else {
                0nat
            }));
            assert(authored(next, who, CommentKind::Review) == authored(
                head,
                who,
                CommentKind::Review,
            ) + (if author == who && records[n].kind == CommentKind::Review {
                1nat
            } else {
                0nat
            }));
        }
        assert(large.dom() =~= sum.dom());
        assert(large =~= merge(small, single(author, share(records[n].kind, known))));
    }
}

/// The fragment of at most `usize::MAX` records fits in `usize`.
pub proof fn lemma_fragment_fits(records: Seq<CommentRecord>, ignored: Set<Seq<char>>)
    requires
        records.len() <= usize::MAX,
    ensures
        fits(fragment_of(records, ignored)),
{
    let m = fragment_of(records, ignored);
    assert forall|who: Seq<char>| #[trigger] m.dom().contains(who) implies m[who].0 <= usize::MAX
        && m[who].1 <= usize::MAX && m[who].2 <= usize::MAX by {
        lemma_authored_bound(records, who, CommentKind::Conversation);
        lemma_authored_bound(records, who, CommentKind::Review);
    }
}

/// However many comments of either category a contributor left on an item,
/// the item counts once for them.
pub proof fn lemma_participation_once(
    records: Seq<CommentRecord>,
    ignored: Set<Seq<char>>,
    who: Seq<char>,
)
    requires
        fragment_of(records, ignored).dom().contains(who),
    ensures
        fragment_of(records, ignored)[who].2 == 1,
        fragment_of(records, ignored)[who].0 == authored(records, who, CommentKind::Conversation),
        fragment_of(records, ignored)[who].1 == authored(records, who, CommentKind::Review),
{
}

/// An ignored contributor has no entry in any fragment, whatever they wrote.
pub proof fn lemma_ignored_absent(
    records: Seq<CommentRecord>,
    ignored: Set<Seq<char>>,
    who: Seq<char>,
)
    requires
        ignored.contains(who),
    ensures
        !fragment_of(records, ignored).dom().contains(who),
{
}

/// A contributor whom no fragment holds has no entry in the aggregate.
pub proof fn lemma_fold_keeps_absent(frags: Seq<Totals>, who: Seq<char>)
    requires
        forall|i: int| 0 <= i < frags.len() ==> !(#[trigger] frags[i]).dom().contains(who),
    ensures
        !fold(frags).dom().contains(who),
    decreases frags.len(),
{
    if frags.len() > 0 {
        let rest = frags.drop_last();
        assert forall|i: int| 0 <= i < rest.len() implies !(#[trigger] rest[i]).dom().contains(
            who,
        ) by {
            assert(rest[i] == frags[i]);
        }
        lemma_fold_keeps_absent(rest, who);
        assert(!frags[frags.len() - 1].dom().contains(who));
    }
}

/// The authors who are not ignored, each once, in the order in which they
/// first wrote.
pub open spec fn authors_listed(records: Seq<CommentRecord>, ignored: Set<Seq<char>>) -> Seq<
    Seq<char>,
>
    decreases records.len(),
{
    if records.len() == 0 {
        Seq::empty()
    } else {
        let earlier = authors_listed(records.drop_last(), ignored);
        if ignored.contains(records.last().author@) {
            earlier
        } else {
            enlist(earlier, records.last().author@)
        }
    }
}

/// The fragment of one item, from the comments fetched for it.
pub fn review_stats(records: &Vec<CommentRecord>, ignored: &Vec<String>) -> (r: PullReviewStats)
    ensures
        r.wf(),
        r@ == fragment_of(records@, ignore_set(ignored@)),
        r.names() == authors_listed(records@, ignore_set(ignored@)),
{
    let ghost skip = ignore_set(ignored@);
    let mut stats = PullReviewStats::new();
    let mut i: usize = 0;
    proof {
        assert(fragment_of(records@.take(0), skip) =~= Map::<Seq<char>, Counts>::empty());
        assert(stats.names() =~= authors_listed(records@.take(0), skip));
    }
    while i < records.len()
        invariant
            i <= records@.len(),
            skip == ignore_set(ignored@),
            stats.wf(),
            stats@ == fragment_of(records@.take(i as int), skip),
            stats.names() == authors_listed(records@.take(i as int), skip),
        decreases records@.len() - i,
    {
        proof {
            lemma_fragment_step(records@, skip, i as int);
            lemma_fragment_fits(records@.take(i + 1), skip);
            assert(records@.take(i + 1).drop_last() =~= records@.take(i as int));
        }
        let name = records[i].author.clone();
        if !is_ignored(ignored, &name) {
            let known = stats.get(&name).is_some();
            let mut value = if known {
                IndividualReviewStats::empty()
            } else {
                IndividualReviewStats::new()
            };
            match records[i].kind {
                CommentKind::Conversation => {
                    value.num_comments = 1;
                },
                CommentKind::Review => {
                    value.num_review_comments = 1;
                },
            }
            assert(value.counts() == share(records@[i as int].kind, known));
            stats.credit(name, value);
        }
        i = i + 1;
    }
    proof {
        assert(records@.take(records@.len() as int) =~= records@);
    }
    stats
}

} // verus!
