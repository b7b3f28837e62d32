use activity_summary::commands::Reviewers;
use activity_summary::comments::{is_ignored, links_by, review_stats, since, CommentKind, CommentRecord};
use activity_summary::dispatch::{
    aggregate, first_failure, item_outcome, try_aggregate, FetchError,
};
use activity_summary::stats::{IndividualReviewStats, PullReviewStats};

fn record(author: &str, at: i64, kind: CommentKind) -> CommentRecord {
    CommentRecord {
        author: author.to_string(),
        timestamp_micros: at,
        link: format!("https://example.com/{}/{}", author, at),
        kind,
    }
}

fn stats(comments: usize, reviews: usize, items: usize) -> IndividualReviewStats {
    IndividualReviewStats {
        num_comments: comments,
        num_review_comments: reviews,
        prs_participated_in: items,
    }
}

fn totals(entries: &[(&str, usize, usize, usize)]) -> PullReviewStats {
    let mut out = PullReviewStats::new();
    for (name, c, r, p) in entries {
        out.credit(name.to_string(), stats(*c, *r, *p));
    }
    out
}

fn same(a: &PullReviewStats, b: &PullReviewStats, names: &[&str]) -> bool {
    a.len() == b.len() && names.iter().all(|n| a.get(&n.to_string()) == b.get(&n.to_string()))
}

#[test]
fn new_entry_counts_the_item_once() {
    assert_eq!(IndividualReviewStats::new(), stats(0, 0, 1));
}

#[test]
fn empty_entry_is_zero() {
    assert_eq!(IndividualReviewStats::empty(), stats(0, 0, 0));
}

#[test]
fn add_assign_adds_field_by_field() {
    let mut a = stats(1, 2, 3);
    a.add_assign(stats(10, 20, 30));
    assert_eq!(a, stats(11, 22, 33));
}

#[test]
fn credit_makes_and_extends_entries() {
    let mut t = PullReviewStats::new();
    assert_eq!(t.len(), 0);
    t.credit("alice".to_string(), stats(1, 0, 1));
    t.credit("bob".to_string(), stats(0, 2, 1));
    t.credit("alice".to_string(), stats(4, 1, 0));
    assert_eq!(t.len(), 2);
    assert_eq!(t.get(&"alice".to_string()), Some(stats(5, 1, 1)));
    assert_eq!(t.get(&"bob".to_string()), Some(stats(0, 2, 1)));
    assert_eq!(t.get(&"carol".to_string()), None);
}

#[test]
fn merge_is_commutative() {
    let a = totals(&[("alice", 1, 0, 1), ("bob", 0, 2, 1)]);
    let b = totals(&[("bob", 3, 1, 1), ("carol", 7, 0, 1)]);
    let ab = a.clone().add(b.clone());
    let ba = b.add(a);
    assert!(same(&ab, &ba, &["alice", "bob", "carol"]));
    assert_eq!(ab.get(&"bob".to_string()), Some(stats(3, 3, 2)));
    assert_eq!(ab.get(&"alice".to_string()), Some(stats(1, 0, 1)));
    assert_eq!(ab.get(&"carol".to_string()), Some(stats(7, 0, 1)));
}

#[test]
fn fold_in_any_order_gives_the_same_total() {
    let frags = vec![
        totals(&[("alice", 1, 0, 1)]),
        totals(&[("bob", 0, 2, 1), ("alice", 2, 2, 1)]),
        totals(&[("carol", 5, 0, 1)]),
    ];
    let forward = aggregate(frags.iter().cloned().map(Ok).collect()).unwrap();
    let backward = aggregate(frags.iter().rev().cloned().map(Ok).collect()).unwrap();
    let rotated = aggregate(vec![Ok(frags[1].clone()), Ok(frags[2].clone()), Ok(frags[0].clone())])
        .unwrap();
    assert!(same(&forward, &backward, &["alice", "bob", "carol"]));
    assert!(same(&forward, &rotated, &["alice", "bob", "carol"]));
    assert_eq!(forward.get(&"alice".to_string()), Some(stats(3, 2, 2)));
}

#[test]
fn fold_of_two_groups_merged_is_the_fold_of_all() {
    let frags = vec![
        totals(&[("alice", 1, 0, 1)]),
        totals(&[("bob", 0, 2, 1), ("alice", 2, 2, 1)]),
        totals(&[("carol", 5, 0, 1)]),
        totals(&[("bob", 1, 1, 1)]),
    ];
    let all = aggregate(frags.iter().cloned().map(Ok).collect()).unwrap();
    let left = aggregate(frags[..1].iter().cloned().map(Ok).collect()).unwrap();
    let right = aggregate(frags[1..].iter().cloned().map(Ok).collect()).unwrap();
    let joined = left.add(right);
    assert!(same(&all, &joined, &["alice", "bob", "carol"]));
    assert_eq!(joined.get(&"bob".to_string()), Some(stats(1, 3, 2)));
}

#[test]
fn merge_with_the_empty_mapping_changes_nothing() {
    let a = totals(&[("alice", 1, 2, 3)]);
    let sum = a.clone().add(PullReviewStats::new());
    assert!(same(&a, &sum, &["alice"]));
    let sum = PullReviewStats::new().add(a.clone());
    assert!(same(&a, &sum, &["alice"]));
}

#[test]
fn many_comments_on_one_item_count_the_item_once() {
    let records = vec![
        record("alice", 1, CommentKind::Conversation),
        record("alice", 2, CommentKind::Conversation),
        record("alice", 3, CommentKind::Conversation),
        record("alice", 4, CommentKind::Review),
        record("alice", 5, CommentKind::Review),
    ];
    let fragment = review_stats(&records, &vec![]);
    assert_eq!(fragment.len(), 1);
    assert_eq!(fragment.get(&"alice".to_string()), Some(stats(3, 2, 1)));
}

#[test]
fn review_only_contributor_takes_part_once() {
    let records = vec![record("bob", 1, CommentKind::Review)];
    let fragment = review_stats(&records, &vec![]);
    assert_eq!(fragment.get(&"bob".to_string()), Some(stats(0, 1, 1)));
}

#[test]
fn ignored_contributors_get_no_entry() {
    let records = vec![
        record("bot", 1, CommentKind::Conversation),
        record("alice", 2, CommentKind::Conversation),
        record("bot", 3, CommentKind::Review),
    ];
    let ignored = vec!["bot".to_string(), "nobody".to_string()];
    assert!(is_ignored(&ignored, &"bot".to_string()));
    assert!(!is_ignored(&ignored, &"alice".to_string()));
    let fragment = review_stats(&records, &ignored);
    assert_eq!(fragment.len(), 1);
    assert_eq!(fragment.get(&"bot".to_string()), None);
    assert_eq!(fragment.get(&"alice".to_string()), Some(stats(1, 0, 1)));
    let total = aggregate(vec![Ok(fragment.clone()), Ok(fragment)]).unwrap();
    assert_eq!(total.get(&"bot".to_string()), None);
    assert_eq!(total.len(), 1);
}

#[test]
fn cutoff_is_an_inclusive_lower_bound() {
    let cutoff: i64 = 1_662_921_288_000_000;
    let records = vec![
        record("early", cutoff - 1, CommentKind::Conversation),
        record("exact", cutoff, CommentKind::Conversation),
        record("late", cutoff + 1, CommentKind::Review),
    ];
    let kept = since(&records, cutoff);
    assert_eq!(kept, vec![records[1].clone(), records[2].clone()]);
}

#[test]
fn since_of_nothing_is_nothing() {
    assert_eq!(since(&vec![], 0), vec![]);
}

#[test]
fn links_by_keeps_the_users_links_in_order() {
    let records = vec![
        record("alice", 1, CommentKind::Conversation),
        record("bob", 2, CommentKind::Conversation),
        record("alice", 3, CommentKind::Conversation),
    ];
    assert_eq!(
        links_by(&records, &"alice".to_string()),
        vec!["https://example.com/alice/1".to_string(), "https://example.com/alice/3".to_string()]
    );
    assert_eq!(links_by(&records, &"carol".to_string()), Vec::<String>::new());
}

#[test]
fn one_failure_fails_the_aggregation() {
    let ok = totals(&[("alice", 1, 0, 1)]);
    let outcomes = vec![
        Ok(ok.clone()),
        Ok(ok.clone()),
        Err(FetchError::Transport("timed out".to_string())),
        Ok(ok.clone()),
        Err(FetchError::MalformedResource("no owner".to_string())),
    ];
    assert_eq!(first_failure(&outcomes), Some(2));
    match aggregate(outcomes) {
        Err(e) => assert_eq!(e, FetchError::Transport("timed out".to_string())),
        Ok(_) => panic!("a partial total was returned"),
    }
}

#[test]
fn a_failure_in_the_last_task_fails_the_aggregation() {
    let ok = totals(&[("alice", 1, 0, 1)]);
    let outcomes = vec![Ok(ok.clone()), Ok(ok), Err(FetchError::MalformedResource("x".to_string()))];
    assert!(matches!(aggregate(outcomes), Err(FetchError::MalformedResource(_))));
}

#[test]
fn no_items_give_the_empty_total() {
    let total = aggregate(vec![]).unwrap();
    assert_eq!(total.len(), 0);
    assert_eq!(first_failure(&vec![]), None);
}

#[test]
fn two_items_end_to_end() {
    let run = Reviewers {
        repo: "rust-lang/rust".to_string(),
        timeframe_micros: 86_400_000_000,
        labels: vec!["T-compiler".to_string()],
        ignored_user: vec![],
    };
    let item_a = vec![
        record("alice", 10, CommentKind::Conversation),
        record("alice", 11, CommentKind::Conversation),
        record("bob", 12, CommentKind::Review),
    ];
    let item_b = vec![record("alice", 20, CommentKind::Conversation)];
    let outcomes = vec![Ok(run.review_stats(&item_a)), Ok(run.review_stats(&item_b))];
    let total = aggregate(outcomes).unwrap();
    assert_eq!(total.len(), 2);
    assert_eq!(total.get(&"alice".to_string()), Some(stats(3, 0, 2)));
    assert_eq!(total.get(&"bob".to_string()), Some(stats(0, 1, 1)));
}

#[test]
fn a_failed_category_fails_the_item() {
    let comments = vec![record("alice", 5, CommentKind::Conversation)];
    let failed = item_outcome(
        Ok(comments.clone()),
        Err(FetchError::Transport("reviews".to_string())),
        0,
        &vec![],
    );
    assert_eq!(failed.err(), Some(FetchError::Transport("reviews".to_string())));
    let failed = item_outcome(
        Err(FetchError::Transport("comments".to_string())),
        Err(FetchError::Transport("reviews".to_string())),
        0,
        &vec![],
    );
    assert_eq!(failed.err(), Some(FetchError::Transport("comments".to_string())));
    let failed = item_outcome(
        Err(FetchError::MalformedResource("comments".to_string())),
        Ok(comments),
        0,
        &vec![],
    );
    assert_eq!(failed.err(), Some(FetchError::MalformedResource("comments".to_string())));
}

#[test]
fn both_categories_make_one_fragment() {
    let comments = vec![
        record("alice", 9, CommentKind::Conversation),
        record("alice", 10, CommentKind::Conversation),
        record("bot", 11, CommentKind::Conversation),
    ];
    let reviews = vec![
        record("alice", 12, CommentKind::Review),
        record("bob", 10, CommentKind::Review),
        record("bob", 3, CommentKind::Review),
    ];
    let fragment = item_outcome(Ok(comments), Ok(reviews), 10, &vec!["bot".to_string()]).unwrap();
    assert_eq!(fragment.len(), 2);
    assert_eq!(fragment.get(&"alice".to_string()), Some(stats(1, 1, 1)));
    assert_eq!(fragment.get(&"bob".to_string()), Some(stats(0, 1, 1)));
}

#[test]
fn contributors_stay_in_the_order_of_first_appearance() {
    let item_a = vec![
        record("carol", 1, CommentKind::Review),
        record("alice", 2, CommentKind::Conversation),
        record("carol", 3, CommentKind::Conversation),
    ];
    let item_b = vec![
        record("bob", 1, CommentKind::Conversation),
        record("alice", 2, CommentKind::Review),
        record("dave", 3, CommentKind::Review),
    ];
    let a = review_stats(&item_a, &vec![]);
    let b = review_stats(&item_b, &vec!["dave".to_string()]);
    let names = |s: PullReviewStats| -> Vec<String> {
        s.into_entries().into_iter().map(|e| e.name).collect()
    };
    assert_eq!(names(a.clone()), vec!["carol".to_string(), "alice".to_string()]);
    assert_eq!(names(b.clone()), vec!["bob".to_string(), "alice".to_string()]);
    let total = aggregate(vec![Ok(a), Ok(b)]).unwrap();
    assert_eq!(
        names(total),
        vec!["carol".to_string(), "alice".to_string(), "bob".to_string()]
    );
}

#[test]
fn counts_past_the_limit_cannot_be_absorbed() {
    let big = totals(&[("alice", usize::MAX, 0, 1), ("bob", 1, 1, 1)]);
    let one = totals(&[("alice", 1, 0, 1)]);
    let other = totals(&[("bob", usize::MAX - 1, 0, 1), ("carol", usize::MAX, usize::MAX, usize::MAX)]);
    assert!(!big.can_absorb(&one));
    assert!(!one.can_absorb(&big));
    assert!(big.can_absorb(&other));
    assert!(big.can_absorb(&PullReviewStats::new()));
    let sum = big.add(other);
    assert_eq!(sum.get(&"bob".to_string()), Some(stats(usize::MAX, 1, 2)));
}

#[test]
fn a_total_past_the_limit_is_no_outcome() {
    let big = totals(&[("alice", usize::MAX, 0, 1)]);
    let one = totals(&[("alice", 1, 0, 1)]);
    assert!(try_aggregate(vec![Ok(big.clone()), Ok(one.clone())]).is_none());
    let failed = try_aggregate(vec![
        Ok(big.clone()),
        Ok(one.clone()),
        Err(FetchError::Transport("late".to_string())),
    ]);
    assert_eq!(failed.map(|o| o.err()), Some(Some(FetchError::Transport("late".to_string()))));
    let fine = try_aggregate(vec![Ok(one.clone()), Ok(one)]).unwrap().unwrap();
    assert_eq!(fine.get(&"alice".to_string()), Some(stats(2, 0, 2)));
}

#[test]
fn default_total_is_empty() {
    assert_eq!(PullReviewStats::default().len(), 0);
}
