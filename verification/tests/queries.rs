use activity_summary::commands::{Commands, Reviewers, User};
use activity_summary::dispatch::FetchError;
use activity_summary::item::{located, segment_from_end, Item};
use activity_summary::query::{
    cutoff, cutoff_in_range, reviewers_query, reviewers_query_on, user_query, user_query_on,
};

fn item(url: &str) -> Item {
    Item {
        repository_url: url.to_string(),
        number: 7,
        title: "A title".to_string(),
        created_micros: 0,
        updated_micros: 0,
    }
}

#[test]
fn cutoff_is_now_minus_the_timeframe() {
    assert_eq!(cutoff(1_000_000, 250_000), 750_000);
    assert_eq!(cutoff(0, 1), -1);
    assert_eq!(cutoff(i64::MAX, u64::MAX), i64::MIN);
    assert_eq!(cutoff(5, 0), 5);
}

#[test]
fn cutoff_range_test_is_exact() {
    assert!(cutoff_in_range(i64::MAX, u64::MAX));
    assert!(!cutoff_in_range(i64::MAX - 1, u64::MAX));
    assert!(cutoff_in_range(i64::MIN, 0));
    assert!(!cutoff_in_range(i64::MIN, 1));
}

#[test]
fn reviewers_query_on_a_date() {
    assert_eq!(
        reviewers_query_on("rust-lang/rust", "2022-09-11", "T-compiler"),
        "repo:rust-lang/rust sort:created-asc updated:>=2022-09-11 is:pr T-compiler"
    );
}

#[test]
fn user_query_on_a_date() {
    assert_eq!(
        user_query_on("alice", "2022-09-11"),
        "involves:alice sort:created-asc updated:>=2022-09-11"
    );
}

#[test]
fn queries_carry_the_date_of_the_cutoff() {
    let at: i64 = 1_662_921_288_000_000;
    assert_eq!(
        reviewers_query("o/r", at, "bug"),
        Some("repo:o/r sort:created-asc updated:>=2022-09-11 is:pr bug".to_string())
    );
    assert_eq!(
        user_query("alice", at),
        Some("involves:alice sort:created-asc updated:>=2022-09-11".to_string())
    );
    assert_eq!(
        user_query("alice", -1),
        Some("involves:alice sort:created-asc updated:>=1969-12-31".to_string())
    );
    assert_eq!(
        user_query("alice", 0),
        Some("involves:alice sort:created-asc updated:>=1970-01-01".to_string())
    );
}

#[test]
fn a_cutoff_without_a_date_gives_no_query() {
    assert_eq!(user_query("alice", i64::MAX), None);
    assert_eq!(reviewers_query("o/r", i64::MIN, "bug"), None);
}

#[test]
fn one_query_for_each_label() {
    let run = Reviewers {
        repo: "o/r".to_string(),
        timeframe_micros: 1_000_000,
        labels: vec!["a".to_string(), "b".to_string()],
        ignored_user: vec![],
    };
    let at = run.cutoff(1_662_921_289_000_000);
    assert_eq!(at, 1_662_921_288_000_000);
    assert_eq!(
        run.queries(at),
        Some(vec![
            "repo:o/r sort:created-asc updated:>=2022-09-11 is:pr a".to_string(),
            "repo:o/r sort:created-asc updated:>=2022-09-11 is:pr b".to_string(),
        ])
    );
    assert_eq!(run.queries(i64::MAX), None);
    let none = Reviewers { labels: vec![], ..run };
    assert_eq!(none.queries(i64::MAX), Some(vec![]));
}

#[test]
fn user_command_makes_its_query() {
    let run = User {
        name: "alice".to_string(),
        timeframe_micros: 2_000_000,
        github_token: "t".to_string(),
    };
    let at = run.cutoff(2_000_000);
    assert_eq!(at, 0);
    assert_eq!(
        run.query(at),
        Some("involves:alice sort:created-asc updated:>=1970-01-01".to_string())
    );
    let command = Commands::User(run);
    assert!(matches!(command, Commands::User(_)));
}

#[test]
fn repo_and_owner_are_the_last_two_segments() {
    let it = item("https://api.github.com/repos/rust-lang/rust");
    assert_eq!(it.repo(), Ok("rust".to_string()));
    assert_eq!(it.owner(), Ok("rust-lang".to_string()));
}

#[test]
fn a_url_without_segments_is_malformed() {
    let it = item("data:text/plain,HelloWorld");
    assert_eq!(it.repo(), Err(FetchError::MalformedResource("data:text/plain,HelloWorld".to_string())));
    assert_eq!(it.owner(), Err(FetchError::MalformedResource("data:text/plain,HelloWorld".to_string())));
    let it = item("not a url");
    assert_eq!(it.repo(), Err(FetchError::MalformedResource("not a url".to_string())));
}

#[test]
fn a_url_with_one_segment_has_no_owner() {
    let it = item("https://example.com/solo");
    assert_eq!(it.repo(), Ok("solo".to_string()));
    assert_eq!(it.owner(), Err(FetchError::MalformedResource("https://example.com/solo".to_string())));
    let it = item("https://example.com");
    assert_eq!(it.repo(), Ok("".to_string()));
}

#[test]
fn segments_are_counted_from_the_end() {
    let parts = vec!["repos".to_string(), "o".to_string(), "r".to_string()];
    assert_eq!(segment_from_end(&parts, 0), Some("r".to_string()));
    assert_eq!(segment_from_end(&parts, 2), Some("repos".to_string()));
    assert_eq!(segment_from_end(&parts, 3), None);
    let url = "u".to_string();
    assert_eq!(located(&url, Some(parts.clone()), 1), Ok("o".to_string()));
    assert_eq!(located(&url, Some(parts), 5), Err(FetchError::MalformedResource("u".to_string())));
    assert_eq!(located(&url, None, 0), Err(FetchError::MalformedResource("u".to_string())));
}
