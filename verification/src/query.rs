//! The time window of a run and the search queries made from it.

use vstd::prelude::*;
use vstd::string::*;

verus! {

/// The calendar date, in UTC, of the instant that lies `micros` microseconds
/// after the Unix epoch, written as year, month and day with hyphens between
/// them; none where the instant is outside the range of dates that can be
/// represented.
pub uninterp spec fn utc_date_text(micros: i64) -> Option<Seq<char>>;

/// The view of an optional text.
pub open spec fn option_text(text: Option<String>) -> Option<Seq<char>> {
    match text {
        Some(t) => Some(t@),
        None => None,
    }
}

/// Trusted: chrono's `DateTime::from_timestamp_micros` makes the instant,
/// `DateTime::date_naive` takes its date, and the date's `Display` writes it.
/// The contract only gives the outcome its name: it is a function of the
/// argument alone.
#[verifier::external_body]
fn utc_date(micros: i64) -> (r: Option<String>)
    ensures
        option_text(r) == utc_date_text(micros),
{
    chrono::DateTime::from_timestamp_micros(micros).map(|at| at.date_naive().to_string())
}

/// The lower bound of the time window: `timeframe_micros` before
/// `now_micros`. Both are in microseconds.
pub fn cutoff(now_micros: i64, timeframe_micros: u64) -> (r: i64)
    requires
        now_micros - timeframe_micros >= i64::MIN,
    ensures
        r == now_micros - timeframe_micros,
{
    let wide: i128 = (now_micros as i128) - (timeframe_micros as i128);
    wide as i64
}

/// Whether the window of `timeframe_micros` before `now_micros` has a lower
/// bound that can be represented.
pub fn cutoff_in_range(now_micros: i64, timeframe_micros: u64) -> (b: bool)
    ensures
        b == (now_micros - timeframe_micros >= i64::MIN),
{
    (now_micros as i128) - (timeframe_micros as i128) >= i64::MIN as i128
}

/// The search for the pull requests of `repo` with `label` that were
/// updated on `date` or later.
pub open spec fn reviewers_query_text(
    repo: Seq<char>,
    date: Seq<char>,
    label: Seq<char>,
) -> Seq<char> {
    "repo:"@ + repo + " sort:created-asc updated:>="@ + date + " is:pr "@ + label
}

/// The search for the items that involve `name` and were updated on `date`
/// or later.
pub open spec fn user_query_text(name: Seq<char>, date: Seq<char>) -> Seq<char> {
    "involves:"@ + name + " sort:created-asc updated:>="@ + date
}

/// The query for one label of a repository, from the date of the cutoff.
pub fn reviewers_query_on(repo: &str, date: &str, label: &str) -> (r: String)
    ensures
        r@ == reviewers_query_text(repo@, date@, label@),
{
    let mut query = String::from_str("repo:");
    query.append(repo);
    query.append(" sort:created-asc updated:>=");
    query.append(date);
    query.append(" is:pr ");
    query.append(label);
    query
}

/// The query for one user, from the date of the cutoff.
pub fn user_query_on(name: &str, date: &str) -> (r: String)
    ensures
        r@ == user_query_text(name@, date@),
{
    let mut query = String::from_str("involves:");
    query.append(name);
    query.append(" sort:created-asc updated:>=");
    query.append(date);
    query
}

/// The query for one label of a repository, for the window that starts at
/// `cutoff_micros`; none where the cutoff has no date.
pub fn reviewers_query(repo: &str, cutoff_micros: i64, label: &str) -> (r: Option<String>)
    ensures
        option_text(r) == match utc_date_text(cutoff_micros) {
            Some(date) => Some(reviewers_query_text(repo@, date, label@)),
            None => None,
        },
{
    match utc_date(cutoff_micros) {
        Some(date) => Some(reviewers_query_on(repo, date.as_str(), label)),
        None => None,
    }
}

/// The query for one user, for the window that starts at `cutoff_micros`;
/// none where the cutoff has no date.
pub fn user_query(name: &str, cutoff_micros: i64) -> (r: Option<String>)
    ensures
        option_text(r) == match utc_date_text(cutoff_micros) {
            Some(date) => Some(user_query_text(name@, date)),
            None => None,
        },
{
    match utc_date(cutoff_micros) {
        Some(date) => Some(user_query_on(name, date.as_str())),
        None => None,
    }
}

} // verus!
