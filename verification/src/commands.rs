//! The two reports and what each is asked with.

use vstd::prelude::*;
use crate::comments::{CommentRecord, authors_listed, fragment_of, ignore_set, links_of, texts};
use crate::query::{option_text, reviewers_query_text, user_query_text, utc_date_text};
use crate::stats::PullReviewStats;

verus! {

/// Review activity by repository, time window and labels.
#[derive(Debug)]
pub struct Reviewers {
    /// The repository whose activity is asked for.
    pub repo: String,
    /// The length of the time window, in microseconds.
    pub timeframe_micros: u64,
    /// The labels to ask for: one query for each, the results summed.
    pub labels: Vec<String>,
    /// The contributors to leave out of the results.
    pub ignored_user: Vec<String>,
}

/// Activity by user and time window.
#[derive(Debug)]
pub struct User {
    /// The user whose activity is asked for.
    pub name: String,
    /// The length of the time window, in microseconds.
    pub timeframe_micros: u64,
    /// The access token for the service.
    pub github_token: String,
}

/// The report to make.
#[derive(Debug)]
pub enum Commands {
    /// Activity by user and time window.
    User(User),
    /// Review activity by repository, time window and labels.
    Reviewers(Reviewers),
}

impl Reviewers {
    /// The lower bound of the window that ends at `now_micros`.
    pub fn cutoff(&self, now_micros: i64) -> (r: i64)
        requires
            now_micros - self.timeframe_micros >= i64::MIN,
        ensures
            r == now_micros - self.timeframe_micros,
    {
        crate::query::cutoff(now_micros, self.timeframe_micros)
    }

    /// The queries of a run, one for each label and in their order; none
    /// where there is a label and the cutoff has no date.
    pub fn queries(&self, cutoff_micros: i64) -> (r: Option<Vec<String>>)
        ensures
            r is Some <==> self.labels@.len() == 0 || utc_date_text(cutoff_micros) is Some,
            r matches Some(list) ==> list@.len() == self.labels@.len() && forall|i: int|
                0 <= i < list@.len() ==> (#[trigger] list@[i])@ == reviewers_query_text(
                    self.repo@,
                    utc_date_text(cutoff_micros).unwrap(),
                    self.labels@[i]@,
                ),
    {
        let mut list: Vec<String> = Vec::new();
        let mut i: usize = 0;
        while i < self.labels.len()
            invariant
                i <= self.labels@.len(),
                list@.len() == i,
                i > 0 ==> utc_date_text(cutoff_micros) is Some,
                forall|j: int|
                    0 <= j < i ==> (#[trigger] list@[j])@ == reviewers_query_text(
                        self.repo@,
                        utc_date_text(cutoff_micros).unwrap(),
                        self.labels@[j]@,
                    ),
            decreases self.labels@.len() - i,
        {
            let query = crate::query::reviewers_query(
                self.repo.as_str(),
                cutoff_micros,
                self.labels[i].as_str(),
            );
            match query {
                Some(text) => {
                    list.push(text);
                },
                None => {
                    return None;
                },
            }
            i = i + 1;
        }
        Some(list)
    }

    /// The fragment of one item, from the comments fetched for it: the
    /// ignored contributors are left out.
    pub fn review_stats(&self, records: &Vec<CommentRecord>) -> (r: PullReviewStats)
        ensures
            r.wf(),
            r@ == fragment_of(records@, ignore_set(self.ignored_user@)),
            r.names() == authors_listed(records@, ignore_set(self.ignored_user@)),
    {
        crate::comments::review_stats(records, &self.ignored_user)
    }
}

impl User {
    /// The lower bound of the window that ends at `now_micros`.
    pub fn cutoff(&self, now_micros: i64) -> (r: i64)
        requires
            now_micros - self.timeframe_micros >= i64::MIN,
        ensures
            r == now_micros - self.timeframe_micros,
    {
        crate::query::cutoff(now_micros, self.timeframe_micros)
    }

    /// The query of a run; none where the cutoff has no date.
    pub fn query(&self, cutoff_micros: i64) -> (r: Option<String>)
        ensures
            option_text(r) == match utc_date_text(cutoff_micros) {
                Some(date) => Some(user_query_text(self.name@, date)),
                None => None,
            },
    {
        crate::query::user_query(self.name.as_str(), cutoff_micros)
    }

    /// The links of the comments that the user wrote, among those fetched
    /// for one item.
    pub fn comments_within(&self, records: &Vec<CommentRecord>) -> (r: Vec<String>)
        ensures
            texts(r@) == links_of(records@, self.name@),
    {
        crate::comments::links_by(records, &self.name)
    }
}

} // verus!
