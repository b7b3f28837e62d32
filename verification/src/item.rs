//! An issue or pull request, and where it lives.

use vstd::prelude::*;
use crate::comments::texts;
use crate::dispatch::FetchError;

verus! {

/// The segments of the path of the URL that `url` spells, each as a
/// percent-encoded text; none where `url` spells no URL or one that cannot
/// be a base.
pub uninterp spec fn url_path_segments(url: Seq<char>) -> Option<Seq<Seq<char>>>;

/// The views of an optional list of texts.
pub open spec fn option_texts(list: Option<Vec<String>>) -> Option<Seq<Seq<char>>> {
    match list {
        Some(v) => Some(texts(v@)),
        None => None,
    }
}

/// Trusted: url's `Url::parse` reads the text and `Url::path_segments` splits
/// the path. The outcome is a function of the text alone and gets its name
/// here; where there are segments there is at least one, as the method's
/// documentation says.
#[verifier::external_body]
fn path_segments(url: &str) -> (r: Option<Vec<String>>)
    ensures
        option_texts(r) == url_path_segments(url@),
        r matches Some(v) ==> v@.len() >= 1,
{
    url::Url::parse(url).ok()?.path_segments().map(|parts| parts.map(String::from).collect())
}

/// An issue or pull request as a search returns it.
#[derive(Debug)]
pub struct Item {
    /// The URL of the repository that the item belongs to.
    pub repository_url: String,
    pub number: u64,
    pub title: String,
    /// Microseconds since the Unix epoch, UTC.
    pub created_micros: i64,
    pub updated_micros: i64,
}

/// The view of a name or of the failure in its place.
pub open spec fn name_view(r: Result<String, FetchError>) -> Result<Seq<char>, Seq<char>> {
    match r {
        Ok(name) => Ok(name@),
        Err(FetchError::MalformedResource(what)) => Err(what@),
        Err(FetchError::Transport(what)) => Err(what@),
    }
}

/// The last of the segments, counted from the end: `back` is 0 for the last.
pub fn segment_from_end(segments: &Vec<String>, back: usize) -> (r: Option<String>)
    ensures
        crate::query::option_text(r) == if back < segments@.len() {
            Some(segments@[segments@.len() - 1 - back]@)
        } else {
            None
        },
{
    if back < segments.len() {
        Some(segments[segments.len() - 1 - back].clone())
    } else {
        None
    }
}

/// The name looked for, or the failure that names the URL where the URL
/// does not hold it.
pub fn located(url: &String, segments: Option<Vec<String>>, back: usize) -> (r: Result<
    String,
    FetchError,
>)
    ensures
        r is Err ==> r matches Err(FetchError::MalformedResource(_)),
        name_view(r) == match option_texts(segments) {
            Some(parts) => if back < parts.len() {
                Ok(parts[parts.len() - 1 - back])
            } else {
                Err(url@)
            },
            None => Err(url@),
        },
{
    match segments {
        Some(parts) => match segment_from_end(&parts, back) {
            Some(name) => Ok(name),
            None => Err(FetchError::MalformedResource(url.clone())),
        },
        None => Err(FetchError::MalformedResource(url.clone())),
    }
}

impl Item {
    /// The name of the repository: the last segment of the repository's URL,
    /// which has at least one where it has any. An item whose URL has no
    /// path segments is malformed.
    pub fn repo(&self) -> (r: Result<String, FetchError>)
        ensures
            r is Err ==> r matches Err(FetchError::MalformedResource(_)),
            match url_path_segments(self.repository_url@) {
                Some(parts) => parts.len() >= 1 && name_view(r) == Ok::<Seq<char>, Seq<char>>(
                    parts[parts.len() - 1],
                ),
                None => name_view(r) == Err::<Seq<char>, Seq<char>>(self.repository_url@),
            },
    {
        let segments = path_segments(self.repository_url.as_str());
        located(&self.repository_url, segments, 0)
    }

    /// The name of the owner: the segment before the last of the
    /// repository's URL. An item whose URL has fewer than two path segments
    /// is malformed.
    pub fn owner(&self) -> (r: Result<String, FetchError>)
        ensures
            r is Err ==> r matches Err(FetchError::MalformedResource(_)),
            name_view(r) == match url_path_segments(self.repository_url@) {
                Some(parts) => if 1 < parts.len() {
                    Ok(parts[parts.len() - 2])
                } else {
                    Err(self.repository_url@)
                },
                None => Err(self.repository_url@),
            },
    {
        let segments = path_segments(self.repository_url.as_str());
        located(&self.repository_url, segments, 1)
    }
}

} // verus!
