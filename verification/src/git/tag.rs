//! Tags.
use crate::text::owned;
use vstd::prelude::*;

verus! {

/// The latest tag, or `Unreleased` when there is none.
pub fn latest_tag_or_unreleased(latest: Option<String>) -> (r: String)
    ensures
        r@ == match latest {
            Some(t) => t@,
            None => "Unreleased"@,
        },
{
    match latest {
        Some(t) => t,
        None => owned("Unreleased"),
    }
}

/// The calendar date, `YYYY-MM-DD` in UTC, of a time given in seconds since
/// the Unix epoch; none when the time is out of range.
pub uninterp spec fn utc_date(secs: i64) -> Option<Seq<char>>;

/// Calls `chrono::DateTime::<Utc>::from_timestamp(secs, 0)` and formats the
/// result with `%Y-%m-%d`. The contract names the result; the calendar
/// arithmetic is chrono's and is not stated.
#[verifier::external_body]
fn utc_date_of(secs: i64) -> (r: Option<String>)
    ensures
        match utc_date(secs) {
            Some(d) => r matches Some(x) && x@ == d,
            None => r is None,
        },
{
    match chrono::DateTime::<chrono::Utc>::from_timestamp(secs, 0) {
        Some(dt) => Some(dt.format("%Y-%m-%d").to_string()),
        None => None,
    }
}

/// The date of a tag for the changelog: the UTC date of the time of its
/// commit, given in seconds; none when the tag has no commit or the time
/// is out of range.
pub fn get_tag_commit_date(commit_secs: Option<i64>) -> (r: Option<String>)
    ensures
        match commit_secs {
            None => r is None,
            Some(s) => match utc_date(s) {
                Some(d) => r matches Some(x) && x@ == d,
                None => r is None,
            },
        },
{
    match commit_secs {
        Some(s) => utc_date_of(s),
        None => None,
    }
}

/// The tag of the most recent tagged commit, from each tag with the time
/// of its commit in seconds: the first tag with the greatest time, or
/// `None` when there are no tags.
pub fn latest_tag_of(tags: &Vec<(String, i64)>) -> (r: Option<String>)
    ensures
        r is None <==> tags@.len() == 0,
        r matches Some(t) ==> exists|i: int|
            0 <= i < tags@.len() && t@ == (#[trigger] tags@[i]).0@ && (forall|j: int|
                0 <= j < tags@.len() ==> tags@[j].1 <= tags@[i].1) && (forall|j: int|
                0 <= j < i ==> tags@[j].1 < tags@[i].1),
{
    if tags.len() == 0 {
        return None;
    }
    let mut best: usize = 0;
    let mut i: usize = 1;
    while i < tags.len()
        invariant
            0 <= best < i <= tags@.len(),
            forall|j: int| 0 <= j < i ==> tags@[j].1 <= tags@[best as int].1,
            forall|j: int| 0 <= j < best ==> tags@[j].1 < tags@[best as int].1,
        decreases tags.len() - i,
    {
        if tags[i].1 > tags[best].1 {
            best = i;
        }
        i += 1;
    }
    let t = owned(tags[best].0.as_str());
    assert(t@ == tags@[best as int].0@);
    Some(t)
}

} // verus!
