//! The check and push subcommands: the commits of a range that are not
//! Conventional Commits.
use crate::git::commit::{all_plain, spec_valid_message, validate_conventional_commit_message};
use crate::text::strs_view;
use vstd::prelude::*;

verus! {

/// What the user gave to the check subcommand.
pub struct CheckArgs {
    /// The start of the range (a tag or hash).
    pub from: Option<String>,
    /// The end of the range.
    pub to: String,
}

/// What the user gave to the push subcommand.
pub struct PushArgs {
    /// The start of the range; the latest tag when not given.
    pub from: Option<String>,
    /// The end of the range.
    pub to: String,
    /// Where to push.
    pub remote: String,
    /// The branch to push; the current one when not given.
    pub branch: Option<String>,
}

/// The commits, as (hash, message), whose message is not a valid
/// Conventional Commit, in the given order.
pub open spec fn rejected_commits(cs: Seq<(Seq<char>, Seq<char>)>, types: Seq<Seq<char>>) -> Seq<
    (Seq<char>, Seq<char>),
>
    decreases cs.len(),
{
    if cs.len() == 0 {
        Seq::empty()
    } else {
        let rest = rejected_commits(cs.drop_last(), types);
        if spec_valid_message(cs.last().1, types) {
            rest
        } else {
            rest.push(cs.last())
        }
    }
}

/// The commits of a range whose message is not a valid Conventional
/// Commit; pushing is refused when there is one.
pub fn rejected_in_range(commits: &Vec<(String, String)>, allowed_types: &[&str]) -> (r: Vec<
    (String, String),
>)
    requires
        all_plain(strs_view(allowed_types@)),
    ensures
        r.deep_view() == rejected_commits(commits.deep_view(), strs_view(allowed_types@)),
{
    let ghost cs = commits.deep_view();
    let ghost types = strs_view(allowed_types@);
    let mut rejected: Vec<(String, String)> = Vec::new();
    let mut i: usize = 0;
    assert(cs.take(0) =~= Seq::<(Seq<char>, Seq<char>)>::empty());
    assert(rejected.deep_view() =~= rejected_commits(cs.take(0), types));
    while i < commits.len()
        invariant
            i <= commits@.len(),
            cs == commits.deep_view(),
            types == strs_view(allowed_types@),
            all_plain(types),
            rejected.deep_view() == rejected_commits(cs.take(i as int), types),
        decreases commits.len() - i,
    {
        let (hash, msg) = &commits[i];
        assert(cs[i as int] == (hash@, msg@));
        proof {
            assert(cs.take(i + 1).drop_last() == cs.take(i as int));
            assert(cs.take(i + 1).last() == cs[i as int]);
        }
        if !validate_conventional_commit_message(msg.as_str(), allowed_types) {
            let ghost before = rejected.deep_view();
            rejected.push((hash.clone(), msg.clone()));
            assert(rejected.deep_view() =~= before.push((hash@, msg@)));
        }
        i += 1;
    }
    assert(cs.take(cs.len() as int) == cs);
    rejected
}

/// The start of the range that push checks: the one given, else the
/// latest tag; with neither, the range starts at the first commit.
pub fn push_range_start(from: Option<String>, latest_tag: Option<String>) -> (r: Option<String>)
    ensures
        r == match from {
            Some(f) => Some(f),
            None => latest_tag,
        },
{
    match from {
        Some(f) => Some(f),
        None => latest_tag,
    }
}

/// Whether each commit of a range, as (hash, message), is a valid
/// Conventional Commit.
pub fn commit_validity(commits: &Vec<(String, String)>, allowed_types: &[&str]) -> (r: Vec<bool>)
    requires
        all_plain(strs_view(allowed_types@)),
    ensures
        r@.len() == commits@.len(),
        forall|i: int|
            0 <= i < r@.len() ==> r@[i] == spec_valid_message(
                #[trigger] commits@[i].1@,
                strs_view(allowed_types@),
            ),
{
    let mut r: Vec<bool> = Vec::new();
    let mut i: usize = 0;
    while i < commits.len()
        invariant
            i <= commits@.len(),
            all_plain(strs_view(allowed_types@)),
            r@.len() == i,
            forall|j: int|
                0 <= j < i ==> r@[j] == spec_valid_message(
                    #[trigger] commits@[j].1@,
                    strs_view(allowed_types@),
                ),
        decreases commits.len() - i,
    {
        let b = validate_conventional_commit_message(commits[i].1.as_str(), allowed_types);
        r.push(b);
        i += 1;
    }
    r
}

} // verus!
