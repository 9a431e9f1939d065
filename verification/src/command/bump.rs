//! The bump subcommand: the range of commits it looks at.
use crate::text::{chars_of, chars_eq, owned};
use vstd::prelude::*;

verus! {

/// What the user gave on the command line.
pub struct BumpArgs {
    /// Print only the new version.
    pub ci: bool,
    /// Create a tag for the new version.
    pub tag: bool,
    /// Push the new tag.
    pub push: bool,
    /// The version to bump from.
    pub from: Option<String>,
    /// The reference to bump up to.
    pub to: String,
}

/// The end of the range: the reference given, unless it is `HEAD`, in which
/// case the configured default branch, or `main`.
pub fn bump_target(to: &str, default_branch: &Option<String>) -> (r: String)
    ensures
        r@ == if to@ != "HEAD"@ {
            to@
        } else {
            match default_branch {
                Some(b) => b@,
                None => "main"@,
            }
        },
{
    let head = chars_of("HEAD");
    let given = chars_of(to);
    if !chars_eq(given.as_slice(), head.as_slice()) {
        owned(to)
    } else {
        match default_branch {
            Some(b) => owned(b.as_str()),
            None => owned("main"),
        }
    }
}

/// The start of the range: the version given, else the latest tag, else
/// `v0.0.0`.
pub fn bump_start(from: Option<String>, latest_tag: Option<String>) -> (r: String)
    ensures
        r@ == match from {
            Some(f) => f@,
            None => match latest_tag {
                Some(t) => t@,
                None => "v0.0.0"@,
            },
        },
{
    match from {
        Some(f) => f,
        None => match latest_tag {
            Some(t) => t,
            None => owned("v0.0.0"),
        },
    }
}

} // verus!
