//! Repository web addresses.
use crate::text::{
    chars_of, has_prefix, push_chars, slice_chars, starts_with, string_of, strip_trailing,
    strip_trailing_chars,
};
use vstd::prelude::*;

verus! {

/// The web address of a GitHub remote: an SSH remote
/// `git@github.com:owner/repo.git` becomes `https://github.com/owner/repo`,
/// an HTTPS remote loses its trailing `.git`s, and any other remote has
/// none.
pub open spec fn spec_github_web_url(u: Seq<char>) -> Option<Seq<char>> {
    if starts_with(u, "git@github.com:"@) {
        Some(strip_trailing("https://github.com/"@ + u.skip(15), ".git"@))
    } else if starts_with(u, "https://github.com/"@) {
        Some(strip_trailing(u, ".git"@))
    } else {
        None
    }
}

/// Converts a remote URL to the repository's GitHub web address.
pub fn to_github_web_url(remote_url: &str) -> (r: Option<String>)
    ensures
        match spec_github_web_url(remote_url@) {
            Some(w) => r matches Some(x) && x@ == w,
            None => r is None,
        },
{
    proof {
        reveal_strlit("git@github.com:");
    }
    let u = chars_of(remote_url);
    let ssh = chars_of("git@github.com:");
    let https = chars_of("https://github.com/");
    let dotgit = chars_of(".git");
    if has_prefix(u.as_slice(), ssh.as_slice()) {
        let mut w: Vec<char> = https.clone();
        let rest = slice_chars(u.as_slice(), ssh.len(), u.len());
        let mut i: usize = 0;
        while i < rest.len()
            invariant
                i <= rest@.len(),
                w@ == "https://github.com/"@ + rest@.take(i as int),
            decreases rest.len() - i,
        {
            w.push(rest[i]);
            i += 1;
            assert(rest@.take(i as int) == rest@.take(i - 1).push(rest@[i - 1]));
        }
        assert(rest@.take(rest@.len() as int) == rest@);
        let t = strip_trailing_chars(w.as_slice(), dotgit.as_slice());
        Some(string_of(t.as_slice()))
    } else if has_prefix(u.as_slice(), https.as_slice()) {
        let t = strip_trailing_chars(u.as_slice(), dotgit.as_slice());
        Some(string_of(t.as_slice()))
    } else {
        None
    }
}

} // verus!
