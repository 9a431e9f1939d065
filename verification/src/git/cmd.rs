//! The outcome of a push.
use crate::text::{owned, push_str, string_push};
use vstd::prelude::*;

verus! {

/// The outcome of pushing `branch` to `remote`, from whether `git push`
/// succeeded: the line to report, or the error.
pub fn git_push_with(remote: &str, branch: &str, succeeded: bool) -> (r: Result<String, String>)
    ensures
        succeeded ==> (r matches Ok(m) && m@ == "✅ Pushed to "@ + remote@ + seq![' '] + branch@),
        !succeeded ==> (r matches Err(m) && m@ == "❌ Push failed."@),
{
    if succeeded {
        let mut m = owned("✅ Pushed to ");
        push_str(&mut m, remote);
        string_push(&mut m, ' ');
        push_str(&mut m, branch);
        Ok(m)
    } else {
        Err(owned("❌ Push failed."))
    }
}

} // verus!
