//! The current branch.
use vstd::prelude::*;

verus! {

/// Why there is no current branch.
#[derive(Clone, Copy, Debug, PartialEq, Eq, Structural)]
pub enum BranchError {
    /// `HEAD` is a branch without a readable name.
    NoName,
    /// `HEAD` does not point to a branch.
    Detached,
}

/// The current branch, from what `HEAD` is: whether it is a branch, and
/// its short name.
pub fn get_current_branch(head_is_branch: bool, shorthand: Option<String>) -> (r: Result<
    String,
    BranchError,
>)
    ensures
        head_is_branch ==> r == match shorthand {
            Some(s) => Ok(s),
            None => Err(BranchError::NoName),
        },
        !head_is_branch ==> r == Err::<String, BranchError>(BranchError::Detached),
{
    if head_is_branch {
        match shorthand {
            Some(s) => Ok(s),
            None => Err(BranchError::NoName),
        }
    } else {
        Err(BranchError::Detached)
    }
}

} // verus!
