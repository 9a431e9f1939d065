//! The default target branch.
use crate::constants::DEFAULT_BRANCH;
use crate::text::owned;
use vstd::prelude::*;

verus! {

/// Optional default target branch (e.g. "main", "develop").
pub struct CWDefault {
    pub branch: Option<String>,
}

impl Default for CWDefault {
    fn default() -> (r: Self)
        ensures
            r.branch matches Some(b) && b@ == DEFAULT_BRANCH@,
    {
        CWDefault { branch: Some(owned(DEFAULT_BRANCH)) }
    }
}

} // verus!
