//! Which commit types bump the minor and the patch version.
use crate::config::{ensure_member, ensure_member_exec};
use crate::constants::{DEFAULT_FEAT, DEFAULT_FIX};
use crate::text::strings_view;
use crate::utils::strings;
use vstd::prelude::*;

verus! {

/// The commit types that bump the minor and the patch version.
pub struct CWVersioning {
    pub minor: Vec<String>,
    pub patch: Vec<String>,
}

impl CWVersioning {
    /// Makes sure `feat` bumps the minor and `fix` the patch version.
    pub fn patch(&mut self)
        ensures
            strings_view(final(self).minor@) == ensure_member(
                strings_view(old(self).minor@),
                DEFAULT_FEAT@,
            ),
            strings_view(final(self).patch@) == ensure_member(
                strings_view(old(self).patch@),
                DEFAULT_FIX@,
            ),
    {
        ensure_member_exec(&mut self.minor, DEFAULT_FEAT);
        ensure_member_exec(&mut self.patch, DEFAULT_FIX);
    }
}

impl Default for CWVersioning {
    fn default() -> (r: Self)
        ensures
            strings_view(r.minor@) == seq![DEFAULT_FEAT@],
            strings_view(r.patch@) == seq![DEFAULT_FIX@],
    {
        let r = CWVersioning { minor: strings(&[DEFAULT_FEAT]), patch: strings(&[DEFAULT_FIX]) };
        assert(strings_view(r.minor@) =~= seq![DEFAULT_FEAT@]);
        assert(strings_view(r.patch@) =~= seq![DEFAULT_FIX@]);
        r
    }
}

} // verus!
