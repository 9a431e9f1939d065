//! Commit scopes allowed for each commit type.
use crate::constants::{COMMON_SCOPES, DEFAULT_FEAT, DEFAULT_FIX, DEFAULT_SCOPES};
use crate::text::{copy_strings, owned, strings_view, strs_view};
use crate::textmap::StrMap;
use crate::utils::strings;
use vstd::prelude::*;

verus! {

/// The scopes: `any` applies to types without a list of their own.
pub struct CommitScopes {
    pub any: Vec<String>,
    pub feat: Vec<String>,
    pub fix: Vec<String>,
    pub extra: StrMap<Vec<String>>,
}

impl CommitScopes {
    pub open spec fn wf(&self) -> bool {
        self.extra.wf()
    }

    /// Every list of scopes by type: the further lists, then `any`, `feat`
    /// and `fix`, which take precedence.
    pub open spec fn all_map(&self) -> Map<Seq<char>, Seq<Seq<char>>> {
        self.extra.lists_map().insert(DEFAULT_SCOPES@, strings_view(self.any@)).insert(
            DEFAULT_FEAT@,
            strings_view(self.feat@),
        ).insert(DEFAULT_FIX@, strings_view(self.fix@))
    }

    /// The scopes that a commit type may use.
    pub open spec fn spec_valid_scopes(&self, commit_type: Seq<char>) -> Seq<Seq<char>> {
        if self.all_map().contains_key(commit_type) {
            self.all_map()[commit_type]
        } else {
            self.all_map()[DEFAULT_SCOPES@]
        }
    }

    /// No scopes at all.
    pub fn empty() -> (r: Self)
        ensures
            r.wf(),
            r.any@.len() == 0,
            r.feat@.len() == 0,
            r.fix@.len() == 0,
            r.extra.size() == 0,
    {
        CommitScopes { any: Vec::new(), feat: Vec::new(), fix: Vec::new(), extra: StrMap::new() }
    }

    /// Every list of scopes, by type.
    pub fn all(&self) -> (r: StrMap<Vec<String>>)
        requires
            self.wf(),
        ensures
            r.wf(),
            r.lists_map() == self.all_map(),
    {
        let mut all = self.extra.copy_lists();
        all.insert_list(owned(DEFAULT_SCOPES), copy_strings(&self.any));
        all.insert_list(owned(DEFAULT_FEAT), copy_strings(&self.feat));
        all.insert_list(owned(DEFAULT_FIX), copy_strings(&self.fix));
        all
    }

    /// The scopes of `commit_type`, or those of `any` when it has none.
    pub fn valid_scopes(&self, commit_type: &str) -> (r: Vec<String>)
        requires
            self.wf(),
        ensures
            strings_view(r@) == self.spec_valid_scopes(commit_type@),
    {
        let all = self.all();
        assert(self.all_map().contains_key(DEFAULT_SCOPES@));
        assert(all.as_map().contains_key(DEFAULT_SCOPES@));
        match all.get(commit_type) {
            Some(v) => copy_strings(v),
            None => match all.get(DEFAULT_SCOPES) {
                Some(v) => copy_strings(v),
                None => Vec::new(),
            },
        }
    }
}

impl Default for CommitScopes {
    fn default() -> (r: Self)
        ensures
            r.wf(),
            strings_view(r.any@) == strs_view(COMMON_SCOPES@),
            r.feat@.len() == 0,
            r.fix@.len() == 0,
            r.extra.size() == 0,
    {
        CommitScopes {
            any: strings(&COMMON_SCOPES),
            feat: Vec::new(),
            fix: Vec::new(),
            extra: StrMap::new(),
        }
    }
}

} // verus!
