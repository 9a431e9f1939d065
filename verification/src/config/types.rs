//! Commit types and their descriptions.
use crate::constants::{DEFAULT_FEAT, DEFAULT_FEAT_MESSAGE, DEFAULT_FIX, DEFAULT_FIX_MESSAGE};
use crate::text::{all_white_space, owned, strictly_sorted, strings_view};
use crate::textmap::StrMap;
use crate::utils::is_blank;
use vstd::prelude::*;

verus! {

/// The commit types: `feat`, `fix`, and any further ones, each with a
/// description.
pub struct CommitTypes {
    pub feat: String,
    pub fix: String,
    pub extra: StrMap<String>,
}

/// A description that is blank is replaced by the default one.
pub open spec fn patched_message(m: Seq<char>, d: Seq<char>) -> Seq<char> {
    if all_white_space(m) {
        d
    } else {
        m
    }
}

impl CommitTypes {
    pub open spec fn wf(&self) -> bool {
        self.extra.wf()
    }

    /// Every type with its description: the further types, then `feat`
    /// and `fix`, which take precedence.
    pub open spec fn all_map(&self) -> Map<Seq<char>, Seq<char>> {
        self.extra.text_map().insert(DEFAULT_FEAT@, self.feat@).insert(DEFAULT_FIX@, self.fix@)
    }

    /// Fills blank descriptions of `feat` and `fix` with the defaults.
    pub fn patch(&mut self)
        ensures
            final(self).feat@ == patched_message(old(self).feat@, DEFAULT_FEAT_MESSAGE@),
            final(self).fix@ == patched_message(old(self).fix@, DEFAULT_FIX_MESSAGE@),
            final(self).extra == old(self).extra,
    {
        if is_blank(self.feat.as_str()) {
            self.feat = owned(DEFAULT_FEAT_MESSAGE);
        }
        if is_blank(self.fix.as_str()) {
            self.fix = owned(DEFAULT_FIX_MESSAGE);
        }
    }

    /// Every type with its description, in type order.
    pub fn all(&self) -> (r: StrMap<String>)
        requires
            self.wf(),
        ensures
            r.wf(),
            r.text_map() == self.all_map(),
    {
        let mut all = self.extra.copy_texts();
        all.insert_text(owned(DEFAULT_FEAT), self.feat.clone());
        all.insert_text(owned(DEFAULT_FIX), self.fix.clone());
        all
    }

    /// The allowed type names, sorted.
    pub fn allowed(&self) -> (r: Vec<String>)
        requires
            self.wf(),
        ensures
            strictly_sorted(strings_view(r@)),
            forall|k: Seq<char>| #[trigger]
                strings_view(r@).contains(k) <==> self.all_map().contains_key(k),
    {
        let all = self.all();
        let mut r: Vec<String> = Vec::new();
        let mut i: usize = 0;
        while i < all.len()
            invariant
                i <= all.size(),
                all.wf(),
                r@.len() == i,
                forall|j: int| 0 <= j < i ==> #[trigger] r@[j]@ == all.keys()[j],
            decreases all.size() - i,
        {
            r.push(all.key_at(i).clone());
            i += 1;
        }
        assert(strings_view(r@) =~= all.keys());
        proof {
            assert forall|k: Seq<char>| #[trigger]
                strings_view(r@).contains(k) <==> self.all_map().contains_key(k) by {
                assert(all.text_map().contains_key(k) == all.has(k));
            }
        }
        r
    }
}

impl Default for CommitTypes {
    fn default() -> (r: Self)
        ensures
            r.wf(),
            r.feat@ == DEFAULT_FEAT_MESSAGE@,
            r.fix@ == DEFAULT_FIX_MESSAGE@,
            r.extra.size() == 0,
    {
        CommitTypes {
            feat: owned(DEFAULT_FEAT_MESSAGE),
            fix: owned(DEFAULT_FIX_MESSAGE),
            extra: StrMap::new(),
        }
    }
}

} // verus!
