//! Keywords that mark a breaking change.
use crate::constants::DEFAULT_BREAKING;
use crate::text::{copy_strings, owned, strings_contain, strings_view, strs_view};
use crate::utils::strings;
use vstd::prelude::*;

verus! {

/// The breaking change keywords.
pub struct Breaking {
    pub keywords: Vec<String>,
}

/// The defaults `ds` that `l` lacks, in the order of `ds`.
pub open spec fn missing_from(ds: Seq<Seq<char>>, l: Seq<Seq<char>>) -> Seq<Seq<char>>
    decreases ds.len(),
{
    if ds.len() == 0 {
        Seq::empty()
    } else {
        let rest = missing_from(ds.drop_last(), l);
        if l.contains(ds.last()) {
            rest
        } else {
            rest.push(ds.last())
        }
    }
}

/// The keywords after patching: the defaults that were missing are added
/// at the end.
pub open spec fn patched_keywords(l: Seq<Seq<char>>, ds: Seq<Seq<char>>) -> Seq<Seq<char>> {
    l + missing_from(ds, l)
}

/// Every default is in the patched list.
pub proof fn lemma_defaults_present(l: Seq<Seq<char>>, ds: Seq<Seq<char>>)
    ensures
        forall|i: int| 0 <= i < ds.len() ==> patched_keywords(l, ds).contains(#[trigger] ds[i]),
    decreases ds.len(),
{
    if ds.len() > 0 {
        lemma_defaults_present(l, ds.drop_last());
        let rest = missing_from(ds.drop_last(), l);
        assert forall|i: int| 0 <= i < ds.len() implies patched_keywords(l, ds).contains(
            #[trigger] ds[i],
        ) by {
            if i < ds.len() - 1 {
                assert(ds.drop_last()[i] == ds[i]);
                assert(patched_keywords(l, ds.drop_last()).contains(ds[i]));
                let j = choose|j: int|
                    0 <= j < patched_keywords(l, ds.drop_last()).len() && patched_keywords(
                        l,
                        ds.drop_last(),
                    )[j] == ds[i];
                assert(patched_keywords(l, ds)[j] == ds[i]);
            } else if l.contains(ds.last()) {
                let j = choose|j: int| 0 <= j < l.len() && l[j] == ds.last();
                assert(patched_keywords(l, ds)[j] == ds[i]);
            } else {
                assert(patched_keywords(l, ds)[(l.len() + rest.len()) as int] == ds[i]);
            }
        }
    }
}

/// Nothing is missing from a list that holds every default.
proof fn lemma_none_missing(ds: Seq<Seq<char>>, l: Seq<Seq<char>>)
    requires
        forall|i: int| 0 <= i < ds.len() ==> l.contains(#[trigger] ds[i]),
    ensures
        missing_from(ds, l) == Seq::<Seq<char>>::empty(),
    decreases ds.len(),
{
    if ds.len() > 0 {
        assert forall|i: int| 0 <= i < ds.drop_last().len() implies l.contains(
            #[trigger] ds.drop_last()[i],
        ) by {
            assert(ds.drop_last()[i] == ds[i]);
        }
        lemma_none_missing(ds.drop_last(), l);
        assert(l.contains(ds[ds.len() - 1]));
    }
}

/// Patching the keywords twice is the same as patching them once.
pub proof fn lemma_patch_keywords_idempotent(l: Seq<Seq<char>>, ds: Seq<Seq<char>>)
    ensures
        patched_keywords(patched_keywords(l, ds), ds) == patched_keywords(l, ds),
{
    lemma_defaults_present(l, ds);
    lemma_none_missing(ds, patched_keywords(l, ds));
    assert(patched_keywords(patched_keywords(l, ds), ds) =~= patched_keywords(l, ds));
}

impl Breaking {
    /// Adds the default keywords that are missing.
    pub fn patch(&mut self)
        ensures
            strings_view(final(self).keywords@) == patched_keywords(
                strings_view(old(self).keywords@),
                strs_view(DEFAULT_BREAKING@),
            ),
    {
        let existing = copy_strings(&self.keywords);
        let ghost l = strings_view(old(self).keywords@);
        let ghost ds = strs_view(DEFAULT_BREAKING@);
        let mut i: usize = 0;
        assert(ds.take(0) =~= Seq::<Seq<char>>::empty());
        assert(strings_view(self.keywords@) =~= l + missing_from(ds.take(0), l));
        while i < DEFAULT_BREAKING.len()
            invariant
                i <= ds.len() == DEFAULT_BREAKING@.len(),
                ds == strs_view(DEFAULT_BREAKING@),
                strings_view(existing@) == l,
                strings_view(self.keywords@) == l + missing_from(ds.take(i as int), l),
            decreases DEFAULT_BREAKING.len() - i,
        {
            let kw = DEFAULT_BREAKING[i];
            assert(ds.take(i + 1).drop_last() == ds.take(i as int));
            assert(ds.take(i + 1).last() == kw@);
            if !strings_contain(&existing, kw) {
                let ghost before = self.keywords@;
                self.keywords.push(owned(kw));
                assert(strings_view(self.keywords@) =~= strings_view(before).push(kw@));
            }
            i += 1;
        }
        assert(ds.take(ds.len() as int) == ds);
    }
}

impl Default for Breaking {
    fn default() -> (r: Self)
        ensures
            strings_view(r.keywords@) == strs_view(DEFAULT_BREAKING@),
    {
        Breaking { keywords: strings(&DEFAULT_BREAKING) }
    }
}

} // verus!
