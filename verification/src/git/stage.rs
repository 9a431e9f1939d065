//! The files of the working tree as the staging prompt lists them.
use crate::text::{owned, strictly_sorted, strings_view};
use crate::textmap::StrMap;
use vstd::prelude::*;

verus! {

/// What the status of a path says of its index entry.
#[derive(Clone, Copy, Debug, PartialEq, Eq, Structural)]
pub struct IndexStatus {
    pub new: bool,
    pub modified: bool,
    pub deleted: bool,
    pub renamed: bool,
    pub typechange: bool,
}

/// A path whose index entry is new, modified, deleted, renamed or changed
/// in type has a staged change.
pub open spec fn is_staged(s: IndexStatus) -> bool {
    s.new || s.modified || s.deleted || s.renamed || s.typechange
}

/// The keys of a map, in order.
fn keys_of(m: &StrMap<bool>) -> (r: Vec<String>)
    requires
        m.wf(),
    ensures
        strings_view(r@) == m.keys(),
{
    let mut r: Vec<String> = Vec::new();
    let mut i: usize = 0;
    while i < m.len()
        invariant
            i <= m.size(),
            r@.len() == i,
            forall|j: int| 0 <= j < i ==> #[trigger] r@[j]@ == m.keys()[j],
        decreases m.size() - i,
    {
        r.push(owned(m.key_at(i).as_str()));
        i += 1;
    }
    assert(strings_view(r@) =~= m.keys());
    r
}

/// From the status entries, each a path and the status of its index entry:
/// every path, sorted and without repeats, and those with a staged change,
/// sorted.
pub fn status_files(entries: &Vec<(String, IndexStatus)>) -> (r: (Vec<String>, Vec<String>))
    ensures
        strictly_sorted(strings_view(r.0@)),
        strictly_sorted(strings_view(r.1@)),
        forall|k: Seq<char>| #[trigger]
            strings_view(r.0@).contains(k) <==> exists|i: int|
                0 <= i < entries@.len() && (#[trigger] entries@[i]).0@ == k,
        forall|k: Seq<char>| #[trigger]
            strings_view(r.1@).contains(k) <==> exists|i: int|
                0 <= i < entries@.len() && (#[trigger] entries@[i]).0@ == k && is_staged(entries@[i].1),
{
    let mut all: StrMap<bool> = StrMap::new();
    let mut staged: StrMap<bool> = StrMap::new();
    let mut i: usize = 0;
    while i < entries.len()
        invariant
            i <= entries@.len(),
            all.wf(),
            staged.wf(),
            forall|k: Seq<char>| #[trigger]
                all.as_map().contains_key(k) <==> exists|j: int|
                    0 <= j < i && (#[trigger] entries@[j]).0@ == k,
            forall|k: Seq<char>| #[trigger]
                staged.as_map().contains_key(k) <==> exists|j: int|
                    0 <= j < i && (#[trigger] entries@[j]).0@ == k && is_staged(entries@[j].1),
        decreases entries.len() - i,
    {
        let (path, st) = &entries[i];
        let staged_change = st.new || st.modified || st.deleted || st.renamed || st.typechange;
        all.insert(owned(path.as_str()), true);
        if staged_change {
            staged.insert(owned(path.as_str()), true);
        }
        proof {
            assert forall|k: Seq<char>| #[trigger]
                all.as_map().contains_key(k) <==> exists|j: int|
                    0 <= j < i + 1 && (#[trigger] entries@[j]).0@ == k by {
                if k == path@ {
                    assert(entries@[i as int].0@ == k);
                }
            }
            assert forall|k: Seq<char>| #[trigger]
                staged.as_map().contains_key(k) <==> exists|j: int|
                    0 <= j < i + 1 && (#[trigger] entries@[j]).0@ == k && is_staged(entries@[j].1) by {
                if k == path@ && staged_change {
                    assert(entries@[i as int].0@ == k);
                }
            }
        }
        i += 1;
    }
    let a = keys_of(&all);
    let s = keys_of(&staged);
    proof {
        assert forall|k: Seq<char>| #[trigger] strings_view(a@).contains(k) <==> all.as_map().contains_key(k) by {}
        assert forall|k: Seq<char>| #[trigger] strings_view(s@).contains(k) <==> staged.as_map().contains_key(k) by {}
    }
    (a, s)
}

} // verus!
