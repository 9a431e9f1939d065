//! An ordered map keyed by strings.
//!
//! The entries are kept in strictly increasing key order (code-point
//! lexicographic, the order of `String`), so iterating by index visits the
//! keys in sorted order, as a `BTreeMap<String, V>` does.
use crate::text::{
    copy_strings, strings_view, chars_eq, chars_lt, chars_of, lemma_str_lt_asymmetric, lemma_str_lt_irreflexive,
    lemma_str_lt_total, lemma_str_lt_transitive, str_lt, strictly_sorted,
};
use vstd::prelude::*;

verus! {

/// The keys of a map in increasing order.
pub open spec fn sorted_keys<V>(m: Map<Seq<char>, V>) -> Seq<Seq<char>> {
    choose|ks: Seq<Seq<char>>| lists_keys_of(ks, m)
}

/// `ks` lists the keys of `m` in strictly increasing order.
pub open spec fn lists_keys_of<V>(ks: Seq<Seq<char>>, m: Map<Seq<char>, V>) -> bool {
    &&& strictly_sorted(ks)
    &&& forall|k: Seq<char>| #[trigger] ks.contains(k) <==> m.contains_key(k)
}

/// Keys listed in order are the sorted keys.
pub proof fn lemma_sorted_keys_of<V>(ks: Seq<Seq<char>>, m: Map<Seq<char>, V>)
    requires
        lists_keys_of(ks, m),
    ensures
        sorted_keys(m) == ks,
{
    let c = sorted_keys(m);
    assert(lists_keys_of(c, m));
    assert forall|k: Seq<char>| #[trigger] c.contains(k) <==> ks.contains(k) by {
        assert(c.contains(k) <==> m.contains_key(k));
        assert(ks.contains(k) <==> m.contains_key(k));
    }
    lemma_sorted_unique(c, ks);
}

/// Two strictly sorted sequences with the same elements are equal.
pub proof fn lemma_sorted_unique(a: Seq<Seq<char>>, b: Seq<Seq<char>>)
    requires
        strictly_sorted(a),
        strictly_sorted(b),
        forall|k: Seq<char>| #[trigger] a.contains(k) <==> b.contains(k),
    ensures
        a == b,
    decreases a.len(),
{
    if a.len() == 0 {
        if b.len() > 0 {
            assert(b.contains(b[0]));
            assert(a.contains(b[0]));
        }
        assert(a =~= b);
    } else {
        assert(a.contains(a[0]));
        assert(b.contains(a[0]));
        assert(b.len() > 0);
        assert(b.contains(b[0]));
        assert(a.contains(b[0]));
        let ia = choose|i: int| 0 <= i < a.len() && a[i] == b[0];
        let ib = choose|i: int| 0 <= i < b.len() && b[i] == a[0];
        if ia > 0 {
            assert(str_lt(a[0], a[ia]));
            if ib > 0 {
                assert(str_lt(b[0], b[ib]));
                lemma_str_lt_asymmetric(a[0], b[0]);
            } else {
                lemma_str_lt_irreflexive(a[0]);
            }
        }
        assert(a[0] == b[0]);
        let a1 = a.drop_first();
        let b1 = b.drop_first();
        assert forall|k: Seq<char>| #[trigger] a1.contains(k) <==> b1.contains(k) by {
            if a1.contains(k) {
                let i = choose|i: int| 0 <= i < a1.len() && a1[i] == k;
                assert(a[i + 1] == k);
                assert(a.contains(k));
                assert(b.contains(k));
                assert(str_lt(a[0], k));
                let j = choose|j: int| 0 <= j < b.len() && b[j] == k;
                if j == 0 {
                    lemma_str_lt_irreflexive(k);
                }
                assert(b1[j - 1] == k);
            }
            if b1.contains(k) {
                let i = choose|i: int| 0 <= i < b1.len() && b1[i] == k;
                assert(b[i + 1] == k);
                assert(b.contains(k));
                assert(a.contains(k));
                assert(str_lt(b[0], k));
                let j = choose|j: int| 0 <= j < a.len() && a[j] == k;
                if j == 0 {
                    lemma_str_lt_irreflexive(k);
                }
                assert(a1[j - 1] == k);
            }
        }
        assert forall|i: int, j: int| 0 <= i < j < a1.len() implies str_lt(
            #[trigger] a1[i],
            #[trigger] a1[j],
        ) by {
            assert(a1[i] == a[i + 1] && a1[j] == a[j + 1]);
        }
        assert forall|i: int, j: int| 0 <= i < j < b1.len() implies str_lt(
            #[trigger] b1[i],
            #[trigger] b1[j],
        ) by {
            assert(b1[i] == b[i + 1] && b1[j] == b[j + 1]);
        }
        lemma_sorted_unique(a1, b1);
        assert(a.len() == b.len());
        assert forall|i: int| 0 <= i < a.len() implies a[i] == b[i] by {
            if i > 0 {
                assert(a[i] == a1[i - 1]);
                assert(b[i] == b1[i - 1]);
            }
        }
        assert(a =~= b);
    }
}

/// A map from strings to values, in key order.
pub struct StrMap<V> {
    entries: Vec<(String, V)>,
}

impl<V> StrMap<V> {
    /// The keys, in order.
    pub closed spec fn keys(&self) -> Seq<Seq<char>> {
        Seq::new(self.entries@.len(), |i: int| self.entries@[i].0@)
    }

    /// The values, in key order.
    pub closed spec fn values(&self) -> Seq<V> {
        Seq::new(self.entries@.len(), |i: int| self.entries@[i].1)
    }

    /// Well-formedness: keys strictly increasing.
    pub open spec fn wf(&self) -> bool {
        strictly_sorted(self.keys())
    }

    /// The number of entries.
    pub open spec fn size(&self) -> nat {
        self.keys().len()
    }

    /// Whether `k` is a key.
    pub open spec fn has(&self, k: Seq<char>) -> bool {
        self.keys().contains(k)
    }

    /// The position of key `k`.
    pub open spec fn pos(&self, k: Seq<char>) -> int {
        choose|i: int| 0 <= i < self.keys().len() && self.keys()[i] == k
    }

    /// The map that the entries describe.
    pub open spec fn as_map(&self) -> Map<Seq<char>, V> {
        Map::new(|k: Seq<char>| self.has(k), |k: Seq<char>| self.values()[self.pos(k)])
    }

    /// The keys of a well-formed map are its keys in increasing order.
    pub proof fn lemma_sorted_keys(&self)
        requires
            self.wf(),
        ensures
            sorted_keys(self.as_map()) == self.keys(),
            lists_keys_of(self.keys(), self.as_map()),
    {
        assert(lists_keys_of(self.keys(), self.as_map()));
        let ks = sorted_keys(self.as_map());
        assert(lists_keys_of(ks, self.as_map()));
        lemma_sorted_unique(ks, self.keys());
    }

    /// In a well-formed map, the entry at position `i` is the one of its key.
    pub proof fn lemma_pos(&self, i: int)
        requires
            self.wf(),
            0 <= i < self.size(),
        ensures
            self.has(self.keys()[i]),
            self.pos(self.keys()[i]) == i,
            self.as_map().contains_key(self.keys()[i]),
            self.as_map()[self.keys()[i]] == self.values()[i],
    {
        let k = self.keys()[i];
        assert(self.keys()[i] == k);
        let j = self.pos(k);
        assert(0 <= j < self.keys().len() && self.keys()[j] == k);
        if j < i {
            assert(str_lt(self.keys()[j], self.keys()[i]));
            lemma_str_lt_irreflexive(k);
        } else if j > i {
            assert(str_lt(self.keys()[i], self.keys()[j]));
            lemma_str_lt_irreflexive(k);
        }
    }

    /// An empty map.
    pub fn new() -> (m: Self)
        ensures
            m.wf(),
            m.size() == 0,
            m.as_map() == Map::<Seq<char>, V>::empty(),
    {
        let m = StrMap { entries: Vec::new() };
        assert(m.as_map() =~= Map::<Seq<char>, V>::empty());
        m
    }

    /// The number of entries.
    pub fn len(&self) -> (n: usize)
        ensures
            n == self.size(),
    {
        self.entries.len()
    }

    /// The key at position `i`.
    pub fn key_at(&self, i: usize) -> (k: &String)
        requires
            i < self.size(),
        ensures
            k@ == self.keys()[i as int],
    {
        &self.entries[i].0
    }

    /// The value at position `i`.
    pub fn value_at(&self, i: usize) -> (v: &V)
        requires
            i < self.size(),
        ensures
            *v == self.values()[i as int],
    {
        &self.entries[i].1
    }

    /// The first position whose key is not below `k`, and whether the key
    /// there is `k`.
    fn search(&self, k: &[char]) -> (r: (usize, bool))
        requires
            self.wf(),
        ensures
            r.0 <= self.size(),
            forall|j: int| 0 <= j < r.0 ==> str_lt(#[trigger] self.keys()[j], k@),
            r.0 < self.size() ==> !str_lt(self.keys()[r.0 as int], k@),
            r.1 == (r.0 < self.size() && self.keys()[r.0 as int] == k@),
            r.1 == self.has(k@),
            r.1 ==> self.pos(k@) == r.0,
    {
        let mut i: usize = 0;
        let n = self.entries.len();
        while i < n
            invariant
                i <= n == self.entries@.len() == self.keys().len(),
                self.wf(),
                forall|j: int| 0 <= j < i ==> str_lt(#[trigger] self.keys()[j], k@),
            decreases n - i,
        {
            let key = chars_of(self.entries[i].0.as_str());
            assert(key@ == self.keys()[i as int]);
            if !chars_lt(key.as_slice(), k) {
                let eq = chars_eq(key.as_slice(), k);
                proof {
                    if !eq {
                        assert forall|j: int| 0 <= j < self.keys().len() implies self.keys()[j]
                            != k@ by {
                            if j < i {
                                lemma_str_lt_irreflexive(k@);
                            } else if j > i {
                                assert(str_lt(self.keys()[i as int], self.keys()[j]));
                                lemma_str_lt_total(self.keys()[i as int], k@);
                                if self.keys()[j] == k@ {
                                    lemma_str_lt_asymmetric(self.keys()[i as int], k@);
                                }
                            }
                        }
                    } else {
                        self.lemma_pos(i as int);
                    }
                }
                return (i, eq);
            }
            i += 1;
        }
        proof {
            assert forall|j: int| 0 <= j < self.keys().len() implies self.keys()[j] != k@ by {
                lemma_str_lt_irreflexive(k@);
            }
        }
        (i, false)
    }

    /// The value of key `k`, if any.
    pub fn get(&self, k: &str) -> (r: Option<&V>)
        requires
            self.wf(),
        ensures
            match r {
                Some(v) => self.as_map().contains_key(k@) && *v == self.as_map()[k@],
                None => !self.as_map().contains_key(k@),
            },
    {
        let kc = chars_of(k);
        let (i, found) = self.search(kc.as_slice());
        if found {
            proof {
                self.lemma_pos(i as int);
            }
            Some(&self.entries[i].1)
        } else {
            None
        }
    }

    /// Whether `k` is a key.
    pub fn contains_key(&self, k: &str) -> (b: bool)
        requires
            self.wf(),
        ensures
            b == self.as_map().contains_key(k@),
    {
        let kc = chars_of(k);
        let (_, found) = self.search(kc.as_slice());
        found
    }

    /// Sets the value of key `k`, replacing any earlier value.
    pub fn insert(&mut self, k: String, v: V)
        requires
            old(self).wf(),
        ensures
            final(self).wf(),
            final(self).as_map() == old(self).as_map().insert(k@, v),
    {
        let kc = chars_of(k.as_str());
        let (i, found) = self.search(kc.as_slice());
        let ghost old_keys = self.keys();
        let ghost old_vals = self.values();
        let ghost kv = k@;
        if found {
            self.entries.set(i, (k, v));
            proof {
                assert(self.keys() =~= old_keys);
                assert(self.values() =~= old_vals.update(i as int, v));
                assert forall|kk: Seq<char>| #[trigger] self.as_map().contains_key(kk) == old(
                    self,
                ).as_map().insert(kv, v).contains_key(kk) by {}
                assert forall|kk: Seq<char>| self.as_map().contains_key(kk) implies #[trigger] self.as_map()[kk]
                    == old(self).as_map().insert(kv, v)[kk] by {
                    let p = choose|p: int| 0 <= p < self.keys().len() && self.keys()[p] == kk;
                    self.lemma_pos(p);
                    old(self).lemma_pos(p);
                }
                assert(self.as_map() =~= old(self).as_map().insert(kv, v));
            }
        } else {
            self.entries.insert(i, (k, v));
            proof {
                assert(self.keys() =~= old_keys.insert(i as int, kv));
                assert(self.values() =~= old_vals.insert(i as int, v));
                assert forall|a: int, b: int| 0 <= a < b < self.keys().len() implies str_lt(
                    #[trigger] self.keys()[a],
                    #[trigger] self.keys()[b],
                ) by {
                    if b < i {
                    } else if b == i {
                    } else if a < i {
                        assert(self.keys()[b] == old_keys[b - 1]);
                        if i < old_keys.len() {
                            lemma_str_lt_total(old_keys[i as int], kv);
                            assert(str_lt(kv, old_keys[i as int]));
                            if b - 1 > i {
                                assert(str_lt(old_keys[i as int], old_keys[b - 1]));
                                lemma_str_lt_transitive(kv, old_keys[i as int], old_keys[b - 1]);
                            }
                            lemma_str_lt_transitive(self.keys()[a], kv, self.keys()[b]);
                        }
                    } else if a == i {
                        lemma_str_lt_total(old_keys[i as int], kv);
                        if b - 1 > i {
                            assert(str_lt(old_keys[i as int], old_keys[b - 1]));
                            lemma_str_lt_transitive(kv, old_keys[i as int], old_keys[b - 1]);
                        }
                    } else {
                        assert(self.keys()[a] == old_keys[a - 1]);
                        assert(self.keys()[b] == old_keys[b - 1]);
                    }
                }
                assert forall|kk: Seq<char>| #[trigger] self.as_map().contains_key(kk) == old(
                    self,
                ).as_map().insert(kv, v).contains_key(kk) by {
                    if old(self).has(kk) {
                        let p = choose|p: int| 0 <= p < old_keys.len() && old_keys[p] == kk;
                        if p < i {
                            assert(self.keys()[p] == kk);
                        } else {
                            assert(self.keys()[p + 1] == kk);
                        }
                    }
                    if self.has(kk) {
                        let p = choose|p: int| 0 <= p < self.keys().len() && self.keys()[p] == kk;
                        if p < i {
                            assert(old_keys[p] == kk);
                        } else if p > i {
                            assert(old_keys[p - 1] == kk);
                        }
                    }
                    assert(self.keys()[i as int] == kv);
                }
                assert forall|kk: Seq<char>| self.as_map().contains_key(kk) implies #[trigger] self.as_map()[kk]
                    == old(self).as_map().insert(kv, v)[kk] by {
                    let p = choose|p: int| 0 <= p < self.keys().len() && self.keys()[p] == kk;
                    self.lemma_pos(p);
                    if p < i {
                        old(self).lemma_pos(p);
                    } else if p > i {
                        old(self).lemma_pos(p - 1);
                    }
                }
                assert(self.as_map() =~= old(self).as_map().insert(kv, v));
            }
        }
    }

    /// Removes key `k`, returning its value if it was there.
    pub fn remove(&mut self, k: &str) -> (r: Option<V>)
        requires
            old(self).wf(),
        ensures
            final(self).wf(),
            final(self).as_map() == old(self).as_map().remove(k@),
            match r {
                Some(v) => old(self).as_map().contains_key(k@) && v == old(self).as_map()[k@],
                None => !old(self).as_map().contains_key(k@),
            },
    {
        let kc = chars_of(k);
        let (i, found) = self.search(kc.as_slice());
        let ghost old_keys = self.keys();
        let ghost old_vals = self.values();
        if found {
            proof {
                old(self).lemma_pos(i as int);
            }
            let (_, v) = self.entries.remove(i);
            proof {
                assert(self.keys() =~= old_keys.remove(i as int));
                assert(self.values() =~= old_vals.remove(i as int));
                assert forall|a: int, b: int| 0 <= a < b < self.keys().len() implies str_lt(
                    #[trigger] self.keys()[a],
                    #[trigger] self.keys()[b],
                ) by {
                    let a0 = if a < i {
                        a
                    } else {
                        a + 1
                    };
                    let b0 = if b < i {
                        b
                    } else {
                        b + 1
                    };
                    assert(self.keys()[a] == old_keys[a0]);
                    assert(self.keys()[b] == old_keys[b0]);
                }
                assert forall|kk: Seq<char>| #[trigger] self.as_map().contains_key(kk) == old(
                    self,
                ).as_map().remove(k@).contains_key(kk) by {
                    if self.has(kk) {
                        let p = choose|p: int| 0 <= p < self.keys().len() && self.keys()[p] == kk;
                        if p < i {
                            assert(old_keys[p] == kk);
                            assert(str_lt(kk, old_keys[i as int]));
                        } else {
                            assert(old_keys[p + 1] == kk);
                            assert(str_lt(old_keys[i as int], kk));
                        }
                        lemma_str_lt_irreflexive(kk);
                    }
                    if old(self).has(kk) && kk != k@ {
                        let p = choose|p: int| 0 <= p < old_keys.len() && old_keys[p] == kk;
                        if p < i {
                            assert(self.keys()[p] == kk);
                        } else {
                            assert(p != i);
                            assert(self.keys()[p - 1] == kk);
                        }
                    }
                }
                assert forall|kk: Seq<char>| self.as_map().contains_key(kk) implies #[trigger] self.as_map()[kk]
                    == old(self).as_map().remove(k@)[kk] by {
                    let p = choose|p: int| 0 <= p < self.keys().len() && self.keys()[p] == kk;
                    self.lemma_pos(p);
                    if p < i {
                        old(self).lemma_pos(p);
                    } else {
                        old(self).lemma_pos(p + 1);
                    }
                }
                assert(self.as_map() =~= old(self).as_map().remove(k@));
            }
            Some(v)
        } else {
            proof {
                assert(self.as_map() =~= old(self).as_map().remove(k@));
            }
            None
        }
    }
}

impl<V: DeepView> StrMap<V> {
    /// The map, with each value taken by its deep view.
    pub open spec fn deep_map(&self) -> Map<Seq<char>, V::V> {
        self.as_map().map_values(|v: V| v.deep_view())
    }
}

/// The list under key `k` after appending `x`; a missing list counts as empty.
pub open spec fn appended<T>(m: Map<Seq<char>, Seq<T>>, k: Seq<char>, x: T) -> Map<Seq<char>, Seq<T>> {
    m.insert(
        k,
        (if m.contains_key(k) {
            m[k]
        } else {
            Seq::empty()
        }).push(x),
    )
}

impl<T: DeepView> StrMap<Vec<T>> {
    /// Appends `x` to the list under key `k`, starting a list if there is none.
    pub fn push_to(&mut self, k: &str, x: T)
        requires
            old(self).wf(),
        ensures
            final(self).wf(),
            final(self).deep_map() == appended(old(self).deep_map(), k@, x.deep_view()),
    {
        let ghost xd = x.deep_view();
        let mut v = match self.remove(k) {
            Some(v) => v,
            None => Vec::new(),
        };
        let ghost before = v;
        assert(before.deep_view() =~= (if old(self).deep_map().contains_key(k@) {
            old(self).deep_map()[k@]
        } else {
            Seq::empty()
        }));
        v.push(x);
        assert(v.deep_view() =~= before.deep_view().push(xd));
        self.insert(crate::text::owned(k), v);
        assert(self.deep_map() =~= appended(old(self).deep_map(), k@, xd));
    }
}

impl StrMap<String> {
    /// The map, with each value taken by its view.
    pub open spec fn text_map(&self) -> Map<Seq<char>, Seq<char>> {
        self.as_map().map_values(|v: String| v@)
    }

    /// Sets key `k` to the text `v`.
    pub fn insert_text(&mut self, k: String, v: String)
        requires
            old(self).wf(),
        ensures
            final(self).wf(),
            final(self).text_map() == old(self).text_map().insert(k@, v@),
    {
        let ghost kv = k@;
        let ghost vv = v@;
        self.insert(k, v);
        assert(self.text_map() =~= old(self).text_map().insert(kv, vv));
    }

    /// A copy of the map.
    pub fn copy_texts(&self) -> (r: Self)
        requires
            self.wf(),
        ensures
            r.wf(),
            r.keys() == self.keys(),
            r.text_map() == self.text_map(),
    {
        let mut entries: Vec<(String, String)> = Vec::new();
        let mut i: usize = 0;
        while i < self.entries.len()
            invariant
                i <= self.entries@.len(),
                entries@.len() == i,
                forall|j: int| 0 <= j < i ==> #[trigger] entries@[j] == self.entries@[j],
            decreases self.entries.len() - i,
        {
            let k = self.entries[i].0.clone();
            let v = self.entries[i].1.clone();
            entries.push((k, v));
            i += 1;
        }
        let r = StrMap { entries };
        assert(r.keys() =~= self.keys());
        assert(r.values() =~= self.values());
        assert(r.as_map() =~= self.as_map());
        r
    }
}

impl StrMap<Vec<String>> {
    /// The map, with each list of strings taken by its view.
    pub open spec fn lists_map(&self) -> Map<Seq<char>, Seq<Seq<char>>> {
        self.as_map().map_values(|v: Vec<String>| strings_view(v@))
    }

    /// Sets key `k` to the list `v`.
    pub fn insert_list(&mut self, k: String, v: Vec<String>)
        requires
            old(self).wf(),
        ensures
            final(self).wf(),
            final(self).lists_map() == old(self).lists_map().insert(k@, strings_view(v@)),
    {
        let ghost kv = k@;
        let ghost vv = strings_view(v@);
        self.insert(k, v);
        assert(self.lists_map() =~= old(self).lists_map().insert(kv, vv));
    }

    /// A copy of the map.
    pub fn copy_lists(&self) -> (r: Self)
        requires
            self.wf(),
        ensures
            r.wf(),
            r.keys() == self.keys(),
            r.lists_map() == self.lists_map(),
    {
        let mut entries: Vec<(String, Vec<String>)> = Vec::new();
        let mut i: usize = 0;
        while i < self.entries.len()
            invariant
                i <= self.entries@.len(),
                entries@.len() == i,
                forall|j: int|
                    0 <= j < i ==> #[trigger] entries@[j].0 == self.entries@[j].0 && strings_view(
                        entries@[j].1@,
                    ) == strings_view(self.entries@[j].1@),
            decreases self.entries.len() - i,
        {
            let k = self.entries[i].0.clone();
            let v = copy_strings(&self.entries[i].1);
            entries.push((k, v));
            i += 1;
        }
        let r = StrMap { entries };
        assert(r.keys() =~= self.keys());
        assert forall|k: Seq<char>| #[trigger] r.lists_map().contains_key(k) implies r.lists_map()[k]
            == self.lists_map()[k] by {
            assert(r.pos(k) == self.pos(k));
        }
        assert(r.lists_map() =~= self.lists_map());
        r
    }
}

} // verus!
