//! The fix file: for each commit to reword, its old and its new message.
use crate::constants::COMMIT_FIX_FILE_NAME;
use crate::text::{chars_of, owned, push_str, str_eq, string_push, strings_view};
use crate::textmap::StrMap;
use vstd::prelude::*;

verus! {

/// One commit to reword.
pub struct CommitFixEntry {
    pub hash: String,
    pub original_message: String,
    pub new_message: String,
    pub timestamp: Option<String>,
}

/// The list of commits to reword.
pub struct CommitFixFile {
    pub fixes: Vec<CommitFixEntry>,
}

/// `i` is the first entry with hash `h`.
pub open spec fn is_first_with_hash(fs: Seq<CommitFixEntry>, h: Seq<char>, i: int) -> bool {
    &&& 0 <= i < fs.len()
    &&& fs[i].hash@ == h
    &&& forall|j: int| 0 <= j < i ==> (#[trigger] fs[j]).hash@ != h
}

/// Some entry has hash `h`.
pub open spec fn has_hash(fs: Seq<CommitFixEntry>, h: Seq<char>) -> bool {
    exists|i: int| 0 <= i < fs.len() && (#[trigger] fs[i]).hash@ == h
}

/// The first position of `h` in `order`, or -1.
pub open spec fn first_pos(order: Seq<Seq<char>>, h: Seq<char>) -> int
    decreases order.len(),
{
    if order.len() == 0 {
        -1
    } else {
        let p = first_pos(order.drop_last(), h);
        if p >= 0 {
            p
        } else if order.last() == h {
            order.len() - 1
        } else {
            -1
        }
    }
}

/// The sort key of a hash: its position in `order`, or `usize::MAX` when
/// it is not there.
pub open spec fn order_key(order: Seq<Seq<char>>, h: Seq<char>) -> int {
    let p = first_pos(order, h);
    if p < 0 {
        usize::MAX as int
    } else {
        p
    }
}

/// `p` lists each of `0..n` exactly once.
pub open spec fn is_permutation(p: Seq<int>, n: nat) -> bool {
    &&& p.len() == n
    &&& forall|i: int| 0 <= i < n ==> 0 <= #[trigger] p[i] < n
    &&& forall|i: int, j: int| 0 <= i < j < n ==> #[trigger] p[i] != #[trigger] p[j]
    &&& forall|x: int| 0 <= x < n ==> #[trigger] hits(p, n as int, x)
}

/// Some position below `n` of `p` holds `x`.
pub open spec fn hits(p: Seq<int>, n: int, x: int) -> bool {
    exists|q: int| 0 <= q < n && p[q] == x
}

/// `r` is `o` sorted stably by the key of each entry's hash: a
/// rearrangement of `o` whose keys do not decrease, in which entries with
/// equal keys keep their order.
pub open spec fn stably_sorted(o: Seq<CommitFixEntry>, r: Seq<CommitFixEntry>, order: Seq<Seq<char>>) -> bool {
    exists|p: Seq<int>|
        {
            &&& #[trigger] is_permutation(p, o.len())
            &&& r.len() == o.len()
            &&& forall|i: int| 0 <= i < r.len() ==> r[i] == o[#[trigger] p[i]]
            &&& forall|a: int, b: int|
                0 <= a < b < r.len() ==> order_key(order, (#[trigger] r[a]).hash@) <= order_key(
                    order,
                    (#[trigger] r[b]).hash@,
                )
            &&& forall|a: int, b: int|
                0 <= a < b < r.len() && order_key(order, (#[trigger] r[a]).hash@) == order_key(
                    order,
                    (#[trigger] r[b]).hash@,
                ) ==> p[a] < p[b]
        }
}

/// The map from hash to new message; a later entry for a hash overrides an
/// earlier one.
pub open spec fn fixes_map(fs: Seq<CommitFixEntry>) -> Map<Seq<char>, Seq<char>>
    decreases fs.len(),
{
    if fs.len() == 0 {
        Map::empty()
    } else {
        fixes_map(fs.drop_last()).insert(fs.last().hash@, fs.last().new_message@)
    }
}

/// Every entry has a hash and both messages.
pub open spec fn spec_integrity(fs: Seq<CommitFixEntry>) -> bool {
    forall|i: int|
        0 <= i < fs.len() ==> {
            &&& (#[trigger] fs[i]).hash@.len() > 0
            &&& fs[i].new_message@.len() > 0
            &&& fs[i].original_message@.len() > 0
        }
}

/// The position of `h` in `order`, or `usize::MAX`.
fn position_in(order: &[String], h: &str) -> (k: usize)
    ensures
        k as int == order_key(strings_view(order@), h@),
{
    let ghost ov = strings_view(order@);
    let mut i: usize = 0;
    while i < order.len()
        invariant
            i <= order@.len(),
            ov == strings_view(order@),
            first_pos(ov.take(i as int), h@) == -1,
        decreases order.len() - i,
    {
        assert(ov.take(i + 1).drop_last() == ov.take(i as int));
        assert(ov.take(i + 1).last() == order@[i as int]@);
        if str_eq(order[i].as_str(), h) {
            proof {
                lemma_first_pos_prefix(ov, i + 1);
            }
            return i;
        }
        i += 1;
    }
    assert(ov.take(order@.len() as int) == ov);
    usize::MAX
}

/// The first position in a sequence is the first position in any prefix
/// that holds it.
proof fn lemma_first_pos_prefix(order: Seq<Seq<char>>, k: int)
    requires
        0 <= k <= order.len(),
    ensures
        first_pos(order.take(k), order[k - 1]) >= 0 ==> first_pos(order, order[k - 1]) == first_pos(
            order.take(k),
            order[k - 1],
        ),
        forall|h: Seq<char>|
            first_pos(order.take(k), h) >= 0 ==> #[trigger] first_pos(order, h) == first_pos(
                order.take(k),
                h,
            ),
    decreases order.len() - k,
{
    if k == order.len() {
        assert(order.take(k) == order);
    } else {
        lemma_first_pos_prefix(order, k + 1);
        assert(order.take(k + 1).drop_last() == order.take(k));
    }
}

impl CommitFixFile {
    /// The new message of the first fix for `hash`.
    pub fn get_message_for(&self, hash: &str) -> (r: Option<String>)
        ensures
            match r {
                Some(m) => exists|i: int|
                    is_first_with_hash(self.fixes@, hash@, i) && m@
                        == self.fixes@[i].new_message@,
                None => !has_hash(self.fixes@, hash@),
            },
    {
        let mut i: usize = 0;
        while i < self.fixes.len()
            invariant
                i <= self.fixes@.len(),
                forall|j: int| 0 <= j < i ==> (#[trigger] self.fixes@[j]).hash@ != hash@,
            decreases self.fixes.len() - i,
        {
            if str_eq(self.fixes[i].hash.as_str(), hash) {
                let m = self.fixes[i].new_message.clone();
                assert(is_first_with_hash(self.fixes@, hash@, i as int));
                return Some(m);
            }
            i += 1;
        }
        None
    }

    /// The original message of the first fix for `hash`.
    pub fn get_original_message(&self, hash: &str) -> (r: Option<String>)
        ensures
            match r {
                Some(m) => exists|i: int|
                    is_first_with_hash(self.fixes@, hash@, i) && m@
                        == self.fixes@[i].original_message@,
                None => !has_hash(self.fixes@, hash@),
            },
    {
        let mut i: usize = 0;
        while i < self.fixes.len()
            invariant
                i <= self.fixes@.len(),
                forall|j: int| 0 <= j < i ==> (#[trigger] self.fixes@[j]).hash@ != hash@,
            decreases self.fixes.len() - i,
        {
            if str_eq(self.fixes[i].hash.as_str(), hash) {
                let m = self.fixes[i].original_message.clone();
                assert(is_first_with_hash(self.fixes@, hash@, i as int));
                return Some(m);
            }
            i += 1;
        }
        None
    }

    /// Whether every entry has a hash and both messages.
    pub fn validate_integrity(&self) -> (b: bool)
        ensures
            b == spec_integrity(self.fixes@),
    {
        let mut i: usize = 0;
        while i < self.fixes.len()
            invariant
                i <= self.fixes@.len(),
                spec_integrity(self.fixes@.take(i as int)),
            decreases self.fixes.len() - i,
        {
            let f = &self.fixes[i];
            if f.hash.as_str().is_empty() || f.new_message.as_str().is_empty()
                || f.original_message.as_str().is_empty() {
                assert(!spec_integrity(self.fixes@)) by {
                    assert(self.fixes@[i as int] == *f);
                }
                return false;
            }
            assert(spec_integrity(self.fixes@.take(i + 1))) by {
                assert forall|j: int| 0 <= j < i + 1 implies {
                    &&& (#[trigger] self.fixes@.take(i + 1)[j]).hash@.len() > 0
                    &&& self.fixes@.take(i + 1)[j].new_message@.len() > 0
                    &&& self.fixes@.take(i + 1)[j].original_message@.len() > 0
                } by {
                    if j < i {
                        assert(self.fixes@.take(i + 1)[j] == self.fixes@.take(i as int)[j]);
                    }
                }
            }
            i += 1;
        }
        assert(self.fixes@.take(self.fixes@.len() as int) == self.fixes@);
        true
    }

    /// Whether some fix is for `hash`.
    pub fn contains(&self, hash: &str) -> (b: bool)
        ensures
            b == has_hash(self.fixes@, hash@),
    {
        let mut i: usize = 0;
        while i < self.fixes.len()
            invariant
                i <= self.fixes@.len(),
                forall|j: int| 0 <= j < i ==> (#[trigger] self.fixes@[j]).hash@ != hash@,
            decreases self.fixes.len() - i,
        {
            if str_eq(self.fixes[i].hash.as_str(), hash) {
                return true;
            }
            i += 1;
        }
        false
    }

    /// The new message of each hash; a later entry for a hash overrides an
    /// earlier one.
    pub fn commit_map(&self) -> (r: StrMap<String>)
        ensures
            r.wf(),
            r.text_map() == fixes_map(self.fixes@),
    {
        let mut m: StrMap<String> = StrMap::new();
        let mut i: usize = 0;
        assert(m.text_map() =~= fixes_map(self.fixes@.take(0)));
        while i < self.fixes.len()
            invariant
                i <= self.fixes@.len(),
                m.wf(),
                m.text_map() == fixes_map(self.fixes@.take(i as int)),
            decreases self.fixes.len() - i,
        {
            let f = &self.fixes[i];
            m.insert_text(f.hash.clone(), f.new_message.clone());
            assert(self.fixes@.take(i + 1).drop_last() == self.fixes@.take(i as int));
            assert(self.fixes@.take(i + 1).last() == *f);
            i += 1;
        }
        assert(self.fixes@.take(self.fixes@.len() as int) == self.fixes@);
        m
    }

    /// Sorts the fixes stably by the position of their hash in
    /// `original_order`; fixes whose hash is not there go last.
    pub fn sort_by_original_order(&mut self, original_order: &[String])
        ensures
            stably_sorted(old(self).fixes@, final(self).fixes@, strings_view(original_order@)),
    {
        let ghost order = strings_view(original_order@);
        let ghost o = self.fixes@;
        let n = self.fixes.len();
        let mut rest: Vec<CommitFixEntry> = Vec::new();
        std::mem::swap(&mut rest, &mut self.fixes);
        assert(rest@ == o);
        let mut r: Vec<CommitFixEntry> = Vec::new();
        let mut keys: Vec<usize> = Vec::new();
        let ghost mut p: Seq<int> = Seq::empty();
        let mut i: usize = 0;
        while i < n
            invariant
                i <= n == o.len(),
                order == strings_view(original_order@),
                rest@ == o.skip(i as int),
                r@.len() == i,
                keys@.len() == i,
                forall|k: int| 0 <= k < i ==> #[trigger] keys@[k] as int == order_key(
                    order,
                    r@[k].hash@,
                ),
                p.len() == i,
                forall|k: int| 0 <= k < i ==> 0 <= #[trigger] p[k] < i,
                forall|a: int, b: int| 0 <= a < b < i ==> #[trigger] p[a] != #[trigger] p[b],
                forall|x: int| 0 <= x < i ==> #[trigger] hits(p, i as int, x),
                forall|k: int| 0 <= k < i ==> r@[k] == o[#[trigger] p[k]],
                forall|a: int, b: int|
                    0 <= a < b < i ==> order_key(order, (#[trigger] r@[a]).hash@) <= order_key(
                        order,
                        (#[trigger] r@[b]).hash@,
                    ),
                forall|a: int, b: int|
                    0 <= a < b < i && order_key(order, (#[trigger] r@[a]).hash@) == order_key(
                        order,
                        (#[trigger] r@[b]).hash@,
                    ) ==> p[a] < p[b],
            decreases n - i,
        {
            let x = rest.remove(0);
            assert(x == o[i as int]);
            assert(rest@ == o.skip(i + 1));
            let kx = position_in(original_order, x.hash.as_str());
            let mut j: usize = 0;
            while j < i && keys[j] <= kx
                invariant
                    j <= i == keys@.len(),
                    forall|k: int| 0 <= k < j ==> keys@[k] <= kx,
                decreases i - j,
            {
                j += 1;
            }
            proof {
                assert forall|k: int| j <= k < i implies keys@[k] > kx by {
                    if j < i {
                        assert(keys@[j as int] > kx);
                        if k > j {
                            assert(order_key(order, r@[j as int].hash@) <= order_key(
                                order,
                                r@[k].hash@,
                            ));
                        }
                    }
                }
            }
            let ghost r0 = r@;
            let ghost k0 = keys@;
            let ghost p0 = p;
            r.insert(j, x);
            keys.insert(j, kx);
            proof {
                p = p.insert(j as int, i as int);
                assert forall|k: int| 0 <= k < i + 1 implies #[trigger] keys@[k] as int == order_key(
                    order,
                    r@[k].hash@,
                ) by {
                    if k < j {
                        assert(keys@[k] == k0[k] && r@[k] == r0[k]);
                    } else if k > j {
                        assert(keys@[k] == k0[k - 1] && r@[k] == r0[k - 1]);
                    }
                }
                assert forall|k: int| 0 <= k < i + 1 implies r@[k] == o[#[trigger] p[k]] by {
                    if k < j {
                        assert(p[k] == p0[k]);
                    } else if k > j {
                        assert(p[k] == p0[k - 1]);
                    }
                }
                assert forall|x: int| 0 <= x < i + 1 implies #[trigger] hits(p, i + 1, x) by {
                    if x == i {
                        assert(p[j as int] == x);
                    } else {
                        assert(hits(p0, i as int, x));
                        let q0 = choose|q: int| 0 <= q < i && p0[q] == x;
                        if q0 < j {
                            assert(p[q0] == x);
                        } else {
                            assert(p[q0 + 1] == x);
                        }
                    }
                }
                assert forall|k: int| 0 <= k < i + 1 implies 0 <= #[trigger] p[k] < i + 1 by {
                    if k < j {
                        assert(p[k] == p0[k]);
                    } else if k > j {
                        assert(p[k] == p0[k - 1]);
                    }
                }
                assert forall|a: int, b: int| 0 <= a < b < i + 1 implies #[trigger] p[a]
                    != #[trigger] p[b] by {
                    let a0 = if a < j {
                        a
                    } else {
                        a - 1
                    };
                    let b0 = if b < j {
                        b
                    } else {
                        b - 1
                    };
                    if a != j && b != j {
                        assert(p[a] == p0[a0] && p[b] == p0[b0]);
                    } else if a == j {
                        assert(p[b] == p0[b0]);
                    } else {
                        assert(p[a] == p0[a0]);
                    }
                }
                assert forall|a: int, b: int| 0 <= a < b < i + 1 implies order_key(
                    order,
                    (#[trigger] r@[a]).hash@,
                ) <= order_key(order, (#[trigger] r@[b]).hash@) && (order_key(
                    order,
                    r@[a].hash@,
                ) == order_key(order, r@[b].hash@) ==> p[a] < p[b]) by {
                    let a0 = if a < j {
                        a
                    } else {
                        a - 1
                    };
                    let b0 = if b < j {
                        b
                    } else {
                        b - 1
                    };
                    assert(keys@[a] as int == order_key(order, r@[a].hash@));
                    assert(keys@[b] as int == order_key(order, r@[b].hash@));
                    if a != j && b != j {
                        assert(r@[a] == r0[a0] && r@[b] == r0[b0]);
                        assert(p[a] == p0[a0] && p[b] == p0[b0]);
                    } else if a == j {
                        assert(keys@[b] == k0[b0]);
                        assert(p[a] == i);
                    } else {
                        assert(keys@[a] == k0[a0]);
                        assert(p[b] == i);
                        assert(p[a] == p0[a0]);
                    }
                }
            }
            i += 1;
        }
        self.fixes = r;
        proof {
            assert(is_permutation(p, o.len()));
        }
    }
}

/// Sorting stably keeps every fix: the same hashes are there, the first fix
/// for each hash is the same entry (so `get_message_for`,
/// `get_original_message` and `contains` answer as before), and the file is
/// sound after sorting exactly when it was before.
pub proof fn lemma_sort_keeps_fixes(
    o: Seq<CommitFixEntry>,
    r: Seq<CommitFixEntry>,
    order: Seq<Seq<char>>,
    h: Seq<char>,
)
    requires
        stably_sorted(o, r, order),
    ensures
        has_hash(r, h) == has_hash(o, h),
        forall|i: int|
            is_first_with_hash(o, h, i) ==> exists|q: int|
                is_first_with_hash(r, h, q) && #[trigger] r[q] == o[i],
        spec_integrity(r) == spec_integrity(o),
{
    let p = choose|p: Seq<int>|
        {
            &&& #[trigger] is_permutation(p, o.len())
            &&& r.len() == o.len()
            &&& forall|i: int| 0 <= i < r.len() ==> r[i] == o[#[trigger] p[i]]
            &&& forall|a: int, b: int|
                0 <= a < b < r.len() ==> order_key(order, (#[trigger] r[a]).hash@) <= order_key(
                    order,
                    (#[trigger] r[b]).hash@,
                )
            &&& forall|a: int, b: int|
                0 <= a < b < r.len() && order_key(order, (#[trigger] r[a]).hash@) == order_key(
                    order,
                    (#[trigger] r[b]).hash@,
                ) ==> p[a] < p[b]
        };
    if has_hash(o, h) {
        let i = choose|i: int| 0 <= i < o.len() && (#[trigger] o[i]).hash@ == h;
        assert(hits(p, o.len() as int, i));
        let q = choose|q: int| 0 <= q < o.len() && p[q] == i;
        assert(r[q].hash@ == h);
    }
    if has_hash(r, h) {
        let q = choose|q: int| 0 <= q < r.len() && (#[trigger] r[q]).hash@ == h;
        assert(o[p[q]].hash@ == h);
    }
    assert forall|i: int| is_first_with_hash(o, h, i) implies exists|q: int|
        is_first_with_hash(r, h, q) && #[trigger] r[q] == o[i] by {
        assert(hits(p, o.len() as int, i));
        let q = choose|q: int| 0 <= q < o.len() && p[q] == i;
        assert(r[q] == o[i]);
        assert forall|a: int| 0 <= a < q implies (#[trigger] r[a]).hash@ != h by {
            if r[a].hash@ == h {
                assert(p[a] < p[q]);
                assert(o[p[a]].hash@ == h);
            }
        }
        assert(is_first_with_hash(r, h, q));
    }
    if spec_integrity(o) {
        assert forall|q: int| 0 <= q < r.len() implies {
            &&& (#[trigger] r[q]).hash@.len() > 0
            &&& r[q].new_message@.len() > 0
            &&& r[q].original_message@.len() > 0
        } by {
            assert(r[q] == o[p[q]]);
        }
    }
    if spec_integrity(r) {
        assert forall|i: int| 0 <= i < o.len() implies {
            &&& (#[trigger] o[i]).hash@.len() > 0
            &&& o[i].new_message@.len() > 0
            &&& o[i].original_message@.len() > 0
        } by {
            assert(hits(p, o.len() as int, i));
            let q = choose|q: int| 0 <= q < o.len() && p[q] == i;
            assert(r[q] == o[i]);
        }
    }
}

/// `name` joined under the directory `dir` (`Path::join` with a relative
/// name): a `/` goes between them unless `dir` is empty or already ends
/// with one.
pub open spec fn joined_path(dir: Seq<char>, name: Seq<char>) -> Seq<char> {
    if dir.len() == 0 || dir.last() == '/' {
        dir + name
    } else {
        dir + seq!['/'] + name
    }
}

/// The full path of the fix file, under the root of the working tree.
pub fn fix_file_path(repo_root: &str) -> (p: String)
    ensures
        p@ == joined_path(repo_root@, COMMIT_FIX_FILE_NAME@),
{
    let d = chars_of(repo_root);
    let mut p = owned(repo_root);
    if !(d.len() == 0 || d[d.len() - 1] == '/') {
        string_push(&mut p, '/');
    }
    push_str(&mut p, COMMIT_FIX_FILE_NAME);
    p
}

/// A fix file for the given commits, each with its message as both the
/// original and the new message and with the timestamp `now`.
pub fn generate_fix_file(commits: Vec<(String, String)>, now: String) -> (r: CommitFixFile)
    ensures
        r.fixes@.len() == commits@.len(),
        forall|i: int|
            0 <= i < commits@.len() ==> {
                &&& (#[trigger] r.fixes@[i]).hash@ == commits@[i].0@
                &&& r.fixes@[i].original_message@ == commits@[i].1@
                &&& r.fixes@[i].new_message@ == commits@[i].1@
                &&& r.fixes@[i].timestamp matches Some(t) && t@ == now@
            },
{
    let mut fixes: Vec<CommitFixEntry> = Vec::new();
    let mut i: usize = 0;
    while i < commits.len()
        invariant
            i <= commits@.len(),
            fixes@.len() == i,
            forall|k: int|
                0 <= k < i ==> {
                    &&& (#[trigger] fixes@[k]).hash@ == commits@[k].0@
                    &&& fixes@[k].original_message@ == commits@[k].1@
                    &&& fixes@[k].new_message@ == commits@[k].1@
                    &&& fixes@[k].timestamp matches Some(t) && t@ == now@
                },
        decreases commits.len() - i,
    {
        let (hash, msg) = &commits[i];
        fixes.push(
            CommitFixEntry {
                hash: hash.clone(),
                original_message: msg.clone(),
                new_message: msg.clone(),
                timestamp: Some(now.clone()),
            },
        );
        i += 1;
    }
    CommitFixFile { fixes }
}

} // verus!
