//! Decisions of the fix (reword) workflow.
use crate::git::commit::{
    all_plain, spec_valid_message, validate_conventional_commit_message,
};
use crate::text::{
    chars_of, owned, push_str, split_chars, split_on, str_eq, string_of, strs_view, trim,
    trim_chars,
};
use crate::commit::fix::{fixes_map, CommitFixEntry, CommitFixFile};
use crate::text::{lemma_str_lt_irreflexive, strictly_sorted};
use crate::textmap::StrMap;
use vstd::prelude::*;

verus! {

/// A stored new message differs from the old one and is valid.
pub open spec fn spec_already_fixed(old: Seq<char>, new: Seq<char>, types: Seq<Seq<char>>) -> bool {
    old != new && spec_valid_message(new, types)
}

/// Whether a stored new message differs from the old one and is a valid
/// Conventional Commit.
pub fn old_msg_and_new_commit_are_diff(old: &String, new: &String, types: &[&str]) -> (b: bool)
    requires
        all_plain(strs_view(types@)),
    ensures
        b == spec_already_fixed(old@, new@, types@.map_values(|t: &str| t@)),
{
    !str_eq(old.as_str(), new.as_str()) && validate_conventional_commit_message(new.as_str(), types)
}

/// Whether a commit still needs a fix: there is no stored fix for its hash
/// whose new message is valid and differs from the original.
pub fn needs_fix(existing: &StrMap<String>, hash: &str, original_message: &String, types: &[&str]) -> (b: bool)
    requires
        existing.wf(),
        all_plain(strs_view(types@)),
    ensures
        b == !(existing.text_map().contains_key(hash@) && spec_already_fixed(
            original_message@,
            existing.text_map()[hash@],
            strs_view(types@),
        )),
{
    match existing.get(hash) {
        Some(new_message) => !old_msg_and_new_commit_are_diff(original_message, new_message, types),
        None => true,
    }
}

/// The automatic fix of a message: `chore(misc): <message>`.
pub fn auto_fix_message(original_message: &str) -> (r: String)
    ensures
        r@ == "chore(misc): "@ + original_message@,
{
    let mut r = owned("chore(misc): ");
    push_str(&mut r, original_message);
    r
}

/// The lines of a text (`str::lines`: split at line feeds, without a last
/// empty line), each trimmed.
pub open spec fn trimmed_lines(s: Seq<char>) -> Seq<Seq<char>> {
    let ps = split_on(s, '\n');
    let ls = if ps.last().len() == 0 {
        ps.drop_last()
    } else {
        ps
    };
    ls.map_values(|l: Seq<char>| trim(l))
}

/// The commit hashes printed by `git rev-list`, one per line.
pub fn rev_list_hashes(output: &str) -> (r: Vec<String>)
    ensures
        r@.map_values(|h: String| h@) == trimmed_lines(output@),
{
    let v = chars_of(output);
    let pieces = split_chars(v.as_slice(), '\n');
    let ghost ps = split_on(output@, '\n');
    let n = pieces.len();
    let keep = if n > 0 && pieces[n - 1].len() == 0 {
        n - 1
    } else {
        n
    };
    proof {
        assert(ps.len() > 0) by {
            crate::text::lemma_split_nonempty(output@, '\n', Seq::empty());
        }
    }
    let ghost ls = if ps.last().len() == 0 {
        ps.drop_last()
    } else {
        ps
    };
    let mut r: Vec<String> = Vec::new();
    let mut i: usize = 0;
    while i < keep
        invariant
            i <= keep == ls.len(),
            n == ps.len() == pieces@.len(),
            ls.len() <= ps.len(),
            forall|j: int| 0 <= j < ls.len() ==> #[trigger] ls[j] == ps[j],
            forall|j: int| 0 <= j < pieces@.len() ==> #[trigger] pieces@[j]@ == ps[j],
            r@.len() == i,
            forall|j: int| 0 <= j < i ==> #[trigger] r@[j]@ == trim(ls[j]),
        decreases keep - i,
    {
        let t = trim_chars(pieces[i].as_slice());
        r.push(string_of(t.as_slice()));
        i += 1;
    }
    assert(r@.map_values(|h: String| h@) =~= trimmed_lines(output@));
    r
}

/// Whether some commit of the old history is gone from the new one.
pub fn any_rewritten(old_hashes: &[String], new_hashes: &[String]) -> (b: bool)
    ensures
        b == exists|i: int|
            0 <= i < old_hashes@.len() && !new_hashes@.map_values(|h: String| h@).contains(
                #[trigger] old_hashes@[i]@,
            ),
{
    let ghost nv = new_hashes@.map_values(|h: String| h@);
    let mut i: usize = 0;
    while i < old_hashes.len()
        invariant
            i <= old_hashes@.len(),
            nv == new_hashes@.map_values(|h: String| h@),
            forall|j: int| 0 <= j < i ==> nv.contains(#[trigger] old_hashes@[j]@),
        decreases old_hashes.len() - i,
    {
        let mut found = false;
        let mut k: usize = 0;
        while k < new_hashes.len()
            invariant
                k <= new_hashes@.len(),
                nv == new_hashes@.map_values(|h: String| h@),
                i < old_hashes@.len(),
                found ==> nv.contains(old_hashes@[i as int]@),
                !found ==> forall|j: int| 0 <= j < k ==> new_hashes@[j]@ != old_hashes@[i as int]@,
            decreases new_hashes.len() - k,
        {
            if !found && str_eq(new_hashes[k].as_str(), old_hashes[i].as_str()) {
                assert(nv[k as int] == old_hashes@[i as int]@);
                found = true;
            }
            k += 1;
        }
        if !found {
            proof {
                if nv.contains(old_hashes@[i as int]@) {
                    let j = choose|j: int| 0 <= j < nv.len() && nv[j] == old_hashes@[i as int]@;
                    assert(new_hashes@[j]@ == nv[j]);
                }
            }
            return true;
        }
        i += 1;
    }
    false
}

/// The commits, as (hash, message), that still need a fix: those without
/// a stored new message that differs from theirs and is valid.
pub open spec fn pending_fixes(
    cs: Seq<(Seq<char>, Seq<char>)>,
    stored: Map<Seq<char>, Seq<char>>,
    types: Seq<Seq<char>>,
) -> Seq<(Seq<char>, Seq<char>)>
    decreases cs.len(),
{
    if cs.len() == 0 {
        Seq::empty()
    } else {
        let rest = pending_fixes(cs.drop_last(), stored, types);
        let (h, m) = cs.last();
        if stored.contains_key(h) && spec_already_fixed(m, stored[h], types) {
            rest
        } else {
            rest.push(cs.last())
        }
    }
}

/// The commits that still need a fix, in order. (The commits of a history
/// walk have distinct hashes, so the fixes recorded on the way do not
/// change which of them need one.)
pub fn commits_to_fix(existing: &CommitFixFile, commits: &Vec<(String, String)>, types: &[&str]) -> (r: Vec<
    (String, String),
>)
    requires
        all_plain(strs_view(types@)),
    ensures
        r.deep_view() == pending_fixes(commits.deep_view(), fixes_map(existing.fixes@), strs_view(types@)),
{
    let stored = existing.commit_map();
    let ghost cs = commits.deep_view();
    let ghost tv = strs_view(types@);
    let mut r: Vec<(String, String)> = Vec::new();
    let mut i: usize = 0;
    assert(cs.take(0) =~= Seq::<(Seq<char>, Seq<char>)>::empty());
    assert(r.deep_view() =~= pending_fixes(cs.take(0), stored.text_map(), tv));
    while i < commits.len()
        invariant
            i <= commits@.len(),
            cs == commits.deep_view(),
            tv == strs_view(types@),
            all_plain(tv),
            stored.wf(),
            stored.text_map() == fixes_map(existing.fixes@),
            r.deep_view() == pending_fixes(cs.take(i as int), stored.text_map(), tv),
        decreases commits.len() - i,
    {
        let (hash, msg) = &commits[i];
        assert(cs[i as int] == (hash@, msg@));
        proof {
            assert(cs.take(i + 1).drop_last() == cs.take(i as int));
            assert(cs.take(i + 1).last() == cs[i as int]);
        }
        if needs_fix(&stored, hash.as_str(), msg, types) {
            let ghost before = r.deep_view();
            r.push((hash.clone(), msg.clone()));
            assert(r.deep_view() =~= before.push((hash@, msg@)));
        }
        i += 1;
    }
    assert(cs.take(cs.len() as int) == cs);
    r
}

/// What a fix entry stores for its hash: original message, new message,
/// timestamp.
pub open spec fn fix_view(e: CommitFixEntry) -> (Seq<char>, Seq<char>, Option<Seq<char>>) {
    (
        e.original_message@,
        e.new_message@,
        match e.timestamp {
            Some(t) => Some(t@),
            None => None,
        },
    )
}

/// The entries by hash; a later entry for a hash replaces an earlier one.
pub open spec fn entry_map(fs: Seq<CommitFixEntry>) -> Map<
    Seq<char>,
    (Seq<char>, Seq<char>, Option<Seq<char>>),
>
    decreases fs.len(),
{
    if fs.len() == 0 {
        Map::empty()
    } else {
        entry_map(fs.drop_last()).insert(fs.last().hash@, fix_view(fs.last()))
    }
}

/// The entries after recording each update (hash, original message, new
/// message) with the timestamp `now`, in order.
pub open spec fn with_updates(
    m: Map<Seq<char>, (Seq<char>, Seq<char>, Option<Seq<char>>)>,
    us: Seq<(Seq<char>, Seq<char>, Seq<char>)>,
    now: Seq<char>,
) -> Map<Seq<char>, (Seq<char>, Seq<char>, Option<Seq<char>>)>
    decreases us.len(),
{
    if us.len() == 0 {
        m
    } else {
        with_updates(m, us.drop_last(), now).insert(us.last().0, (us.last().1, us.last().2, Some(now)))
    }
}

/// A copy of a fix entry.
fn copy_entry(f: &CommitFixEntry) -> (r: CommitFixEntry)
    ensures
        r == *f,
{
    CommitFixEntry {
        hash: f.hash.clone(),
        original_message: f.original_message.clone(),
        new_message: f.new_message.clone(),
        timestamp: match &f.timestamp {
            Some(t) => Some(t.clone()),
            None => None,
        },
    }
}

/// The entries of a map keyed by hash: every entry under its own hash.
pub open spec fn keyed_by_hash(m: Map<Seq<char>, CommitFixEntry>) -> bool {
    forall|k: Seq<char>| #[trigger] m.contains_key(k) ==> m[k].hash@ == k
}

/// The fix file after recording the new messages: one entry per hash, the
/// stored ones replaced by the updates, each update stamped with `now`.
pub fn record_fixes(existing: &CommitFixFile, updates: &Vec<(String, String, String)>, now: &str) -> (r:
    CommitFixFile)
    ensures
        entry_map(r.fixes@) == with_updates(entry_map(existing.fixes@), updates.deep_view(), now@),
        forall|i: int, j: int|
            0 <= i < j < r.fixes@.len() ==> (#[trigger] r.fixes@[i]).hash@ != (#[trigger] r.fixes@[j]).hash@,
{
    let ghost fs = existing.fixes@;
    let ghost us = updates.deep_view();
    let mut m: StrMap<CommitFixEntry> = StrMap::new();
    let mut i: usize = 0;
    assert(m.as_map().map_values(|e: CommitFixEntry| fix_view(e)) =~= entry_map(fs.take(0)));
    while i < existing.fixes.len()
        invariant
            i <= fs.len(),
            fs == existing.fixes@,
            m.wf(),
            keyed_by_hash(m.as_map()),
            m.as_map().map_values(|e: CommitFixEntry| fix_view(e)) == entry_map(fs.take(i as int)),
        decreases fs.len() - i,
    {
        let f = &existing.fixes[i];
        let e = copy_entry(f);
        let ghost before = m.as_map();
        m.insert(f.hash.clone(), e);
        proof {
            assert(fs.take(i + 1).drop_last() =~= fs.take(i as int));
            assert(fs.take(i + 1).last() == *f);
            assert(m.as_map().map_values(|e: CommitFixEntry| fix_view(e)) =~= before.map_values(
                |e: CommitFixEntry| fix_view(e),
            ).insert(f.hash@, fix_view(*f)));
        }
        i += 1;
    }
    assert(fs.take(fs.len() as int) =~= fs);
    let ghost base = entry_map(fs);
    let mut j: usize = 0;
    assert(us.take(0) =~= Seq::<(Seq<char>, Seq<char>, Seq<char>)>::empty());
    while j < updates.len()
        invariant
            j <= us.len(),
            us == updates.deep_view(),
            m.wf(),
            keyed_by_hash(m.as_map()),
            m.as_map().map_values(|e: CommitFixEntry| fix_view(e)) == with_updates(
                base,
                us.take(j as int),
                now@,
            ),
        decreases us.len() - j,
    {
        let (h, o, n) = &updates[j];
        assert(us[j as int] == (h@, o@, n@));
        let e = CommitFixEntry {
            hash: h.clone(),
            original_message: o.clone(),
            new_message: n.clone(),
            timestamp: Some(crate::text::owned(now)),
        };
        let ghost before = m.as_map();
        m.insert(h.clone(), e);
        proof {
            assert(us.take(j + 1).drop_last() =~= us.take(j as int));
            assert(us.take(j + 1).last() == us[j as int]);
            assert(m.as_map().map_values(|e: CommitFixEntry| fix_view(e)) =~= before.map_values(
                |e: CommitFixEntry| fix_view(e),
            ).insert(h@, (o@, n@, Some(now@))));
        }
        j += 1;
    }
    assert(us.take(us.len() as int) =~= us);
    let ghost target = m.as_map().map_values(|e: CommitFixEntry| fix_view(e));
    let mut out: Vec<CommitFixEntry> = Vec::new();
    let mut k: usize = 0;
    assert(entry_map(out@) =~= Map::new(
        |x: Seq<char>| m.keys().take(0).contains(x),
        |x: Seq<char>| target[x],
    ));
    while k < m.len()
        invariant
            k <= m.size(),
            m.wf(),
            keyed_by_hash(m.as_map()),
            target == m.as_map().map_values(|e: CommitFixEntry| fix_view(e)),
            out@.len() == k,
            forall|q: int| 0 <= q < k ==> (#[trigger] out@[q]).hash@ == m.keys()[q],
            entry_map(out@) == Map::new(
                |x: Seq<char>| m.keys().take(k as int).contains(x),
                |x: Seq<char>| target[x],
            ),
        decreases m.size() - k,
    {
        let v = m.value_at(k);
        let e = copy_entry(v);
        proof {
            m.lemma_pos(k as int);
            assert(m.as_map()[m.keys()[k as int]] == *v);
            assert(e.hash@ == m.keys()[k as int]);
        }
        let ghost before = out@;
        out.push(e);
        proof {
            assert(out@.drop_last() =~= before);
            assert(out@.last() == e);
            let ks = m.keys();
            assert forall|x: Seq<char>| #[trigger] ks.take(k + 1).contains(x) <==> (ks.take(
                k as int,
            ).contains(x) || x == ks[k as int]) by {
                if ks.take(k + 1).contains(x) {
                    let q = choose|q: int| 0 <= q < k + 1 && #[trigger] ks.take(k + 1)[q] == x;
                    if q < k {
                        assert(ks.take(k as int)[q] == x);
                    }
                }
                if ks.take(k as int).contains(x) {
                    let q = choose|q: int| 0 <= q < k && #[trigger] ks.take(k as int)[q] == x;
                    assert(ks.take(k + 1)[q] == x);
                }
                if x == ks[k as int] {
                    assert(ks.take(k + 1)[k as int] == x);
                }
            }
            assert(entry_map(out@) =~= Map::new(
                |x: Seq<char>| m.keys().take(k + 1).contains(x),
                |x: Seq<char>| target[x],
            ));
        }
        k += 1;
    }
    proof {
        let ks = m.keys();
        assert(ks.take(ks.len() as int) =~= ks);
        assert(entry_map(out@) =~= target);
        assert forall|a: int, b: int| 0 <= a < b < out@.len() implies (#[trigger] out@[a]).hash@
            != (#[trigger] out@[b]).hash@ by {
            assert(crate::text::str_lt(ks[a], ks[b]));
            if ks[a] == ks[b] {
                lemma_str_lt_irreflexive(ks[a]);
            }
        }
    }
    CommitFixFile { fixes: out }
}

} // verus!
