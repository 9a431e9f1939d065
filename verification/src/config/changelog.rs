//! Changelog sections and the commit types that go into each.
use crate::config::{ensure_member, ensure_member_exec};
use crate::constants::{DEFAULT_FEAT, DEFAULT_FIX};
use crate::text::{copy_strings, owned, strings_view};
use crate::textmap::{appended, StrMap};
use crate::utils::{capitalize_first_letter, capitalized, strings};
use vstd::prelude::*;

verus! {

/// The changelog configuration.
pub struct Changelog {
    pub sections: ChangelogSections,
}

/// The commit types of the `Added` and `Fixed` sections, and of further
/// sections by name.
pub struct ChangelogSections {
    pub added: Vec<String>,
    pub fixed: Vec<String>,
    pub extra: StrMap<Vec<String>>,
}

/// A commit as grouped by type: hash, scope, summary.
pub type TypedCommit = (String, Option<String>, String);

/// A commit as listed in a section: scope, summary, hash.
pub type SectionEntry = (Option<String>, String, String);

pub open spec fn added_title() -> Seq<char> {
    "Added"@
}

pub open spec fn fixed_title() -> Seq<char> {
    "Fixed"@
}

pub open spec fn uncategorized_title() -> Seq<char> {
    "Uncategorized"@
}

/// The sections of the `added` and `fixed` types: a type in both lists
/// belongs to `Added`.
pub open spec fn base_sections(added: Seq<Seq<char>>, fixed: Seq<Seq<char>>) -> Map<
    Seq<char>,
    Seq<char>,
> {
    Map::new(
        |k: Seq<char>| added.contains(k) || fixed.contains(k),
        |k: Seq<char>|
            if added.contains(k) {
                added_title()
            } else {
                fixed_title()
            },
    )
}

/// The (capitalized type, section) pairs of the further sections, in
/// section order and then list order.
pub open spec fn extra_pairs(ks: Seq<Seq<char>>, lists: Map<Seq<char>, Seq<Seq<char>>>) -> Seq<
    (Seq<char>, Seq<char>),
>
    decreases ks.len(),
{
    if ks.len() == 0 {
        Seq::empty()
    } else {
        extra_pairs(ks.drop_last(), lists) + lists[ks.last()].map_values(
            |t: Seq<char>| (capitalized(t), ks.last()),
        )
    }
}

/// Inserts the pairs in order: a later pair overrides an earlier one.
pub open spec fn insert_pairs(m: Map<Seq<char>, Seq<char>>, ps: Seq<(Seq<char>, Seq<char>)>) -> Map<
    Seq<char>,
    Seq<char>,
>
    decreases ps.len(),
{
    if ps.len() == 0 {
        m
    } else {
        insert_pairs(m, ps.drop_last()).insert(ps.last().0, ps.last().1)
    }
}

/// The section of each commit type.
pub open spec fn type_sections(s: &ChangelogSections) -> Map<Seq<char>, Seq<char>> {
    insert_pairs(
        base_sections(strings_view(s.added@), strings_view(s.fixed@)),
        extra_pairs(s.extra.keys(), s.extra.lists_map()),
    )
}

/// The section that a commit type goes to.
pub open spec fn section_of(tsm: Map<Seq<char>, Seq<char>>, t: Seq<char>) -> Seq<char> {
    if tsm.contains_key(t) {
        tsm[t]
    } else {
        uncategorized_title()
    }
}

/// A commit of a type group as an entry of a section.
pub open spec fn as_section_entry(e: (Seq<char>, Option<Seq<char>>, Seq<char>)) -> (
    Option<Seq<char>>,
    Seq<char>,
    Seq<char>,
) {
    (e.1, e.2, e.0)
}

/// Appends the items `xs` in order to the list under key `k`.
pub open spec fn append_all<T>(m: Map<Seq<char>, Seq<T>>, k: Seq<char>, xs: Seq<T>) -> Map<
    Seq<char>,
    Seq<T>,
>
    decreases xs.len(),
{
    if xs.len() == 0 {
        m
    } else {
        appended(append_all(m, k, xs.drop_last()), k, xs.last())
    }
}

/// Regroups the commits of the types `ts`, in that order, by section.
pub open spec fn regroup(
    ts: Seq<Seq<char>>,
    g: Map<Seq<char>, Seq<(Seq<char>, Option<Seq<char>>, Seq<char>)>>,
    tsm: Map<Seq<char>, Seq<char>>,
) -> Map<Seq<char>, Seq<(Option<Seq<char>>, Seq<char>, Seq<char>)>>
    decreases ts.len(),
{
    if ts.len() == 0 {
        Map::empty()
    } else {
        append_all(
            regroup(ts.drop_last(), g, tsm),
            section_of(tsm, ts.last()),
            g[ts.last()].map_values(|e| as_section_entry(e)),
        )
    }
}

impl ChangelogSections {
    pub open spec fn wf(&self) -> bool {
        self.extra.wf()
    }

    /// A copy of the sections.
    pub fn copy(&self) -> (r: Self)
        requires
            self.wf(),
        ensures
            r.wf(),
            strings_view(r.added@) == strings_view(self.added@),
            strings_view(r.fixed@) == strings_view(self.fixed@),
            r.extra.keys() == self.extra.keys(),
            r.extra.lists_map() == self.extra.lists_map(),
            type_sections(&r) == type_sections(self),
    {
        ChangelogSections {
            added: copy_strings(&self.added),
            fixed: copy_strings(&self.fixed),
            extra: self.extra.copy_lists(),
        }
    }

    /// Groups commits by changelog section. The commit types are visited
    /// in order; the commits of a type keep their order.
    pub fn group_commits_by_section(&self, grouped_commits: &StrMap<Vec<TypedCommit>>) -> (r:
        StrMap<Vec<SectionEntry>>)
        requires
            self.wf(),
            grouped_commits.wf(),
        ensures
            r.wf(),
            r.deep_map() == regroup(
                grouped_commits.keys(),
                grouped_commits.deep_map(),
                type_sections(self),
            ),
    {
        let mut section_map: StrMap<Vec<SectionEntry>> = StrMap::new();
        let type_to_section = self.copy().build_type_to_section_map();
        let ghost tsm = type_sections(self);
        let ghost ks = grouped_commits.keys();
        let ghost g = grouped_commits.deep_map();
        let mut i: usize = 0;
        assert(section_map.deep_map() =~= regroup(ks.take(0), g, tsm));
        while i < grouped_commits.len()
            invariant
                i <= grouped_commits.size(),
                grouped_commits.wf(),
                ks == grouped_commits.keys(),
                g == grouped_commits.deep_map(),
                type_to_section.wf(),
                type_to_section.text_map() == tsm,
                section_map.wf(),
                section_map.deep_map() == regroup(ks.take(i as int), g, tsm),
            decreases grouped_commits.size() - i,
        {
            let typ = grouped_commits.key_at(i);
            let commits = grouped_commits.value_at(i);
            proof {
                grouped_commits.lemma_pos(i as int);
                assert(g[typ@] == commits.deep_view());
            }
            let section = match type_to_section.get(typ.as_str()) {
                Some(s) => s.clone(),
                None => owned("Uncategorized"),
            };
            assert(section@ == section_of(tsm, typ@));
            let ghost start = section_map.deep_map();
            let ghost adds = commits.deep_view().map_values(|e| as_section_entry(e));
            let mut u: usize = 0;
            while u < commits.len()
                invariant
                    u <= commits@.len(),
                    adds == commits.deep_view().map_values(|e| as_section_entry(e)),
                    section_map.wf(),
                    section_map.deep_map() == append_all(start, section@, adds.take(u as int)),
                decreases commits.len() - u,
            {
                let (hash, scope, summary) = &commits[u];
                let entry: SectionEntry = (scope.clone(), summary.clone(), hash.clone());
                proof {
                    assert(entry.deep_view() == adds[u as int]);
                    assert(adds.take(u + 1).drop_last() == adds.take(u as int));
                }
                section_map.push_to(section.as_str(), entry);
                u += 1;
            }
            proof {
                assert(adds.take(adds.len() as int) == adds);
                assert(ks.take(i + 1).drop_last() == ks.take(i as int));
                assert(ks.take(i + 1).last() == typ@);
            }
            i += 1;
        }
        assert(ks.take(grouped_commits.size() as int) == ks);
        section_map
    }

    /// Maps each commit type to the title of its section.
    pub fn build_type_to_section_map(self) -> (r: StrMap<String>)
        requires
            self.wf(),
        ensures
            r.wf(),
            r.text_map() == type_sections(&self),
    {
        let mut map: StrMap<String> = StrMap::new();
        let ghost added = strings_view(self.added@);
        let ghost fixed = strings_view(self.fixed@);
        let mut i: usize = 0;
        while i < self.added.len()
            invariant
                i <= self.added@.len(),
                added == strings_view(self.added@),
                map.wf(),
                map.text_map() == base_sections(added.take(i as int), Seq::empty()),
            decreases self.added.len() - i,
        {
            let t = &self.added[i];
            map.insert_text(t.clone(), owned("Added"));
            proof {
                assert(added[i as int] == t@);
                let a0 = added.take(i as int);
                let a1 = added.take(i + 1);
                assert(a1 == a0.push(t@));
                assert forall|k: Seq<char>| a1.contains(k) <==> (a0.contains(k) || k == t@) by {
                    if a1.contains(k) {
                        let x = choose|x: int| 0 <= x < a1.len() && a1[x] == k;
                        if x < a0.len() {
                            assert(a0[x] == k);
                        }
                    }
                    if a0.contains(k) {
                        let x = choose|x: int| 0 <= x < a0.len() && a0[x] == k;
                        assert(a1[x] == k);
                    }
                    if k == t@ {
                        assert(a1[i as int] == k);
                    }
                }
                assert(map.text_map() =~= base_sections(a1, Seq::empty()));
            }
            i += 1;
        }
        assert(added.take(self.added@.len() as int) == added);
        let mut j: usize = 0;
        while j < self.fixed.len()
            invariant
                j <= self.fixed@.len(),
                added == strings_view(self.added@),
                fixed == strings_view(self.fixed@),
                map.wf(),
                map.text_map() == base_sections(added, fixed.take(j as int)),
            decreases self.fixed.len() - j,
        {
            let t = &self.fixed[j];
            let ghost before = map.text_map();
            let present = map.contains_key(t.as_str());
            assert(present == before.contains_key(t@));
            if !present {
                map.insert_text(t.clone(), owned("Fixed"));
            }
            proof {
                assert(fixed[j as int] == t@);
                let f0 = fixed.take(j as int);
                let f1 = fixed.take(j + 1);
                assert(f1 == f0.push(t@));
                assert forall|k: Seq<char>| f1.contains(k) <==> (f0.contains(k) || k == t@) by {
                    if f1.contains(k) {
                        let x = choose|x: int| 0 <= x < f1.len() && f1[x] == k;
                        if x < f0.len() {
                            assert(f0[x] == k);
                        }
                    }
                    if f0.contains(k) {
                        let x = choose|x: int| 0 <= x < f0.len() && f0[x] == k;
                        assert(f1[x] == k);
                    }
                    if k == t@ {
                        assert(f1[j as int] == k);
                    }
                }
                if present {
                    assert(map.text_map() == before);
                    assert(added.contains(t@) || f0.contains(t@));
                } else {
                    assert(!added.contains(t@));
                }
                assert(map.text_map() =~= base_sections(added, f1));
            }
            j += 1;
        }
        assert(fixed.take(self.fixed@.len() as int) == fixed);
        let ghost base = base_sections(added, fixed);
        let ghost ks = self.extra.keys();
        let ghost lists = self.extra.lists_map();
        let mut s: usize = 0;
        while s < self.extra.len()
            invariant
                s <= self.extra.size(),
                self.extra.wf(),
                ks == self.extra.keys(),
                lists == self.extra.lists_map(),
                map.wf(),
                map.text_map() == insert_pairs(base, extra_pairs(ks.take(s as int), lists)),
            decreases self.extra.size() - s,
        {
            let section = self.extra.key_at(s);
            let types = self.extra.value_at(s);
            proof {
                self.extra.lemma_pos(s as int);
                assert(lists[section@] == strings_view(types@));
            }
            let ghost prefix = extra_pairs(ks.take(s as int), lists);
            let mut u: usize = 0;
            while u < types.len()
                invariant
                    u <= types@.len(),
                    map.wf(),
                    map.text_map() == insert_pairs(
                        base,
                        prefix + strings_view(types@).take(u as int).map_values(
                            |t: Seq<char>| (capitalized(t), section@),
                        ),
                    ),
                decreases types.len() - u,
            {
                let key = capitalize_first_letter(types[u].as_str());
                map.insert_text(key, section.clone());
                proof {
                    let f = |t: Seq<char>| (capitalized(t), section@);
                    let before = prefix + strings_view(types@).take(u as int).map_values(f);
                    let after = prefix + strings_view(types@).take(u + 1).map_values(f);
                    assert(strings_view(types@).take(u + 1) == strings_view(types@).take(
                        u as int,
                    ).push(types@[u as int]@));
                    assert(after =~= before.push((capitalized(types@[u as int]@), section@)));
                    assert(after.drop_last() == before);
                }
                u += 1;
            }
            proof {
                assert(ks.take(s + 1).drop_last() == ks.take(s as int));
                assert(ks.take(s + 1).last() == section@);
                assert(strings_view(types@).take(types@.len() as int) == strings_view(types@));
            }
            s += 1;
        }
        assert(ks.take(self.extra.size() as int) == ks);
        map
    }
}

impl Changelog {
    /// Makes sure `feat` is listed under `Added` and `fix` under `Fixed`.
    pub fn patch(&mut self)
        ensures
            strings_view(final(self).sections.added@) == ensure_member(
                strings_view(old(self).sections.added@),
                DEFAULT_FEAT@,
            ),
            strings_view(final(self).sections.fixed@) == ensure_member(
                strings_view(old(self).sections.fixed@),
                DEFAULT_FIX@,
            ),
            final(self).sections.extra == old(self).sections.extra,
    {
        ensure_member_exec(&mut self.sections.added, DEFAULT_FEAT);
        ensure_member_exec(&mut self.sections.fixed, DEFAULT_FIX);
    }
}

impl Default for ChangelogSections {
    fn default() -> (r: Self)
        ensures
            r.wf(),
            strings_view(r.added@) == seq![DEFAULT_FEAT@],
            strings_view(r.fixed@) == seq![DEFAULT_FIX@],
            r.extra.size() == 0,
    {
        let r = ChangelogSections {
            added: strings(&[DEFAULT_FEAT]),
            fixed: strings(&[DEFAULT_FIX]),
            extra: StrMap::new(),
        };
        assert(strings_view(r.added@) =~= seq![DEFAULT_FEAT@]);
        assert(strings_view(r.fixed@) =~= seq![DEFAULT_FIX@]);
        r
    }
}

impl Default for Changelog {
    fn default() -> (r: Self)
        ensures
            r.sections.wf(),
            strings_view(r.sections.added@) == seq![DEFAULT_FEAT@],
            strings_view(r.sections.fixed@) == seq![DEFAULT_FIX@],
            r.sections.extra.size() == 0,
    {
        Changelog { sections: ChangelogSections::default() }
    }
}

} // verus!
