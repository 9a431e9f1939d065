//! Changelog rendering in the Keep a Changelog format.
use crate::config::changelog::{
    append_all, as_section_entry, regroup, type_sections, Changelog, SectionEntry, TypedCommit,
};
use crate::text::{
    byte_prefix, byte_prefix_chars, chars_in_bytes, chars_of, decimal, decimal_chars,
    has_byte_prefix, last_occurrence, occurs_at, last_occurrence_exec, parse_u32, parse_u32_chars,
    push_chars, push_str, slice_chars, strip_trailing, strip_trailing_char, trim_end,
    trim_end_chars,
};
use crate::textmap::{appended, lemma_sorted_keys_of, lists_keys_of, sorted_keys, StrMap};
use vstd::prelude::*;

verus! {

/// An entry of a section: scope, summary, hash.
pub type EntryView = (Option<Seq<char>>, Seq<char>, Seq<char>);

/// The views of the entries of a section.
pub open spec fn entries_view(es: Seq<SectionEntry>) -> Seq<EntryView> {
    es.map_values(|e: SectionEntry| e.deep_view())
}

/// The first seven bytes of a hash (`&hash[..7]`).
pub open spec fn short_hash(h: Seq<char>) -> Seq<char> {
    byte_prefix(h, 7)
}

/// A hash whose first seven bytes end on a character boundary.
pub open spec fn has_short_hash(h: Seq<char>) -> bool {
    chars_in_bytes(h, 7) is Some
}

/// A flat line: `- **scope**: summary (abc1234)` or `- summary (abc1234)`.
pub open spec fn flat_line(e: EntryView) -> Seq<char> {
    match e.0 {
        Some(sc) => "- **"@ + sc + "**: "@ + e.1 + " ("@ + short_hash(e.2) + ")\n"@,
        None => "- "@ + e.1 + " ("@ + short_hash(e.2) + ")\n"@,
    }
}

/// The flat lines of a section.
pub open spec fn flat_text(es: Seq<EntryView>) -> Seq<char>
    decreases es.len(),
{
    if es.len() == 0 {
        Seq::empty()
    } else {
        flat_text(es.drop_last()) + flat_line(es.last())
    }
}

/// The group of an entry: its scope, or `unspecified`.
pub open spec fn scope_key(sc: Option<Seq<char>>) -> Seq<char> {
    match sc {
        Some(s) => s,
        None => "unspecified"@,
    }
}

/// The (summary, hash) pairs of the entries, grouped by scope in order.
pub open spec fn scope_groups(es: Seq<EntryView>) -> Map<Seq<char>, Seq<(Seq<char>, Seq<char>)>>
    decreases es.len(),
{
    if es.len() == 0 {
        Map::empty()
    } else {
        appended(
            scope_groups(es.drop_last()),
            scope_key(es.last().0),
            (es.last().1, es.last().2),
        )
    }
}

/// The lines of the entries without a scope.
pub open spec fn unspecified_text(ls: Seq<(Seq<char>, Seq<char>)>) -> Seq<char>
    decreases ls.len(),
{
    if ls.len() == 0 {
        Seq::empty()
    } else {
        unspecified_text(ls.drop_last()) + "- "@ + ls.last().0 + " ("@ + short_hash(ls.last().1)
            + ")\n"@
    }
}

/// The line of a pull request link: the pull request number is read from
/// the last `(#` of the message. Without a repository URL there is no
/// link.
pub open spec fn spec_link_pull_request(msg: Seq<char>, hash: Seq<char>, url: Option<Seq<char>>) -> Option<Seq<char>> {
    match url {
        None => None,
        Some(u) => {
            let i = last_occurrence(msg, "(#"@);
            let pr = if i >= 0 {
                parse_u32(strip_trailing(msg.skip(i + 2), seq![')']))
            } else {
                None
            };
            match pr {
                Some(n) => Some(
                    "- "@ + trim_end(msg.take(i)) + " ([#"@ + decimal(n as nat) + "]("@ + u
                        + "/pull/"@ + decimal(n as nat) + ")) (["@ + short_hash(hash) + "]("@
                        + u + "/commit/"@ + hash + "))"@,
                ),
                None => Some(
                    "- "@ + msg + " (["@ + short_hash(hash) + "]("@ + u + "/commit/"@ + hash
                        + "))"@,
                ),
            }
        },
    }
}

/// A line of a scope group.
pub open spec fn scoped_line(msg: Seq<char>, hash: Seq<char>, url: Option<Seq<char>>) -> Seq<char> {
    (match spec_link_pull_request(msg, hash, url) {
        Some(l) => l,
        None => "- "@ + msg,
    }) + "\n"@
}

/// The lines of a scope group.
pub open spec fn lines_text(ls: Seq<(Seq<char>, Seq<char>)>, url: Option<Seq<char>>) -> Seq<char>
    decreases ls.len(),
{
    if ls.len() == 0 {
        Seq::empty()
    } else {
        lines_text(ls.drop_last(), url) + scoped_line(ls.last().0, ls.last().1, url)
    }
}

/// The scope groups `ks`, each under a `####` heading.
pub open spec fn scoped_text(
    ks: Seq<Seq<char>>,
    m: Map<Seq<char>, Seq<(Seq<char>, Seq<char>)>>,
    url: Option<Seq<char>>,
) -> Seq<char>
    decreases ks.len(),
{
    if ks.len() == 0 {
        Seq::empty()
    } else {
        scoped_text(ks.drop_last(), m, url) + "\n#### "@ + ks.last() + "\n"@ + lines_text(
            m[ks.last()],
            url,
        )
    }
}

/// A section grouped by scope: the entries without a scope first, then
/// each scope in order.
pub open spec fn grouped_text(es: Seq<EntryView>, url: Option<Seq<char>>) -> Seq<char> {
    let g = scope_groups(es);
    let rest = g.remove("unspecified"@);
    (if g.contains_key("unspecified"@) {
        unspecified_text(g["unspecified"@])
    } else {
        Seq::empty()
    }) + scoped_text(sorted_keys(rest), rest, url)
}

/// The sections `ks`, each under a `###` heading.
pub open spec fn sections_text(
    ks: Seq<Seq<char>>,
    m: Map<Seq<char>, Seq<EntryView>>,
    group_by_scope: bool,
    url: Option<Seq<char>>,
) -> Seq<char>
    decreases ks.len(),
{
    if ks.len() == 0 {
        Seq::empty()
    } else {
        sections_text(ks.drop_last(), m, group_by_scope, url) + "\n### "@ + ks.last() + "\n"@ + (
        if group_by_scope {
            grouped_text(m[ks.last()], url)
        } else {
            flat_text(m[ks.last()])
        })
    }
}

/// A version section of the changelog.
pub open spec fn markdown_text(
    version: Seq<char>,
    date: Seq<char>,
    m: Map<Seq<char>, Seq<EntryView>>,
    group_by_scope: bool,
    url: Option<Seq<char>>,
) -> Seq<char> {
    "## ["@ + version + "] - "@ + date + "\n"@ + sections_text(sorted_keys(m), m, group_by_scope, url)
        + "\n"@
}

/// The view of an optional string slice.
pub open spec fn opt_view(u: Option<&str>) -> Option<Seq<char>> {
    match u {
        Some(s) => Some(s@),
        None => None,
    }
}

/// The first seven bytes of a hash.
fn short_hash_exec(hash: &[char]) -> (r: Vec<char>)
    requires
        has_short_hash(hash@),
    ensures
        r@ == short_hash(hash@),
{
    byte_prefix_chars(hash, 7)
}

/// Renders a section without scope groups.
pub fn render_flat(entries: &[SectionEntry]) -> (r: String)
    requires
        forall|i: int| 0 <= i < entries@.len() ==> has_short_hash(#[trigger] entries@[i].2@),
    ensures
        r@ == flat_text(entries_view(entries@)),
{
    let ghost es = entries_view(entries@);
    let mut result = String::new();
    let mut i: usize = 0;
    assert(es.take(0) =~= Seq::<EntryView>::empty());
    while i < entries.len()
        invariant
            i <= entries@.len(),
            es == entries_view(entries@),
            forall|j: int| 0 <= j < entries@.len() ==> has_short_hash(#[trigger] entries@[j].2@),
            result@ == flat_text(es.take(i as int)),
        decreases entries.len() - i,
    {
        let (scope, msg, hash) = &entries[i];
        let h = chars_of(hash.as_str());
        let short = short_hash_exec(h.as_slice());
        let ghost before = result@;
        match scope {
            Some(sc) => {
                push_str(&mut result, "- **");
                push_str(&mut result, sc.as_str());
                push_str(&mut result, "**: ");
            },
            None => {
                push_str(&mut result, "- ");
            },
        }
        push_str(&mut result, msg.as_str());
        push_str(&mut result, " (");
        push_chars(&mut result, short.as_slice());
        push_str(&mut result, ")\n");
        proof {
            assert(es[i as int] == entries@[i as int].deep_view());
            assert(es.take(i + 1).drop_last() == es.take(i as int));
            assert(result@ =~= before + flat_line(es[i as int]));
        }
        i += 1;
    }
    assert(es.take(es.len() as int) == es);
    result
}

/// The pull request and commit links of a line, when there is a
/// repository URL.
pub fn link_pull_request(msg: &str, hash: &str, github_url: Option<&str>) -> (r: Option<String>)
    requires
        github_url is Some ==> has_short_hash(hash@),
    ensures
        match spec_link_pull_request(msg@, hash@, opt_view(github_url)) {
            Some(l) => r matches Some(x) && x@ == l,
            None => r is None,
        },
{
    let url = match github_url {
        Some(u) => u,
        None => {
            return None;
        },
    };
    let m = chars_of(msg);
    let h = chars_of(hash);
    let short = short_hash_exec(h.as_slice());
    let pat = chars_of("(#");
    let mut pr: Option<u32> = None;
    let mut at: usize = 0;
    proof {
        reveal_strlit("(#");
        crate::text::lemma_last_occurrence(msg@, "(#"@, msg@.len() as int);
    }
    match last_occurrence_exec(m.as_slice(), pat.as_slice()) {
        Some(i) => {
            assert(occurs_at(msg@, "(#"@, i as int));
            let mlen = m.len();
            assert(i + 2 <= mlen);
            let tail = slice_chars(m.as_slice(), i + 2, mlen);
            assert(tail@ == msg@.skip(i + 2));
            let digits = strip_trailing_char(tail.as_slice(), ')');
            pr = parse_u32_chars(digits.as_slice());
            at = i;
        },
        None => {},
    }
    let mut out = String::new();
    match pr {
        Some(n) => {
            let before = slice_chars(m.as_slice(), 0, at);
            let before = trim_end_chars(before.as_slice());
            let num = decimal_chars(n);
            push_str(&mut out, "- ");
            push_chars(&mut out, before.as_slice());
            push_str(&mut out, " ([#");
            push_chars(&mut out, num.as_slice());
            push_str(&mut out, "](");
            push_str(&mut out, url);
            push_str(&mut out, "/pull/");
            push_chars(&mut out, num.as_slice());
            push_str(&mut out, ")) ([");
            push_chars(&mut out, short.as_slice());
            push_str(&mut out, "](");
            push_str(&mut out, url);
            push_str(&mut out, "/commit/");
            push_str(&mut out, hash);
            push_str(&mut out, "))");
        },
        None => {
            push_str(&mut out, "- ");
            push_str(&mut out, msg);
            push_str(&mut out, " ([");
            push_chars(&mut out, short.as_slice());
            push_str(&mut out, "](");
            push_str(&mut out, url);
            push_str(&mut out, "/commit/");
            push_str(&mut out, hash);
            push_str(&mut out, "))");
        },
    }
    proof {
        let l = spec_link_pull_request(msg@, hash@, opt_view(github_url)).unwrap();
        assert(out@ =~= l);
    }
    Some(out)
}

/// Whether rendering shows the short hash of an entry: always in flat
/// sections, and in grouped ones for entries without a scope or when links
/// are made.
pub open spec fn needs_short_hash(group_by_scope: bool, url: Option<Seq<char>>, e: EntryView) -> bool {
    !group_by_scope || url is Some || scope_key(e.0) == "unspecified"@
}

/// Each pair of a scope group comes from an entry of that scope.
proof fn lemma_scope_groups_from(es: Seq<EntryView>, k: Seq<char>, j: int)
    requires
        scope_groups(es).contains_key(k),
        0 <= j < scope_groups(es)[k].len(),
    ensures
        exists|i: int|
            0 <= i < es.len() && scope_key(es[i].0) == k && #[trigger] scope_groups(es)[k][j] == (
            es[i].1,
            es[i].2,
            ),
    decreases es.len(),
{
    let m = scope_groups(es.drop_last());
    let kl = scope_key(es.last().0);
    if k == kl && j == (if m.contains_key(k) {
        m[k].len() as int
    } else {
        0
    }) {
        let i = es.len() - 1;
        assert(scope_groups(es)[k][j] == (es[i].1, es[i].2));
    } else {
        assert(m.contains_key(k));
        assert(scope_groups(es)[k][j] == m[k][j]);
        lemma_scope_groups_from(es.drop_last(), k, j);
        let i = choose|i: int|
            0 <= i < es.drop_last().len() && scope_key(es.drop_last()[i].0) == k
                && #[trigger] m[k][j] == (es.drop_last()[i].1, es.drop_last()[i].2);
        assert(es.drop_last()[i] == es[i]);
    }
}

/// Appending a list of items to a key concatenates them onto its list.
pub proof fn lemma_append_all<T>(m: Map<Seq<char>, Seq<T>>, k: Seq<char>, xs: Seq<T>)
    ensures
        append_all(m, k, xs) == (if xs.len() == 0 {
            m
        } else {
            m.insert(
                k,
                (if m.contains_key(k) {
                    m[k]
                } else {
                    Seq::empty()
                }) + xs,
            )
        }),
    decreases xs.len(),
{
    if xs.len() > 0 {
        lemma_append_all(m, k, xs.drop_last());
        let base = if m.contains_key(k) {
            m[k]
        } else {
            Seq::<T>::empty()
        };
        assert(base + xs == (base + xs.drop_last()).push(xs.last()));
        assert(append_all(m, k, xs) =~= m.insert(k, base + xs));
    }
}

/// Each entry of a regrouped section comes from a commit of one of the
/// types.
proof fn lemma_regroup_from(
    ts: Seq<Seq<char>>,
    g: Map<Seq<char>, Seq<(Seq<char>, Option<Seq<char>>, Seq<char>)>>,
    tsm: Map<Seq<char>, Seq<char>>,
    sec: Seq<char>,
    j: int,
)
    requires
        regroup(ts, g, tsm).contains_key(sec),
        0 <= j < regroup(ts, g, tsm)[sec].len(),
    ensures
        exists|a: int, i: int|
            0 <= a < ts.len() && 0 <= i < g[ts[a]].len() && #[trigger] regroup(ts, g, tsm)[sec][j]
                == as_section_entry(#[trigger] g[ts[a]][i]),
    decreases ts.len(),
{
    let m = regroup(ts.drop_last(), g, tsm);
    let t = ts.last();
    let k = crate::config::changelog::section_of(tsm, t);
    let xs = g[t].map_values(|e| as_section_entry(e));
    lemma_append_all(m, k, xs);
    let base_len: int = if m.contains_key(k) {
        m[k].len() as int
    } else {
        0
    };
    if xs.len() > 0 && sec == k && j >= base_len {
        let a = ts.len() - 1;
        let i = j - base_len;
        assert(regroup(ts, g, tsm)[sec][j] == xs[i]);
        assert(xs[i] == as_section_entry(g[ts[a]][i]));
    } else {
        assert(m.contains_key(sec));
        assert(regroup(ts, g, tsm)[sec][j] == m[sec][j]);
        lemma_regroup_from(ts.drop_last(), g, tsm, sec, j);
        let (a, i) = choose|a: int, i: int|
            0 <= a < ts.drop_last().len() && 0 <= i < g[ts.drop_last()[a]].len() && #[trigger] m[sec][j]
                == as_section_entry(#[trigger] g[ts.drop_last()[a]][i]);
        assert(ts.drop_last()[a] == ts[a]);
    }
}

/// Renders a section grouped by scope.
pub fn render_grouped_by_scope(entries: &[SectionEntry], github_url: Option<&str>) -> (r: String)
    requires
        forall|i: int|
            0 <= i < entries@.len() ==> needs_short_hash(
                true,
                opt_view(github_url),
                #[trigger] entries_view(entries@)[i],
            ) ==> has_short_hash(entries@[i].2@),
    ensures
        r@ == grouped_text(entries_view(entries@), opt_view(github_url)),
{
    let ghost es = entries_view(entries@);
    let ghost url = opt_view(github_url);
    let mut scoped: StrMap<Vec<(String, String)>> = StrMap::new();
    let mut i: usize = 0;
    assert(es.take(0) =~= Seq::<EntryView>::empty());
    assert(scoped.deep_map() =~= scope_groups(es.take(0)));
    while i < entries.len()
        invariant
            i <= entries@.len(),
            es == entries_view(entries@),
            scoped.wf(),
            scoped.deep_map() == scope_groups(es.take(i as int)),
        decreases entries.len() - i,
    {
        let (scope, summary, hash) = &entries[i];
        let key = match scope {
            Some(s) => s.clone(),
            None => crate::text::owned("unspecified"),
        };
        assert(es[i as int] == entries@[i as int].deep_view());
        assert(key@ == scope_key(es[i as int].0));
        let item = (summary.clone(), hash.clone());
        assert(item.deep_view() == (es[i as int].1, es[i as int].2));
        scoped.push_to(key.as_str(), item);
        assert(es.take(i + 1).drop_last() == es.take(i as int));
        i += 1;
    }
    assert(es.take(es.len() as int) == es);
    let ghost g = scope_groups(es);
    let mut result = String::new();
    let unspecified = scoped.remove("unspecified");
    let ghost rest = g.remove("unspecified"@);
    assert(scoped.deep_map() =~= rest);
    match unspecified {
        Some(lines) => {
            let ghost ls = lines.deep_view();
            assert(ls == g["unspecified"@]);
            let mut u: usize = 0;
            assert(ls.take(0) =~= Seq::<(Seq<char>, Seq<char>)>::empty());
            while u < lines.len()
                invariant
                    u <= lines@.len(),
                    ls == lines.deep_view(),
                    ls == g["unspecified"@],
                    g == scope_groups(es),
                    g.contains_key("unspecified"@),
                    es == entries_view(entries@),
                    forall|i: int|
                        0 <= i < entries@.len() ==> needs_short_hash(
                            true,
                            url,
                            #[trigger] entries_view(entries@)[i],
                        ) ==> has_short_hash(entries@[i].2@),
                    result@ == unspecified_text(ls.take(u as int)),
                decreases lines.len() - u,
            {
                let (msg, hash) = &lines[u];
                proof {
                    lemma_scope_groups_from(es, "unspecified"@, u as int);
                    let i = choose|i: int|
                        0 <= i < es.len() && scope_key(es[i].0) == "unspecified"@
                            && #[trigger] scope_groups(es)["unspecified"@][u as int] == (
                            es[i].1,
                            es[i].2,
                        );
                    assert(es[i] == entries@[i].deep_view());
                    assert(ls[u as int] == (msg@, hash@));
                }
                let h = chars_of(hash.as_str());
                let short = short_hash_exec(h.as_slice());
                let ghost before = result@;
                push_str(&mut result, "- ");
                push_str(&mut result, msg.as_str());
                push_str(&mut result, " (");
                push_chars(&mut result, short.as_slice());
                push_str(&mut result, ")\n");
                proof {
                    assert(ls.take(u + 1).drop_last() == ls.take(u as int));
                    assert(result@ =~= unspecified_text(ls.take(u + 1)));
                }
                u += 1;
            }
            assert(ls.take(ls.len() as int) == ls);
        },
        None => {},
    }
    let ghost head = result@;
    proof {
        scoped.lemma_sorted_keys();
        assert(lists_keys_of(scoped.keys(), rest)) by {
            assert forall|k: Seq<char>| #[trigger] scoped.keys().contains(k) <==> rest.contains_key(
                k,
            ) by {
                assert(scoped.as_map().contains_key(k) == scoped.deep_map().contains_key(k));
            }
        }
        lemma_sorted_keys_of(scoped.keys(), rest);
    }
    let ghost ks = scoped.keys();
    let mut s: usize = 0;
    assert(ks.take(0) =~= Seq::<Seq<char>>::empty());
    while s < scoped.len()
        invariant
            s <= scoped.size(),
            scoped.wf(),
            ks == scoped.keys(),
            rest == scoped.deep_map(),
            g == scope_groups(es),
            rest == g.remove("unspecified"@),
            es == entries_view(entries@),
            url == opt_view(github_url),
            forall|i: int|
                0 <= i < entries@.len() ==> needs_short_hash(
                    true,
                    url,
                    #[trigger] entries_view(entries@)[i],
                ) ==> has_short_hash(entries@[i].2@),
            result@ == head + scoped_text(ks.take(s as int), rest, url),
        decreases scoped.size() - s,
    {
        let scope = scoped.key_at(s);
        let lines = scoped.value_at(s);
        proof {
            scoped.lemma_pos(s as int);
            assert(rest[scope@] == lines.deep_view());
        }
        let ghost ls = lines.deep_view();
        proof {
            assert(scoped.as_map().contains_key(scope@));
            assert(rest.contains_key(scope@));
            assert(scope@ != "unspecified"@);
            assert(g.contains_key(scope@));
            assert(rest[scope@] == g[scope@]);
        }
        let ghost before = result@;
        push_str(&mut result, "\n#### ");
        push_str(&mut result, scope.as_str());
        push_str(&mut result, "\n");
        let ghost mid = result@;
        let mut u: usize = 0;
        assert(ls.take(0) =~= Seq::<(Seq<char>, Seq<char>)>::empty());
        while u < lines.len()
            invariant
                u <= lines@.len(),
                ls == lines.deep_view(),
                ls == g[scope@],
                scope@ != "unspecified"@,
                g == scope_groups(es),
                g.contains_key(scope@),
                es == entries_view(entries@),
                url == opt_view(github_url),
                forall|i: int|
                    0 <= i < entries@.len() ==> needs_short_hash(
                        true,
                        url,
                        #[trigger] entries_view(entries@)[i],
                    ) ==> has_short_hash(entries@[i].2@),
                result@ == mid + lines_text(ls.take(u as int), url),
            decreases lines.len() - u,
        {
            let (msg, hash) = &lines[u];
            proof {
                assert(ls[u as int] == (msg@, hash@));
                lemma_scope_groups_from(es, scope@, u as int);
                let i = choose|i: int|
                    0 <= i < es.len() && scope_key(es[i].0) == scope@
                        && #[trigger] scope_groups(es)[scope@][u as int] == (es[i].1, es[i].2);
                assert(es[i] == entries@[i].deep_view());
            }
            let ghost before_line = result@;
            match link_pull_request(msg.as_str(), hash.as_str(), github_url) {
                Some(linked) => {
                    push_str(&mut result, linked.as_str());
                },
                None => {
                    push_str(&mut result, "- ");
                    push_str(&mut result, msg.as_str());
                },
            }
            push_str(&mut result, "\n");
            proof {
                assert(ls.take(u + 1).drop_last() == ls.take(u as int));
                assert(result@ =~= before_line + scoped_line(msg@, hash@, url));
            }
            u += 1;
        }
        proof {
            assert(ls.take(ls.len() as int) == ls);
            assert(ks.take(s + 1).drop_last() == ks.take(s as int));
            assert(ks.take(s + 1).last() == scope@);
            assert(rest[scope@] == g[scope@]);
        }
        s += 1;
    }
    assert(ks.take(ks.len() as int) == ks);
    result
}

/// Renders one version section of the changelog: a `## [version] - date`
/// heading, then each changelog section in order, flat or grouped by
/// scope.
pub fn render_markdown(
    version: &str,
    grouped_commits: &StrMap<Vec<TypedCommit>>,
    group_by_scope: bool,
    date: &str,
    config: &Changelog,
    github_url: Option<&str>,
) -> (r: String)
    requires
        config.sections.wf(),
        grouped_commits.wf(),
        forall|a: int, i: int|
            0 <= a < grouped_commits.keys().len() && 0 <= i
                < grouped_commits.deep_map()[grouped_commits.keys()[a]].len() ==> needs_short_hash(
                group_by_scope,
                opt_view(github_url),
                as_section_entry(#[trigger] grouped_commits.deep_map()[grouped_commits.keys()[a]][i]),
            ) ==> has_short_hash(grouped_commits.deep_map()[grouped_commits.keys()[a]][i].0),
    ensures
        r@ == markdown_text(
            version@,
            date@,
            regroup(
                grouped_commits.keys(),
                grouped_commits.deep_map(),
                type_sections(&config.sections),
            ),
            group_by_scope,
            opt_view(github_url),
        ),
{
    let ghost ts = grouped_commits.keys();
    let ghost gm = grouped_commits.deep_map();
    let ghost tsm = type_sections(&config.sections);
    let ghost url = opt_view(github_url);
    let section_map = config.sections.group_commits_by_section(grouped_commits);
    let ghost m = regroup(ts, gm, tsm);
    let mut output = String::new();
    push_str(&mut output, "## [");
    push_str(&mut output, version);
    push_str(&mut output, "] - ");
    push_str(&mut output, date);
    push_str(&mut output, "\n");
    let ghost head = output@;
    proof {
        section_map.lemma_sorted_keys();
        assert(lists_keys_of(section_map.keys(), m)) by {
            assert forall|k: Seq<char>| #[trigger] section_map.keys().contains(k) <==> m.contains_key(
                k,
            ) by {
                assert(section_map.as_map().contains_key(k) == section_map.deep_map().contains_key(
                    k,
                ));
            }
        }
        lemma_sorted_keys_of(section_map.keys(), m);
    }
    let ghost ks = section_map.keys();
    let mut s: usize = 0;
    assert(ks.take(0) =~= Seq::<Seq<char>>::empty());
    while s < section_map.len()
        invariant
            s <= section_map.size(),
            section_map.wf(),
            ks == section_map.keys(),
            m == section_map.deep_map(),
            m == regroup(ts, gm, tsm),
            url == opt_view(github_url),
            forall|a: int, i: int|
                0 <= a < ts.len() && 0 <= i < gm[ts[a]].len() ==> needs_short_hash(
                    group_by_scope,
                    url,
                    as_section_entry(#[trigger] gm[ts[a]][i]),
                ) ==> has_short_hash(gm[ts[a]][i].0),
            output@ == head + sections_text(ks.take(s as int), m, group_by_scope, url),
        decreases section_map.size() - s,
    {
        let section = section_map.key_at(s);
        let entries = section_map.value_at(s);
        proof {
            section_map.lemma_pos(s as int);
            assert(m[section@] == entries.deep_view());
            assert(entries_view(entries@) =~= entries.deep_view());
            assert forall|j: int|
                0 <= j < entries@.len() && needs_short_hash(
                    group_by_scope,
                    url,
                    #[trigger] entries_view(entries@)[j],
                ) implies has_short_hash(entries@[j].2@) by {
                lemma_regroup_from(ts, gm, tsm, section@, j);
                let (a, i) = choose|a: int, i: int|
                    0 <= a < ts.len() && 0 <= i < gm[ts[a]].len() && #[trigger] regroup(
                        ts,
                        gm,
                        tsm,
                    )[section@][j] == as_section_entry(#[trigger] gm[ts[a]][i]);
                assert(entries_view(entries@)[j] == m[section@][j]);
            }
        }
        let ghost before = output@;
        push_str(&mut output, "\n### ");
        push_str(&mut output, section.as_str());
        push_str(&mut output, "\n");
        if group_by_scope {
            let text = render_grouped_by_scope(entries.as_slice(), github_url);
            push_str(&mut output, text.as_str());
        } else {
            assert forall|j: int| 0 <= j < entries@.len() implies has_short_hash(
                #[trigger] entries@[j].2@,
            ) by {
                assert(needs_short_hash(group_by_scope, url, entries_view(entries@)[j]));
            }
            let text = render_flat(entries.as_slice());
            push_str(&mut output, text.as_str());
        }
        proof {
            assert(ks.take(s + 1).drop_last() == ks.take(s as int));
            assert(ks.take(s + 1).last() == section@);
        }
        s += 1;
    }
    assert(ks.take(ks.len() as int) == ks);
    push_str(&mut output, "\n");
    output
}

/// The tag that a commit walk is under after the commits `cs`: the tag of
/// the last tagged commit so far, or `Unreleased`.
pub open spec fn current_tag(cs: Seq<(Seq<char>, Seq<char>)>, tags: Map<Seq<char>, Seq<char>>) -> Seq<char>
    decreases cs.len(),
{
    if cs.len() == 0 {
        "Unreleased"@
    } else if tags.contains_key(cs.last().0) {
        tags[cs.last().0]
    } else {
        current_tag(cs.drop_last(), tags)
    }
}

/// The commits of a walk (newest first) grouped under the tag they belong
/// to, each as (short hash, summary).
pub open spec fn commits_by_tag(cs: Seq<(Seq<char>, Seq<char>)>, tags: Map<Seq<char>, Seq<char>>) -> Map<
    Seq<char>,
    Seq<(Seq<char>, Seq<char>)>,
>
    decreases cs.len(),
{
    if cs.len() == 0 {
        Map::empty()
    } else {
        appended(
            commits_by_tag(cs.drop_last(), tags),
            current_tag(cs, tags),
            (short_hash(cs.last().0), cs.last().1),
        )
    }
}

/// Groups the commits of a history walk by release. `commits` holds
/// (commit id, summary) from the newest commit on; `commit_to_tag` maps the
/// id of each tagged commit to its tag. A commit belongs to the tag of the
/// nearest tagged commit at or before it in the walk, or to `Unreleased`.
pub fn generate_changelog(commits: &Vec<(String, String)>, commit_to_tag: &StrMap<String>) -> (r:
    StrMap<Vec<(String, String)>>)
    requires
        commit_to_tag.wf(),
        forall|i: int| 0 <= i < commits@.len() ==> has_short_hash(#[trigger] commits@[i].0@),
    ensures
        r.wf(),
        r.deep_map() == commits_by_tag(commits.deep_view(), commit_to_tag.text_map()),
{
    let ghost cs = commits.deep_view();
    let ghost tags = commit_to_tag.text_map();
    let mut grouped: StrMap<Vec<(String, String)>> = StrMap::new();
    let mut current = crate::text::owned("Unreleased");
    let mut i: usize = 0;
    assert(cs.take(0) =~= Seq::<(Seq<char>, Seq<char>)>::empty());
    assert(grouped.deep_map() =~= commits_by_tag(cs.take(0), tags));
    while i < commits.len()
        invariant
            i <= commits@.len(),
            cs == commits.deep_view(),
            tags == commit_to_tag.text_map(),
            commit_to_tag.wf(),
            forall|j: int| 0 <= j < commits@.len() ==> has_short_hash(#[trigger] commits@[j].0@),
            grouped.wf(),
            grouped.deep_map() == commits_by_tag(cs.take(i as int), tags),
            current@ == current_tag(cs.take(i as int), tags),
        decreases commits.len() - i,
    {
        let (oid, message) = &commits[i];
        assert(cs[i as int] == (oid@, message@));
        match commit_to_tag.get(oid.as_str()) {
            Some(tag) => {
                current = tag.clone();
            },
            None => {},
        }
        let o = chars_of(oid.as_str());
        let short = crate::text::string_of(short_hash_exec(o.as_slice()).as_slice());
        proof {
            assert(cs.take(i + 1).drop_last() == cs.take(i as int));
            assert(cs.take(i + 1).last() == cs[i as int]);
        }
        grouped.push_to(current.as_str(), (short, message.clone()));
        i += 1;
    }
    assert(cs.take(cs.len() as int) == cs);
    grouped
}


// ---------------------------------------------------------------------
// Laws
// ---------------------------------------------------------------------

/// The (summary, hash) pairs of entries.
pub open spec fn summaries_and_hashes(es: Seq<EntryView>) -> Seq<(Seq<char>, Seq<char>)> {
    es.map_values(|e: EntryView| (e.1, e.2))
}

/// Entries without a scope all fall into the `unspecified` group, in order.
proof fn lemma_unscoped_groups(es: Seq<EntryView>)
    requires
        forall|i: int| 0 <= i < es.len() ==> (#[trigger] es[i]).0 is None,
    ensures
        es.len() == 0 ==> scope_groups(es) == Map::<Seq<char>, Seq<(Seq<char>, Seq<char>)>>::empty(),
        es.len() > 0 ==> scope_groups(es) == Map::<Seq<char>, Seq<(Seq<char>, Seq<char>)>>::empty().insert(
            "unspecified"@,
            summaries_and_hashes(es),
        ),
    decreases es.len(),
{
    if es.len() > 0 {
        let p = es.drop_last();
        assert forall|i: int| 0 <= i < p.len() implies (#[trigger] p[i]).0 is None by {
            assert(p[i] == es[i]);
        }
        lemma_unscoped_groups(p);
        assert(es.last() == es[es.len() - 1]);
        assert(summaries_and_hashes(es) =~= summaries_and_hashes(p).push((es.last().1, es.last().2)));
        assert(scope_key(es.last().0) == "unspecified"@);
        if p.len() == 0 {
            assert(summaries_and_hashes(p) =~= Seq::<(Seq<char>, Seq<char>)>::empty());
        }
        assert(scope_groups(es) =~= Map::<Seq<char>, Seq<(Seq<char>, Seq<char>)>>::empty().insert(
            "unspecified"@,
            summaries_and_hashes(es),
        ));
    }
}

/// The lines of entries without a scope, one each, in order.
proof fn lemma_unscoped_lines(es: Seq<EntryView>)
    requires
        forall|i: int| 0 <= i < es.len() ==> (#[trigger] es[i]).0 is None,
    ensures
        unspecified_text(summaries_and_hashes(es)) == flat_text(es),
    decreases es.len(),
{
    if es.len() > 0 {
        let p = es.drop_last();
        assert forall|i: int| 0 <= i < p.len() implies (#[trigger] p[i]).0 is None by {
            assert(p[i] == es[i]);
        }
        lemma_unscoped_lines(p);
        assert(es.last() == es[es.len() - 1]);
        let l = summaries_and_hashes(es);
        assert(l.drop_last() =~= summaries_and_hashes(p));
        assert(l.last() == (es.last().1, es.last().2));
    }
}

/// Grouped by scope, entries without a scope are listed exactly as in the
/// flat rendering: one line each, in order.
pub proof fn lemma_unscoped_grouped_is_flat(es: Seq<EntryView>, url: Option<Seq<char>>)
    requires
        forall|i: int| 0 <= i < es.len() ==> (#[trigger] es[i]).0 is None,
    ensures
        grouped_text(es, url) == flat_text(es),
{
    lemma_unscoped_groups(es);
    lemma_unscoped_lines(es);
    let g = scope_groups(es);
    let rest = g.remove("unspecified"@);
    assert(rest =~= Map::<Seq<char>, Seq<(Seq<char>, Seq<char>)>>::empty());
    assert(lists_keys_of(Seq::<Seq<char>>::empty(), rest));
    lemma_sorted_keys_of(Seq::<Seq<char>>::empty(), rest);
    if es.len() == 0 {
        assert(grouped_text(es, url) =~= Seq::<char>::empty());
    }
}

/// Grouped by scope, each further entry without a scope adds its own line
/// `- summary (short hash)` after the lines of the entries before it; no
/// entries give no text.
pub proof fn lemma_unscoped_grouped_appends(es: Seq<EntryView>, e: EntryView, url: Option<Seq<char>>)
    requires
        forall|i: int| 0 <= i < es.len() ==> (#[trigger] es[i]).0 is None,
        e.0 is None,
    ensures
        grouped_text(es.push(e), url) == grouped_text(es, url) + seq!['-', ' '] + e.1 + seq![' ', '('] + short_hash(e.2) + seq![')', '\n'],
        grouped_text(Seq::empty(), url) == Seq::<char>::empty(),
{
    let es2 = es.push(e);
    assert forall|i: int| 0 <= i < es2.len() implies (#[trigger] es2[i]).0 is None by {
        if i < es.len() {
            assert(es2[i] == es[i]);
        }
    }
    lemma_unscoped_grouped_is_flat(es, url);
    lemma_unscoped_grouped_is_flat(es2, url);
    lemma_unscoped_grouped_is_flat(Seq::empty(), url);
    assert(es2.drop_last() =~= es);
    reveal_strlit("- ");
    reveal_strlit(" (");
    reveal_strlit(")\n");
    assert(flat_line(e) =~= seq!['-', ' '] + e.1 + seq![' ', '('] + short_hash(e.2) + seq![')', '\n']);
}

/// A tagged commit is always listed under its own tag, with its short hash
/// and summary.
pub proof fn lemma_tagged_commit_under_its_tag(
    cs: Seq<(Seq<char>, Seq<char>)>,
    tags: Map<Seq<char>, Seq<char>>,
    i: int,
)
    requires
        0 <= i < cs.len(),
        tags.contains_key(cs[i].0),
    ensures
        commits_by_tag(cs, tags).contains_key(tags[cs[i].0]),
        commits_by_tag(cs, tags)[tags[cs[i].0]].contains((short_hash(cs[i].0), cs[i].1)),
    decreases cs.len(),
{
    let x = (short_hash(cs[i].0), cs[i].1);
    let k = tags[cs[i].0];
    if i == cs.len() - 1 {
        assert(cs.last() == cs[i]);
        assert(current_tag(cs, tags) == k);
        let m = commits_by_tag(cs, tags);
        assert(m[k].last() == x);
        assert(m[k][m[k].len() - 1] == x);
    } else {
        let p = cs.drop_last();
        assert(p[i] == cs[i]);
        lemma_tagged_commit_under_its_tag(p, tags, i);
        let before = commits_by_tag(p, tags);
        let m = commits_by_tag(cs, tags);
        let j = choose|j: int| 0 <= j < before[k].len() && before[k][j] == x;
        if current_tag(cs, tags) == k {
            assert(m[k] == before[k].push((short_hash(cs.last().0), cs.last().1)));
            assert(m[k][j] == x);
        } else {
            assert(m[k] == before[k]);
        }
    }
}

} // verus!
