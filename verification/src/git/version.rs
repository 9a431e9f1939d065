//! Semantic version bumps decided by commit history.
use crate::config::versioning::CWVersioning;
use crate::git::commit::{all_plain, parse_commit_message, spec_parse_message};
use crate::text::{
    chars_of, contains_chars, contains_seq, decimal, decimal_chars, parse_u32, parse_u32_chars,
    push_chars, split_chars, split_on, strings_contain, strings_view, strip_leading,
    strip_leading_chars, strs_view,
};
use vstd::prelude::*;

verus! {

/// The kind of version bump.
#[derive(Clone, Copy, Debug, PartialEq, Eq, Structural)]
pub enum BumpKind {
    Major,
    Minor,
    Patch,
}

/// A version component: its number, or 0 when it is not one.
pub open spec fn part_value(p: Seq<char>) -> u32 {
    match parse_u32(p) {
        Some(n) => n,
        None => 0,
    }
}

/// The three components of a version such as `v1.2.3`: leading `v`s are
/// dropped, the rest is split at dots, missing components are 0 and extra
/// ones are ignored.
pub open spec fn spec_version_parts(cur: Seq<char>) -> Seq<u32> {
    let ps = split_on(strip_leading(cur, 'v'), '.');
    Seq::new(
        3,
        |i: int|
            if i < ps.len() {
                part_value(ps[i])
            } else {
                0
            },
    )
}

/// The component that a bump increments does not overflow.
pub open spec fn can_bump(kind: BumpKind, parts: Seq<u32>) -> bool {
    match kind {
        BumpKind::Major => parts[0] < u32::MAX,
        BumpKind::Minor => parts[1] < u32::MAX,
        BumpKind::Patch => parts[2] < u32::MAX,
    }
}

/// The components after a bump.
pub open spec fn bumped(kind: BumpKind, p: Seq<u32>) -> (nat, nat, nat) {
    match kind {
        BumpKind::Major => ((p[0] + 1) as nat, 0, 0),
        BumpKind::Minor => (p[0] as nat, (p[1] + 1) as nat, 0),
        BumpKind::Patch => (p[0] as nat, p[1] as nat, (p[2] + 1) as nat),
    }
}

/// `v<major>.<minor>.<patch>`.
pub open spec fn version_text(v: (nat, nat, nat)) -> Seq<char> {
    seq!['v'] + decimal(v.0) + seq!['.'] + decimal(v.1) + seq!['.'] + decimal(v.2)
}

/// The bumped version of `cur`.
pub open spec fn spec_bump_version(kind: BumpKind, cur: Seq<char>) -> Seq<char> {
    version_text(bumped(kind, spec_version_parts(cur)))
}

/// A message marks a breaking change: it holds a keyword, or `!:`.
pub open spec fn spec_is_breaking(m: Seq<char>, keywords: Seq<Seq<char>>) -> bool {
    (exists|i: int| 0 <= i < keywords.len() && contains_seq(m, #[trigger] keywords[i]))
        || contains_seq(m, "!:"@)
}

/// The bump that one commit message asks for.
pub open spec fn message_bump(
    m: Seq<char>,
    types: Seq<Seq<char>>,
    minor: Seq<Seq<char>>,
    patch: Seq<Seq<char>>,
    keywords: Seq<Seq<char>>,
) -> Option<BumpKind> {
    if spec_is_breaking(m, keywords) {
        Some(BumpKind::Major)
    } else {
        match spec_parse_message(m, types) {
            Some((t, _, _)) => if minor.contains(t) {
                Some(BumpKind::Minor)
            } else if patch.contains(t) {
                Some(BumpKind::Patch)
            } else {
                None
            },
            None => None,
        }
    }
}

/// The order of bumps: none, patch, minor, major.
pub open spec fn bump_rank(b: Option<BumpKind>) -> int {
    match b {
        None => 0,
        Some(BumpKind::Patch) => 1,
        Some(BumpKind::Minor) => 2,
        Some(BumpKind::Major) => 3,
    }
}

/// The higher of two bumps.
pub open spec fn higher_bump(a: Option<BumpKind>, b: Option<BumpKind>) -> Option<BumpKind> {
    if bump_rank(b) > bump_rank(a) {
        b
    } else {
        a
    }
}

/// The highest bump that a message of the range asks for: major when one
/// is breaking, else minor when one has a minor type, else patch when one
/// has a patch type, else none.
pub open spec fn range_bump(
    ms: Seq<Seq<char>>,
    types: Seq<Seq<char>>,
    minor: Seq<Seq<char>>,
    patch: Seq<Seq<char>>,
    keywords: Seq<Seq<char>>,
) -> Option<BumpKind>
    decreases ms.len(),
{
    if ms.len() == 0 {
        None
    } else {
        higher_bump(
            range_bump(ms.drop_last(), types, minor, patch, keywords),
            message_bump(ms.last(), types, minor, patch, keywords),
        )
    }
}

/// The three components of a version string.
pub fn version_parts(current_version: &str) -> (r: Vec<u32>)
    ensures
        r@ == spec_version_parts(current_version@),
{
    let v = chars_of(current_version);
    let s = strip_leading_chars(v.as_slice(), 'v');
    let pieces = split_chars(s.as_slice(), '.');
    let ghost ps = split_on(strip_leading(current_version@, 'v'), '.');
    let mut r: Vec<u32> = Vec::new();
    let mut i: usize = 0;
    while i < 3
        invariant
            i <= 3,
            pieces@.len() == ps.len(),
            forall|j: int| 0 <= j < pieces@.len() ==> #[trigger] pieces@[j]@ == ps[j],
            r@.len() == i,
            forall|j: int|
                0 <= j < i ==> #[trigger] r@[j] == (if j < ps.len() {
                    part_value(ps[j])
                } else {
                    0
                }),
        decreases 3 - i,
    {
        let x = if i < pieces.len() {
            match parse_u32_chars(pieces[i].as_slice()) {
                Some(n) => n,
                None => 0,
            }
        } else {
            0
        };
        r.push(x);
        i += 1;
    }
    assert(r@ =~= spec_version_parts(current_version@));
    r
}

/// The next version after `current_version` for a bump of the given kind,
/// as `v<major>.<minor>.<patch>`.
pub fn bump_version(bump_type: BumpKind, current_version: &str) -> (r: String)
    requires
        can_bump(bump_type, spec_version_parts(current_version@)),
    ensures
        r@ == spec_bump_version(bump_type, current_version@),
{
    let mut parts = version_parts(current_version);
    match bump_type {
        BumpKind::Major => {
            let a = parts[0] + 1;
            parts.set(0, a);
            parts.set(1, 0);
            parts.set(2, 0);
        },
        BumpKind::Minor => {
            let b = parts[1] + 1;
            parts.set(1, b);
            parts.set(2, 0);
        },
        BumpKind::Patch => {
            let c = parts[2] + 1;
            parts.set(2, c);
        },
    }
    let mut out = String::new();
    crate::text::string_push(&mut out, 'v');
    push_chars(&mut out, decimal_chars(parts[0]).as_slice());
    crate::text::string_push(&mut out, '.');
    push_chars(&mut out, decimal_chars(parts[1]).as_slice());
    crate::text::string_push(&mut out, '.');
    push_chars(&mut out, decimal_chars(parts[2]).as_slice());
    proof {
        let b = bumped(bump_type, spec_version_parts(current_version@));
        assert(parts@[0] as nat == b.0 && parts@[1] as nat == b.1 && parts@[2] as nat == b.2);
        assert(out@ =~= version_text(b));
    }
    out
}

/// Whether a commit message marks a breaking change.
pub fn is_breaking_change(message: &str, keywords: &Vec<String>) -> (b: bool)
    ensures
        b == spec_is_breaking(message@, strings_view(keywords@)),
{
    let m = chars_of(message);
    let ghost ks = strings_view(keywords@);
    let mut i: usize = 0;
    while i < keywords.len()
        invariant
            i <= keywords@.len(),
            ks == strings_view(keywords@),
            m@ == message@,
            forall|j: int| 0 <= j < i ==> !contains_seq(m@, #[trigger] ks[j]),
        decreases keywords.len() - i,
    {
        let k = chars_of(keywords[i].as_str());
        assert(ks[i as int] == k@);
        if contains_chars(m.as_slice(), k.as_slice()) {
            return true;
        }
        i += 1;
    }
    let bang = chars_of("!:");
    contains_chars(m.as_slice(), bang.as_slice())
}

/// The bump that a range of commit messages asks for: the highest bump
/// that one of them asks for.
pub fn determine_bump_type(
    messages: &Vec<String>,
    allowed_types: &[&str],
    versioning: &CWVersioning,
    breaking_keywords: &Vec<String>,
) -> (r: Option<BumpKind>)
    requires
        all_plain(strs_view(allowed_types@)),
    ensures
        r == range_bump(
            strings_view(messages@),
            strs_view(allowed_types@),
            strings_view(versioning.minor@),
            strings_view(versioning.patch@),
            strings_view(breaking_keywords@),
        ),
{
    let ghost ms = strings_view(messages@);
    let ghost types = strs_view(allowed_types@);
    let ghost minor = strings_view(versioning.minor@);
    let ghost patch = strings_view(versioning.patch@);
    let ghost kws = strings_view(breaking_keywords@);
    let mut best: Option<BumpKind> = None;
    let mut i: usize = 0;
    assert(ms.take(0) =~= Seq::<Seq<char>>::empty());
    while i < messages.len()
        invariant
            i <= messages@.len(),
            ms == strings_view(messages@),
            types == strs_view(allowed_types@),
            all_plain(types),
            minor == strings_view(versioning.minor@),
            patch == strings_view(versioning.patch@),
            kws == strings_view(breaking_keywords@),
            best == range_bump(ms.take(i as int), types, minor, patch, kws),
        decreases messages.len() - i,
    {
        let message = messages[i].as_str();
        assert(ms[i as int] == message@);
        assert(ms.take(i + 1).drop_last() =~= ms.take(i as int));
        assert(ms.take(i + 1).last() == message@);
        let this: Option<BumpKind> = if is_breaking_change(message, breaking_keywords) {
            Some(BumpKind::Major)
        } else {
            match parse_commit_message(message, allowed_types) {
                Some((commit_type, _, _)) => {
                    if strings_contain(&versioning.minor, commit_type.as_str()) {
                        Some(BumpKind::Minor)
                    } else if strings_contain(&versioning.patch, commit_type.as_str()) {
                        Some(BumpKind::Patch)
                    } else {
                        None
                    }
                },
                None => None,
            }
        };
        assert(this == message_bump(message@, types, minor, patch, kws));
        best = match (best, this) {
            (_, Some(BumpKind::Major)) => Some(BumpKind::Major),
            (Some(BumpKind::Major), _) => Some(BumpKind::Major),
            (_, Some(BumpKind::Minor)) => Some(BumpKind::Minor),
            (Some(BumpKind::Minor), _) => Some(BumpKind::Minor),
            (_, Some(BumpKind::Patch)) => Some(BumpKind::Patch),
            (b, None) => b,
        };
        i += 1;
    }
    assert(ms.take(ms.len() as int) =~= ms);
    best
}

/// Whether the component that a bump increments stays below `u32::MAX`,
/// so that the bump does not overflow.
pub fn can_bump_version(bump_type: BumpKind, current_version: &str) -> (b: bool)
    ensures
        b == can_bump(bump_type, spec_version_parts(current_version@)),
{
    let parts = version_parts(current_version);
    match bump_type {
        BumpKind::Major => parts[0] < u32::MAX,
        BumpKind::Minor => parts[1] < u32::MAX,
        BumpKind::Patch => parts[2] < u32::MAX,
    }
}

/// The next version: the latest tag (or `0.0.0` when there is none) bumped
/// as the commits ask, or `None` when they ask for no bump.
pub fn next_semantic_version(bump: Option<BumpKind>, latest_tag: Option<String>) -> (r: Option<
    String,
>)
    requires
        bump matches Some(k) ==> can_bump(
            k,
            spec_version_parts(
                match latest_tag {
                    Some(t) => t@,
                    None => "0.0.0"@,
                },
            ),
        ),
    ensures
        match bump {
            Some(k) => r matches Some(v) && v@ == spec_bump_version(
                k,
                match latest_tag {
                    Some(t) => t@,
                    None => "0.0.0"@,
                },
            ),
            None => r is None,
        },
{
    match bump {
        Some(k) => {
            let current = match latest_tag {
                Some(t) => t,
                None => crate::text::owned("0.0.0"),
            };
            Some(bump_version(k, current.as_str()))
        },
        None => None,
    }
}

/// A bump moves the version strictly up in the order of
/// (major, minor, patch).
pub proof fn lemma_bump_increases(kind: BumpKind, cur: Seq<char>)
    requires
        can_bump(kind, spec_version_parts(cur)),
    ensures
        ({
            let p = spec_version_parts(cur);
            let b = bumped(kind, p);
            b.0 > p[0] || (b.0 == p[0] && b.1 > p[1]) || (b.0 == p[0] && b.1 == p[1] && b.2
                > p[2])
        }),
{
}


/// The range asks for at least the bump of each of its messages.
proof fn lemma_range_bump_at_least(
    ms: Seq<Seq<char>>,
    types: Seq<Seq<char>>,
    minor: Seq<Seq<char>>,
    patch: Seq<Seq<char>>,
    keywords: Seq<Seq<char>>,
    i: int,
)
    requires
        0 <= i < ms.len(),
    ensures
        bump_rank(range_bump(ms, types, minor, patch, keywords)) >= bump_rank(
            message_bump(ms[i], types, minor, patch, keywords),
        ),
    decreases ms.len(),
{
    if i < ms.len() - 1 {
        assert(ms.drop_last()[i] == ms[i]);
        lemma_range_bump_at_least(ms.drop_last(), types, minor, patch, keywords, i);
    }
}

/// The bump of a range is the bump of one of its messages, or none.
proof fn lemma_range_bump_from_message(
    ms: Seq<Seq<char>>,
    types: Seq<Seq<char>>,
    minor: Seq<Seq<char>>,
    patch: Seq<Seq<char>>,
    keywords: Seq<Seq<char>>,
)
    ensures
        range_bump(ms, types, minor, patch, keywords) is None || exists|i: int|
            0 <= i < ms.len() && range_bump(ms, types, minor, patch, keywords) == message_bump(
                #[trigger] ms[i],
                types,
                minor,
                patch,
                keywords,
            ),
    decreases ms.len(),
{
    if ms.len() > 0 {
        let p = ms.drop_last();
        lemma_range_bump_from_message(p, types, minor, patch, keywords);
        let r = range_bump(ms, types, minor, patch, keywords);
        if r == message_bump(ms.last(), types, minor, patch, keywords) {
            assert(ms[ms.len() - 1] == ms.last());
        } else if r is Some {
            let i = choose|i: int|
                0 <= i < p.len() && range_bump(p, types, minor, patch, keywords) == message_bump(
                    #[trigger] p[i],
                    types,
                    minor,
                    patch,
                    keywords,
                );
            assert(ms[i] == p[i]);
        }
    }
}

/// A range asks for a major bump exactly when one of its messages holds one
/// of the breaking keywords, or `!:`.
pub proof fn lemma_major_bump_iff_breaking(
    ms: Seq<Seq<char>>,
    types: Seq<Seq<char>>,
    minor: Seq<Seq<char>>,
    patch: Seq<Seq<char>>,
    keywords: Seq<Seq<char>>,
)
    ensures
        range_bump(ms, types, minor, patch, keywords) == Some(BumpKind::Major) <==> exists|i: int|
            0 <= i < ms.len() && ((exists|j: int|
                0 <= j < keywords.len() && contains_seq(#[trigger] ms[i], keywords[j]))
                || contains_seq(ms[i], seq!['!', ':'])),
{
    let r = range_bump(ms, types, minor, patch, keywords);
    reveal_strlit("!:");
    assert("!:"@ =~= seq!['!', ':']);
    if exists|i: int|
        0 <= i < ms.len() && ((exists|j: int|
            0 <= j < keywords.len() && contains_seq(#[trigger] ms[i], keywords[j]))
            || contains_seq(ms[i], seq!['!', ':'])) {
        let i = choose|i: int|
            0 <= i < ms.len() && ((exists|j: int|
                0 <= j < keywords.len() && contains_seq(#[trigger] ms[i], keywords[j]))
                || contains_seq(ms[i], seq!['!', ':']));
        if !contains_seq(ms[i], seq!['!', ':']) {
            let j = choose|j: int| 0 <= j < keywords.len() && contains_seq(ms[i], keywords[j]);
            assert(contains_seq(ms[i], keywords[j]));
        }
        assert(spec_is_breaking(ms[i], keywords));
        lemma_range_bump_at_least(ms, types, minor, patch, keywords, i);
    }
    if r == Some(BumpKind::Major) {
        lemma_range_bump_from_message(ms, types, minor, patch, keywords);
        let i = choose|i: int|
            0 <= i < ms.len() && r == message_bump(#[trigger] ms[i], types, minor, patch, keywords);
        assert(spec_is_breaking(ms[i], keywords));
        if !contains_seq(ms[i], seq!['!', ':']) {
            let j = choose|j: int| 0 <= j < keywords.len() && contains_seq(ms[i], #[trigger] keywords[j]);
            assert(contains_seq(ms[i], keywords[j]));
        }
    }
}

} // verus!
