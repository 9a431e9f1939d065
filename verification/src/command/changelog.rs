//! The changelog subcommand: commits grouped by type under each release,
//! the texts of the JSON export, and the content of the changelog file.
use crate::config::changelog::TypedCommit;
use crate::git::commit::{all_plain, parse_commit_message, spec_parse_message};
use crate::text::{
    chars_of, has_prefix, owned, push_str, starts_with, string_push, strs_view, trim,
    trim_end, trimmed, trim_end_chars, string_of,
};
use crate::textmap::{appended, StrMap};
use vstd::prelude::*;

verus! {

/// What the user gave on the command line.
pub struct ChangelogArgs {
    /// One section for each release, from the first commit on.
    pub all: bool,
    /// Print instead of writing the file.
    pub dry_run: bool,
    pub from: Option<String>,
    pub to: String,
    /// The file to write.
    pub output: Option<String>,
    /// Append to the file that is there.
    pub append: bool,
    /// Export as JSON.
    pub json: bool,
    /// Group the entries of a section by scope.
    pub group_by_scope: bool,
    /// The name of the upcoming release, in place of `Unreleased`.
    pub next_tag: Option<String>,
}

// ---------------------------------------------------------------------
// Specification
// ---------------------------------------------------------------------

/// The name of the release that has no tag yet.
pub open spec fn unreleased() -> Seq<char> {
    seq!['U', 'n', 'r', 'e', 'l', 'e', 'a', 's', 'e', 'd']
}

/// The heading of the changelog file.
pub open spec fn changelog_title() -> Seq<char> {
    seq!['#', ' ', 'C', 'h', 'a', 'n', 'g', 'e', 'l', 'o', 'g']
}

/// The commits that parse as Conventional Commits, grouped by type, each
/// as (hash, scope, summary), in the given order.
pub open spec fn typed_groups(cs: Seq<(Seq<char>, Seq<char>)>, types: Seq<Seq<char>>) -> Map<
    Seq<char>,
    Seq<(Seq<char>, Option<Seq<char>>, Seq<char>)>,
>
    decreases cs.len(),
{
    if cs.len() == 0 {
        Map::empty()
    } else {
        let g = typed_groups(cs.drop_last(), types);
        match spec_parse_message(cs.last().1, types) {
            Some((k, sc, sum)) => appended(g, k, (cs.last().0, sc, sum)),
            None => g,
        }
    }
}

/// The release name of a heading: `Unreleased` gives way to the upcoming
/// release name when there is one.
pub open spec fn spec_display_tag(tag: Seq<char>, next_tag: Option<Seq<char>>) -> Seq<char> {
    if tag == unreleased() {
        match next_tag {
            Some(t) => t,
            None => tag,
        }
    } else {
        tag
    }
}

/// The message of an entry of the JSON export: `scope: summary`, or the
/// summary alone.
pub open spec fn spec_entry_message(scope: Option<Seq<char>>, summary: Seq<char>) -> Seq<char> {
    match scope {
        Some(s) => s + seq![':', ' '] + summary,
        None => summary,
    }
}

/// The changelog file: a title, a blank line and the sections; in append
/// mode the file that is there (given the title when it has none), its
/// trailing white space cut, a line feed, and the sections.
pub open spec fn spec_changelog_file(existing: Option<Seq<char>>, markdown: Seq<char>) -> Seq<char> {
    match existing {
        Some(e) => {
            let titled = if starts_with(e, changelog_title()) {
                e
            } else {
                changelog_title() + seq!['\n', '\n'] + e
            };
            trim_end(titled) + seq!['\n'] + markdown
        },
        None => changelog_title() + seq!['\n', '\n'] + markdown,
    }
}

// ---------------------------------------------------------------------
// Executable
// ---------------------------------------------------------------------

/// Groups the commits, given as (hash, message), by their Conventional
/// Commit type; the other commits are left out.
pub fn group_by_type(commits: &Vec<(String, String)>, allowed_types: &[&str]) -> (r: StrMap<
    Vec<TypedCommit>,
>)
    requires
        all_plain(strs_view(allowed_types@)),
    ensures
        r.wf(),
        r.deep_map() == typed_groups(commits.deep_view(), strs_view(allowed_types@)),
{
    let ghost cs = commits.deep_view();
    let ghost types = strs_view(allowed_types@);
    let mut groups: StrMap<Vec<TypedCommit>> = StrMap::new();
    let mut i: usize = 0;
    assert(cs.take(0) =~= Seq::<(Seq<char>, Seq<char>)>::empty());
    assert(groups.deep_map() =~= typed_groups(cs.take(0), types));
    while i < commits.len()
        invariant
            i <= commits@.len(),
            cs == commits.deep_view(),
            types == strs_view(allowed_types@),
            all_plain(types),
            groups.wf(),
            groups.deep_map() == typed_groups(cs.take(i as int), types),
        decreases commits.len() - i,
    {
        let (hash, msg) = &commits[i];
        assert(cs[i as int] == (hash@, msg@));
        proof {
            assert(cs.take(i + 1).drop_last() == cs.take(i as int));
            assert(cs.take(i + 1).last() == cs[i as int]);
        }
        match parse_commit_message(msg.as_str(), allowed_types) {
            Some((kind, scope, summary)) => {
                let entry: TypedCommit = (hash.clone(), scope, summary);
                groups.push_to(kind.as_str(), entry);
            },
            None => {},
        }
        i += 1;
    }
    assert(cs.take(cs.len() as int) == cs);
    groups
}

/// The release under which a range of commits is listed: the upcoming
/// release name, or `Unreleased`.
pub fn range_tag(next_tag: &Option<String>) -> (r: String)
    ensures
        r@ == match next_tag {
            Some(t) => t@,
            None => unreleased(),
        },
{
    match next_tag {
        Some(t) => owned(t.as_str()),
        None => {
            let r = owned("Unreleased");
            proof {
                reveal_strlit("Unreleased");
            }
            assert(r@ =~= unreleased());
            r
        },
    }
}

/// The release name shown in a heading.
pub fn display_tag(tag: &str, next_tag: &Option<String>) -> (r: String)
    ensures
        r@ == spec_display_tag(
            tag@,
            match next_tag {
                Some(t) => Some(t@),
                None => None,
            },
        ),
{
    let u: Vec<char> = vec!['U', 'n', 'r', 'e', 'l', 'e', 'a', 's', 'e', 'd'];
    assert(u@ =~= unreleased());
    let t = chars_of(tag);
    let is_unreleased = t.len() == u.len() && has_prefix(t.as_slice(), u.as_slice());
    assert(is_unreleased == (tag@ == unreleased())) by {
        assert(t@.take(t@.len() as int) =~= t@);
    }
    if is_unreleased {
        match next_tag {
            Some(n) => owned(n.as_str()),
            None => owned(tag),
        }
    } else {
        owned(tag)
    }
}

/// The message of an entry of the JSON export.
pub fn entry_message(scope: &Option<String>, summary: &str) -> (r: String)
    ensures
        r@ == spec_entry_message(
            match scope {
                Some(s) => Some(s@),
                None => None,
            },
            summary@,
        ),
{
    match scope {
        Some(s) => {
            let mut r = owned(s.as_str());
            string_push(&mut r, ':');
            string_push(&mut r, ' ');
            push_str(&mut r, summary);
            r
        },
        None => owned(summary),
    }
}

/// The description of a commit type in the JSON export: the configured
/// one, or the type itself.
pub fn kind_description(types: &StrMap<String>, kind: &str) -> (r: String)
    requires
        types.wf(),
    ensures
        r@ == if types.text_map().contains_key(kind@) {
            types.text_map()[kind@]
        } else {
            kind@
        },
{
    match types.get(kind) {
        Some(d) => owned(d.as_str()),
        None => owned(kind),
    }
}

/// The content of the changelog file; `existing` is the file that is
/// there, in append mode.
pub fn changelog_file(existing: Option<&str>, markdown: &str) -> (r: String)
    ensures
        r@ == spec_changelog_file(
            match existing {
                Some(e) => Some(e@),
                None => None,
            },
            markdown@,
        ),
{
    let title: Vec<char> = vec!['#', ' ', 'C', 'h', 'a', 'n', 'g', 'e', 'l', 'o', 'g'];
    assert(title@ =~= changelog_title());
    match existing {
        Some(e) => {
            let ev = chars_of(e);
            let mut titled = String::new();
            if !has_prefix(ev.as_slice(), title.as_slice()) {
                crate::text::push_chars(&mut titled, title.as_slice());
                string_push(&mut titled, '\n');
                string_push(&mut titled, '\n');
            }
            push_str(&mut titled, e);
            assert(titled@ =~= if starts_with(e@, changelog_title()) {
                e@
            } else {
                changelog_title() + seq!['\n', '\n'] + e@
            });
            let kept = trim_end_chars(chars_of(titled.as_str()).as_slice());
            let mut r = string_of(kept.as_slice());
            string_push(&mut r, '\n');
            push_str(&mut r, markdown);
            assert(r@ =~= trim_end(titled@) + seq!['\n'] + markdown@);
            r
        },
        None => {
            let mut r = string_of(title.as_slice());
            string_push(&mut r, '\n');
            string_push(&mut r, '\n');
            push_str(&mut r, markdown);
            r
        },
    }
}

/// What a dry run prints: the title, a blank line and the sections,
/// trimmed.
pub fn dry_run_text(markdown: &str) -> (r: String)
    ensures
        r@ == changelog_title() + seq!['\n', '\n'] + trim(markdown@),
{
    let title: Vec<char> = vec!['#', ' ', 'C', 'h', 'a', 'n', 'g', 'e', 'l', 'o', 'g'];
    assert(title@ =~= changelog_title());
    let mut r = string_of(title.as_slice());
    string_push(&mut r, '\n');
    string_push(&mut r, '\n');
    let t = trimmed(markdown);
    push_str(&mut r, t.as_str());
    r
}

} // verus!
