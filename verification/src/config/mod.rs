//! Commit Wizard configuration.
pub mod breaking;
pub mod changelog;
pub mod default;
pub mod scopes;
pub mod types;
pub mod versioning;

use crate::config::breaking::{lemma_defaults_present, lemma_patch_keywords_idempotent, patched_keywords, Breaking};
use crate::config::changelog::Changelog;
use crate::config::default::CWDefault;
use crate::config::scopes::CommitScopes;
use crate::config::types::{patched_message, CommitTypes};
use crate::config::versioning::CWVersioning;
use crate::constants::{
    DEFAULT_BREAKING, DEFAULT_FEAT, DEFAULT_FEAT_MESSAGE, DEFAULT_FIX, DEFAULT_FIX_MESSAGE,
};
use crate::text::{all_white_space, owned, strings_contain, strings_view, strs_view};
use vstd::prelude::*;

verus! {

/// A list of types after making sure it holds `d`: an empty list becomes
/// `[d]`, a list without `d` gets it at the end.
pub open spec fn ensure_member(l: Seq<Seq<char>>, d: Seq<char>) -> Seq<Seq<char>> {
    if l.len() == 0 {
        seq![d]
    } else if l.contains(d) {
        l
    } else {
        l.push(d)
    }
}

/// Making sure twice is the same as once, and the list then holds `d`.
pub proof fn lemma_ensure_member(l: Seq<Seq<char>>, d: Seq<char>)
    ensures
        ensure_member(ensure_member(l, d), d) == ensure_member(l, d),
        ensure_member(l, d).contains(d),
        ensure_member(l, d).len() > 0,
{
    let e = ensure_member(l, d);
    if l.len() == 0 {
        assert(e[0] == d);
    } else if l.contains(d) {
    } else {
        assert(e[e.len() - 1] == d);
    }
    assert(e.contains(d));
}

/// Makes sure the list `l` holds `d`.
pub fn ensure_member_exec(l: &mut Vec<String>, d: &str)
    ensures
        strings_view(final(l)@) == ensure_member(strings_view(old(l)@), d@),
{
    if l.len() == 0 {
        l.push(owned(d));
        assert(strings_view(l@) =~= seq![d@]);
    } else if !strings_contain(l, d) {
        let ghost before = l@;
        l.push(owned(d));
        assert(strings_view(l@) =~= strings_view(before).push(d@));
    }
}

/// The whole configuration.
pub struct CWConfig {
    pub default: CWDefault,
    pub types: CommitTypes,
    pub scopes: CommitScopes,
    pub breaking: Breaking,
    pub versioning: CWVersioning,
    pub changelog: Changelog,
}

impl CWConfig {
    pub open spec fn wf(&self) -> bool {
        &&& self.types.wf()
        &&& self.scopes.wf()
        &&& self.changelog.sections.wf()
    }

    /// The default configuration.
    pub fn new_config() -> (r: Self)
        ensures
            r.wf(),
            r.default.branch matches Some(b) && b@ == crate::constants::DEFAULT_BRANCH@,
            r.types.feat@ == DEFAULT_FEAT_MESSAGE@,
            r.types.fix@ == DEFAULT_FIX_MESSAGE@,
            r.types.extra.size() == 0,
            strings_view(r.scopes.any@) == strs_view(crate::constants::COMMON_SCOPES@),
            r.scopes.feat@.len() == 0,
            r.scopes.fix@.len() == 0,
            r.scopes.extra.size() == 0,
            strings_view(r.breaking.keywords@) == strs_view(DEFAULT_BREAKING@),
            strings_view(r.versioning.minor@) == seq![DEFAULT_FEAT@],
            strings_view(r.versioning.patch@) == seq![DEFAULT_FIX@],
            strings_view(r.changelog.sections.added@) == seq![DEFAULT_FEAT@],
            strings_view(r.changelog.sections.fixed@) == seq![DEFAULT_FIX@],
            r.changelog.sections.extra.size() == 0,
    {
        CWConfig {
            default: CWDefault::default(),
            types: CommitTypes::default(),
            scopes: CommitScopes::default(),
            breaking: Breaking::default(),
            versioning: CWVersioning::default(),
            changelog: Changelog::default(),
        }
    }
}

impl Default for CWConfig {
    fn default() -> (r: Self)
        ensures
            r.wf(),
            r.types.feat@ == DEFAULT_FEAT_MESSAGE@,
            r.types.fix@ == DEFAULT_FIX_MESSAGE@,
            strings_view(r.breaking.keywords@) == strs_view(DEFAULT_BREAKING@),
            strings_view(r.versioning.minor@) == seq![DEFAULT_FEAT@],
            strings_view(r.versioning.patch@) == seq![DEFAULT_FIX@],
    {
        Self::new_config()
    }
}

/// What patching does to each part of a configuration, given the parts of
/// `before`: blank descriptions of `feat` and `fix` get the defaults,
/// missing breaking keywords are added, and `feat` and `fix` are listed for
/// the minor and patch bumps and under `Added` and `Fixed`. Everything else
/// is kept.
pub open spec fn patched_from(before: &CWConfig, after: &CWConfig) -> bool {
    &&& after.types.feat@ == patched_message(before.types.feat@, DEFAULT_FEAT_MESSAGE@)
    &&& after.types.fix@ == patched_message(before.types.fix@, DEFAULT_FIX_MESSAGE@)
    &&& after.types.extra == before.types.extra
    &&& strings_view(after.breaking.keywords@) == patched_keywords(
        strings_view(before.breaking.keywords@),
        strs_view(DEFAULT_BREAKING@),
    )
    &&& strings_view(after.versioning.minor@) == ensure_member(
        strings_view(before.versioning.minor@),
        DEFAULT_FEAT@,
    )
    &&& strings_view(after.versioning.patch@) == ensure_member(
        strings_view(before.versioning.patch@),
        DEFAULT_FIX@,
    )
    &&& strings_view(after.changelog.sections.added@) == ensure_member(
        strings_view(before.changelog.sections.added@),
        DEFAULT_FEAT@,
    )
    &&& strings_view(after.changelog.sections.fixed@) == ensure_member(
        strings_view(before.changelog.sections.fixed@),
        DEFAULT_FIX@,
    )
    &&& after.changelog.sections.extra == before.changelog.sections.extra
    &&& after.scopes == before.scopes
    &&& after.default == before.default
}

/// Fills what a loaded configuration leaves out with the defaults.
pub fn patch_with_defaults(config: CWConfig) -> (r: CWConfig)
    requires
        config.wf(),
    ensures
        r.wf(),
        patched_from(&config, &r),
{
    let mut config = config;
    config.types.patch();
    config.breaking.patch();
    config.versioning.patch();
    config.changelog.patch();
    config
}

/// Patching is idempotent: a patched configuration is left as it is by a
/// second patch (on every part that patching touches).
pub proof fn lemma_patch_idempotent(a: &CWConfig, b: &CWConfig, c: &CWConfig)
    requires
        patched_from(a, b),
        patched_from(b, c),
    ensures
        c.types.feat@ == b.types.feat@,
        c.types.fix@ == b.types.fix@,
        strings_view(c.breaking.keywords@) == strings_view(b.breaking.keywords@),
        strings_view(c.versioning.minor@) == strings_view(b.versioning.minor@),
        strings_view(c.versioning.patch@) == strings_view(b.versioning.patch@),
        strings_view(c.changelog.sections.added@) == strings_view(b.changelog.sections.added@),
        strings_view(c.changelog.sections.fixed@) == strings_view(b.changelog.sections.fixed@),
{
    reveal_strlit("A new feature");
    reveal_strlit("A bug fix");
    assert(!all_white_space(DEFAULT_FEAT_MESSAGE@)) by {
        assert(DEFAULT_FEAT_MESSAGE@[0] == 'A');
    }
    assert(!all_white_space(DEFAULT_FIX_MESSAGE@)) by {
        assert(DEFAULT_FIX_MESSAGE@[0] == 'A');
    }
    lemma_patch_keywords_idempotent(
        strings_view(a.breaking.keywords@),
        strs_view(DEFAULT_BREAKING@),
    );
    lemma_ensure_member(strings_view(a.versioning.minor@), DEFAULT_FEAT@);
    lemma_ensure_member(strings_view(a.versioning.patch@), DEFAULT_FIX@);
    lemma_ensure_member(strings_view(a.changelog.sections.added@), DEFAULT_FEAT@);
    lemma_ensure_member(strings_view(a.changelog.sections.fixed@), DEFAULT_FIX@);
}

/// After patching, the defaults are in place: non-blank descriptions for
/// `feat` and `fix`, every default breaking keyword, `feat` bumping the
/// minor and `fix` the patch version, `feat` under `Added` and `fix` under
/// `Fixed`.
pub proof fn lemma_patch_defaults_present(a: &CWConfig, b: &CWConfig)
    requires
        patched_from(a, b),
    ensures
        !all_white_space(b.types.feat@),
        !all_white_space(b.types.fix@),
        forall|i: int|
            0 <= i < DEFAULT_BREAKING@.len() ==> strings_view(b.breaking.keywords@).contains(
                #[trigger] strs_view(DEFAULT_BREAKING@)[i],
            ),
        strings_view(b.versioning.minor@).contains(DEFAULT_FEAT@),
        strings_view(b.versioning.patch@).contains(DEFAULT_FIX@),
        strings_view(b.changelog.sections.added@).contains(DEFAULT_FEAT@),
        strings_view(b.changelog.sections.fixed@).contains(DEFAULT_FIX@),
{
    reveal_strlit("A new feature");
    reveal_strlit("A bug fix");
    assert(!all_white_space(DEFAULT_FEAT_MESSAGE@)) by {
        assert(DEFAULT_FEAT_MESSAGE@[0] == 'A');
    }
    assert(!all_white_space(DEFAULT_FIX_MESSAGE@)) by {
        assert(DEFAULT_FIX_MESSAGE@[0] == 'A');
    }
    lemma_defaults_present(strings_view(a.breaking.keywords@), strs_view(DEFAULT_BREAKING@));
    lemma_ensure_member(strings_view(a.versioning.minor@), DEFAULT_FEAT@);
    lemma_ensure_member(strings_view(a.versioning.patch@), DEFAULT_FIX@);
    lemma_ensure_member(strings_view(a.changelog.sections.added@), DEFAULT_FEAT@);
    lemma_ensure_member(strings_view(a.changelog.sections.fixed@), DEFAULT_FIX@);
}

} // verus!
