use cw::commit::changelog::{
    generate_changelog, link_pull_request, render_flat, render_grouped_by_scope, render_markdown,
};
use cw::commit::fix::{fix_file_path, generate_fix_file, CommitFixEntry, CommitFixFile};
use cw::commit::rebase::{
    any_rewritten, auto_fix_message, commits_to_fix, needs_fix, old_msg_and_new_commit_are_diff,
    record_fixes, rev_list_hashes,
};
use cw::config::changelog::{Changelog, ChangelogSections};
use cw::config::scopes::CommitScopes;
use cw::config::types::CommitTypes;
use cw::config::{patch_with_defaults, CWConfig};
use cw::textmap::StrMap;

fn fix(hash: &str, original: &str, new: &str) -> CommitFixEntry {
    CommitFixEntry {
        hash: hash.to_string(),
        original_message: original.to_string(),
        new_message: new.to_string(),
        timestamp: None,
    }
}

#[test]
fn default_config_values() {
    let c = CWConfig::new_config();
    assert_eq!(c.default.branch.as_deref(), Some("main"));
    assert_eq!(c.types.feat, "A new feature");
    assert_eq!(c.types.fix, "A bug fix");
    assert_eq!(c.breaking.keywords, vec!["BREAKING CHANGE"]);
    assert_eq!(c.versioning.minor, vec!["feat"]);
    assert_eq!(c.versioning.patch, vec!["fix"]);
    assert_eq!(c.changelog.sections.added, vec!["feat"]);
    assert_eq!(c.changelog.sections.fixed, vec!["fix"]);
    assert_eq!(c.scopes.any, vec!["api", "ui", "db", "core", "cli", "config", "deps"]);
}

#[test]
fn patching_fills_blank_and_missing_defaults() {
    let mut c = CWConfig::new_config();
    c.types.feat = "  ".to_string();
    c.breaking.keywords = vec!["BREAKING".to_string()];
    c.versioning.minor = Vec::new();
    c.versioning.patch = vec!["perf".to_string()];
    let p = patch_with_defaults(c);
    assert_eq!(p.types.feat, "A new feature");
    assert_eq!(p.breaking.keywords, vec!["BREAKING", "BREAKING CHANGE"]);
    assert_eq!(p.versioning.minor, vec!["feat"]);
    assert_eq!(p.versioning.patch, vec!["perf", "fix"]);
    let again = patch_with_defaults(p);
    assert_eq!(again.breaking.keywords, vec!["BREAKING", "BREAKING CHANGE"]);
    assert_eq!(again.versioning.patch, vec!["perf", "fix"]);
}

#[test]
fn types_and_scopes_lookups() {
    let mut types = CommitTypes::default();
    types.extra.insert("docs".to_string(), "Documentation".to_string());
    types.extra.insert("feat".to_string(), "overridden".to_string());
    let all = types.all();
    assert_eq!(all.get("feat").map(|s| s.as_str()), Some("A new feature"));
    assert_eq!(all.get("docs").map(|s| s.as_str()), Some("Documentation"));
    assert_eq!(types.allowed(), vec!["docs", "feat", "fix"]);

    let mut scopes = CommitScopes::default();
    scopes.feat = vec!["ui".to_string()];
    assert_eq!(scopes.valid_scopes("feat"), vec!["ui"]);
    assert_eq!(scopes.valid_scopes("chore").len(), 7);
    assert!(CommitScopes::empty().valid_scopes("feat").is_empty());
    assert_eq!(scopes.all().len(), 3);
}

#[test]
fn str_map_keeps_keys_sorted_and_unique() {
    let mut m: StrMap<u32> = StrMap::new();
    m.insert("b".to_string(), 1);
    m.insert("a".to_string(), 2);
    m.insert("b".to_string(), 3);
    assert_eq!(m.len(), 2);
    assert_eq!(m.key_at(0), "a");
    assert_eq!(m.get("b"), Some(&3));
    assert!(m.contains_key("a"));
    assert_eq!(m.remove("a"), Some(2));
    assert!(!m.contains_key("a"));
    assert_eq!(m.remove("zz"), None);
}

#[test]
fn type_to_section_map_and_section_grouping() {
    let mut sections = ChangelogSections::default();
    sections.extra.insert("Docs".to_string(), vec!["docs".to_string()]);
    let mut grouped: StrMap<Vec<(String, Option<String>, String)>> = StrMap::new();
    grouped.insert("feat".to_string(), vec![("h1".to_string(), None, "one".to_string())]);
    grouped.insert("docs".to_string(), vec![("h2".to_string(), None, "two".to_string())]);
    grouped.insert("perf".to_string(), vec![("h3".to_string(), None, "three".to_string())]);
    let by_section = sections.group_commits_by_section(&grouped);
    // further sections map the capitalized type, so `docs` commits are
    // not found under `Docs`
    assert_eq!(by_section.len(), 2);
    assert_eq!(by_section.get("Added").unwrap()[0].1, "one");
    let other = by_section.get("Uncategorized").unwrap();
    assert_eq!(other.len(), 2);
    assert_eq!(other[0].1, "two");
    assert_eq!(other[1].1, "three");
    let tsm = sections.build_type_to_section_map();
    assert_eq!(tsm.get("fix").map(|s| s.as_str()), Some("Fixed"));
    assert_eq!(tsm.get("Docs").map(|s| s.as_str()), Some("Docs"));
    assert_eq!(tsm.get("docs"), None);
}

#[test]
fn flat_and_grouped_rendering() {
    let entries = vec![
        (Some("ui".to_string()), "add button".to_string(), "abcdef0123".to_string()),
        (None, "tidy".to_string(), "1234567890".to_string()),
    ];
    assert_eq!(
        render_flat(&entries),
        "- **ui**: add button (abcdef0)\n- tidy (1234567)\n"
    );
    assert_eq!(
        render_grouped_by_scope(&entries, None),
        "- tidy (1234567)\n\n#### ui\n- add button\n"
    );
}

#[test]
fn pull_request_links() {
    let url = Some("https://github.com/o/r");
    assert_eq!(
        link_pull_request("add x (#42)", "abcdef0123", url).as_deref(),
        Some("- add x ([#42](https://github.com/o/r/pull/42)) ([abcdef0](https://github.com/o/r/commit/abcdef0123))")
    );
    assert_eq!(
        link_pull_request("add x", "abcdef0123", url).as_deref(),
        Some("- add x ([abcdef0](https://github.com/o/r/commit/abcdef0123))")
    );
    assert_eq!(link_pull_request("add x (#42)", "abc", None), None);
}

#[test]
fn markdown_of_a_release() {
    let mut grouped: StrMap<Vec<(String, Option<String>, String)>> = StrMap::new();
    grouped.insert("feat".to_string(), vec![("abcdef0123".to_string(), None, "login".to_string())]);
    grouped.insert("fix".to_string(), vec![("1234567890".to_string(), None, "typo".to_string())]);
    let md = render_markdown("1.2.0", &grouped, false, "2025-07-22", &Changelog::default(), None);
    assert_eq!(
        md,
        "## [1.2.0] - 2025-07-22\n\n### Added\n- login (abcdef0)\n\n### Fixed\n- typo (1234567)\n\n"
    );
}

#[test]
fn commits_grouped_under_their_release() {
    let commits = vec![
        ("aaaaaaa111".to_string(), "newest".to_string()),
        ("bbbbbbb222".to_string(), "tagged".to_string()),
        ("ccccccc333".to_string(), "oldest".to_string()),
    ];
    let mut tags: StrMap<String> = StrMap::new();
    tags.insert("bbbbbbb222".to_string(), "v1.0.0".to_string());
    let g = generate_changelog(&commits, &tags);
    assert_eq!(g.get("Unreleased").unwrap(), &vec![("aaaaaaa".to_string(), "newest".to_string())]);
    assert_eq!(
        g.get("v1.0.0").unwrap(),
        &vec![
            ("bbbbbbb".to_string(), "tagged".to_string()),
            ("ccccccc".to_string(), "oldest".to_string())
        ]
    );
}

#[test]
fn fix_file_queries() {
    let mut f = CommitFixFile {
        fixes: vec![fix("c", "c0", "c1"), fix("a", "a0", "a1"), fix("a", "a0", "a2")],
    };
    assert_eq!(f.get_message_for("a").as_deref(), Some("a1"));
    assert_eq!(f.get_original_message("c").as_deref(), Some("c0"));
    assert_eq!(f.get_message_for("z"), None);
    assert!(f.contains("c"));
    assert!(!f.contains("z"));
    assert!(f.validate_integrity());
    assert_eq!(f.commit_map().get("a").map(|s| s.as_str()), Some("a2"));
    f.sort_by_original_order(&["a".to_string(), "b".to_string()]);
    let order: Vec<&str> = f.fixes.iter().map(|e| e.new_message.as_str()).collect();
    assert_eq!(order, vec!["a1", "a2", "c1"]);
    let broken = CommitFixFile { fixes: vec![fix("h", "", "x")] };
    assert!(!broken.validate_integrity());
    assert_eq!(fix_file_path("/work/repo"), "/work/repo/.cw-fix.json");
    assert_eq!(fix_file_path("/work/repo/"), "/work/repo/.cw-fix.json");
    assert_eq!(fix_file_path(""), ".cw-fix.json");
}

#[test]
fn generated_fix_file_keeps_messages() {
    let f = generate_fix_file(vec![("h1".to_string(), "wip".to_string())], "now".to_string());
    assert_eq!(f.fixes.len(), 1);
    assert_eq!(f.fixes[0].new_message, "wip");
    assert_eq!(f.fixes[0].timestamp.as_deref(), Some("now"));
}

#[test]
fn rebase_decisions() {
    let types = &["feat", "fix", "chore"];
    assert!(old_msg_and_new_commit_are_diff(&"wip".to_string(), &"chore: wip".to_string(), types));
    assert!(!old_msg_and_new_commit_are_diff(&"chore: x".to_string(), &"chore: x".to_string(), types));
    assert!(!old_msg_and_new_commit_are_diff(&"wip".to_string(), &"still wip".to_string(), types));
    let mut stored: StrMap<String> = StrMap::new();
    stored.insert("h1".to_string(), "chore(misc): wip".to_string());
    assert!(!needs_fix(&stored, "h1", &"wip".to_string(), types));
    assert!(needs_fix(&stored, "h2", &"wip".to_string(), types));
    assert_eq!(auto_fix_message("wip"), "chore(misc): wip");
    assert_eq!(rev_list_hashes(" a1 \nb2\n"), vec!["a1", "b2"]);
    assert!(any_rewritten(&["a".to_string()], &["b".to_string()]));
    assert!(!any_rewritten(&["a".to_string()], &["b".to_string(), "a".to_string()]));
}

#[test]
fn fixes_are_recorded_once_per_hash() {
    let existing = CommitFixFile {
        fixes: vec![fix("h2", "old", "chore: old"), fix("h1", "wip", "wip")],
    };
    let commits = vec![("h1".to_string(), "wip".to_string()), ("h2".to_string(), "old".to_string())];
    let pending = commits_to_fix(&existing, &commits, &["chore"]);
    assert_eq!(pending, vec![("h1".to_string(), "wip".to_string())]);
    let updates = vec![("h1".to_string(), "wip".to_string(), "chore(misc): wip".to_string())];
    let recorded = record_fixes(&existing, &updates, "t0");
    assert_eq!(recorded.fixes.len(), 2);
    assert_eq!(recorded.fixes[0].hash, "h1");
    assert_eq!(recorded.fixes[0].new_message, "chore(misc): wip");
    assert_eq!(recorded.fixes[0].timestamp.as_deref(), Some("t0"));
    assert_eq!(recorded.fixes[1].hash, "h2");
    assert_eq!(recorded.fixes[1].new_message, "chore: old");
}
