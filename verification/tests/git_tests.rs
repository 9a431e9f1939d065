use cw::git::check::to_github_web_url;
use cw::git::cmd::git_push_with;
use cw::git::commit::{
    find_invalid_commits, parse_commit_message, types_are_plain,
    validate_conventional_commit_message,
};
use cw::git::repo::{get_current_branch, BranchError};
use cw::git::stage::{status_files, IndexStatus};
use cw::git::tag::{get_tag_commit_date, latest_tag_of, latest_tag_or_unreleased};
use cw::git::version::{
    bump_version, can_bump_version, determine_bump_type, is_breaking_change, next_semantic_version, version_parts,
    BumpKind,
};
use cw::config::versioning::CWVersioning;

#[test]
fn test_git_ssh_url_converted_to_https() {
    let ssh = "git@github.com:username/repo.git";
    let expected = "https://github.com/username/repo";
    assert_eq!(to_github_web_url(ssh).as_deref(), Some(expected));
}

#[test]
fn test_git_https_url_is_trimmed() {
    let https = "https://github.com/username/repo.git";
    let expected = "https://github.com/username/repo";
    assert_eq!(to_github_web_url(https).as_deref(), Some(expected));
}

#[test]
fn test_non_github_url_returns_none() {
    let custom = "https://gitlab.com/user/repo.git";
    assert_eq!(to_github_web_url(custom), None);
}

#[test]
fn github_url_drops_every_trailing_dot_git() {
    assert_eq!(
        to_github_web_url("https://github.com/u/r.git.git").as_deref(),
        Some("https://github.com/u/r")
    );
    assert_eq!(
        to_github_web_url("git@github.com:u/r").as_deref(),
        Some("https://github.com/u/r")
    );
}

#[test]
fn test_git_push_successful() {
    let result = git_push_with("origin", "main", true);
    assert!(result.is_ok(), "Expected git_push_with to succeed");
}

#[test]
fn test_git_push_failure_returns_error() {
    let result = git_push_with("origin", "main", false);
    assert!(result.is_err(), "Expected git_push_with to return error on failure");
    assert_eq!(
        format!("{}", result.unwrap_err()),
        "❌ Push failed.",
        "Error message should match"
    );
}

#[test]
fn git_push_reports_remote_and_branch() {
    assert_eq!(git_push_with("upstream", "dev", true).unwrap(), "✅ Pushed to upstream dev");
}

#[test]
fn test_valid_conventional_commit_messages() {
    let allowed_types = &["feat", "fix", "docs"];

    let messages = [
        "feat: add login page",
        "fix: correct spelling error",
        "docs(readme): update usage section",
        "feat!: drop deprecated endpoint",
    ];

    for msg in messages {
        assert!(
            validate_conventional_commit_message(msg, allowed_types),
            "Expected message to be valid: '{}'",
            msg
        );
    }
}

#[test]
fn test_invalid_conventional_commit_messages() {
    let allowed_types = &["feat", "fix"];

    let messages = [
        "feature: typo",            // wrong type
        "feat (ui): spacing issue", // space before scope
        "fix add missing check",    // missing colon
        "chore: bump deps",         // disallowed type
        "feat: ",                   // no summary
    ];

    for msg in messages {
        assert!(
            !validate_conventional_commit_message(msg, allowed_types),
            "Expected message to be invalid: '{}'",
            msg
        );
    }
}

#[test]
fn test_parse_commit_message() {
    let allowed_types = &["feat", "fix", "chore"];

    let input = "feat(account): add logout button";
    let parsed = parse_commit_message(input, allowed_types);

    assert!(parsed.is_some());
    let (typ, scope, summary) = parsed.unwrap();

    assert_eq!(typ, "feat");
    assert_eq!(scope, Some("account".to_string()));
    assert_eq!(summary, "add logout button");
}

#[test]
fn test_parse_commit_message_no_scope() {
    let allowed_types = &["feat"];

    let input = "feat: standalone commit";
    let parsed = parse_commit_message(input, allowed_types);

    assert!(parsed.is_some());
    let (typ, scope, summary) = parsed.unwrap();

    assert_eq!(typ, "feat");
    assert_eq!(scope, None);
    assert_eq!(summary, "standalone commit");
}

#[test]
fn test_parse_commit_message_invalid() {
    let allowed_types = &["feat"];

    let input = "fix(readme): not allowed type";
    let parsed = parse_commit_message(input, allowed_types);
    assert!(parsed.is_none());
}

#[test]
fn validation_trims_and_checks_scope_characters() {
    let allowed = &["feat", "fix"];
    assert!(validate_conventional_commit_message("  feat(ui-kit): x  ", allowed));
    assert!(!validate_conventional_commit_message("feat(ui kit): x", allowed));
    assert!(!validate_conventional_commit_message("feat(): x", allowed));
    assert!(!validate_conventional_commit_message("feat:\n body", allowed));
    assert!(validate_conventional_commit_message("fix(über_1): ok", allowed));
}

#[test]
fn parsing_reads_summary_up_to_line_end_and_any_scope() {
    let allowed = &["feat"];
    let (t, s, sum) = parse_commit_message("feat(a b)!: one\ntwo", allowed).unwrap();
    assert_eq!(t, "feat");
    assert_eq!(s.as_deref(), Some("a b"));
    assert_eq!(sum, "one");
    assert!(parse_commit_message(" feat: x", allowed).is_none());
}

#[test]
fn parsing_takes_the_first_type_that_matches() {
    let allowed = &["fea", "feat"];
    let (t, _, sum) = parse_commit_message("feat: x", allowed).unwrap();
    assert_eq!(t, "feat");
    assert_eq!(sum, "x");
}

#[test]
fn types_with_pattern_characters_are_not_plain() {
    assert!(types_are_plain(&["feat", "fix-it"]));
    assert!(!types_are_plain(&["fe.t"]));
    assert!(!types_are_plain(&["a|b"]));
}

#[test]
fn invalid_commits_are_listed_trimmed_in_order() {
    let commits = vec![
        ("h1".to_string(), "feat: ok\n".to_string()),
        ("h2".to_string(), " wip \n".to_string()),
        ("h3".to_string(), "chore: nope".to_string()),
    ];
    let invalid = find_invalid_commits(&commits, &["feat", "fix"]);
    assert_eq!(
        invalid,
        vec![
            ("h2".to_string(), "wip".to_string()),
            ("h3".to_string(), "chore: nope".to_string())
        ]
    );
}

#[test]
fn current_branch_from_head() {
    assert_eq!(get_current_branch(true, Some("main".to_string())), Ok("main".to_string()));
    assert_eq!(get_current_branch(true, None), Err(BranchError::NoName));
    assert_eq!(get_current_branch(false, Some("x".to_string())), Err(BranchError::Detached));
}

#[test]
fn latest_tag_is_the_first_with_the_newest_commit() {
    let tags = vec![
        ("v1.0.0".to_string(), 100i64),
        ("v1.1.0".to_string(), 300i64),
        ("v1.1.0-rc".to_string(), 300i64),
        ("v0.9.0".to_string(), 50i64),
    ];
    assert_eq!(latest_tag_of(&tags).as_deref(), Some("v1.1.0"));
    assert_eq!(latest_tag_of(&Vec::new()), None);
}

#[test]
fn unreleased_when_there_is_no_tag() {
    assert_eq!(latest_tag_or_unreleased(None), "Unreleased");
    assert_eq!(latest_tag_or_unreleased(Some("v2.0.0".to_string())), "v2.0.0");
}

#[test]
fn status_files_are_sorted_unique_with_staged_ones() {
    let none = IndexStatus { new: false, modified: false, deleted: false, renamed: false, typechange: false };
    let added = IndexStatus { new: true, ..none };
    let renamed = IndexStatus { renamed: true, ..none };
    let entries = vec![
        ("src/b.rs".to_string(), none),
        ("src/a.rs".to_string(), added),
        ("src/b.rs".to_string(), renamed),
        ("README.md".to_string(), none),
    ];
    let (all, staged) = status_files(&entries);
    assert_eq!(all, vec!["README.md", "src/a.rs", "src/b.rs"]);
    assert_eq!(staged, vec!["src/a.rs", "src/b.rs"]);
}

#[test]
fn bump_version_formula() {
    assert_eq!(bump_version(BumpKind::Major, "1.2.3"), "v2.0.0");
    assert_eq!(bump_version(BumpKind::Minor, "v1.2.3"), "v1.3.0");
    assert_eq!(bump_version(BumpKind::Patch, "1.2.3"), "v1.2.4");
    assert_eq!(bump_version(BumpKind::Patch, "1.x"), "v1.0.1");
    assert_eq!(bump_version(BumpKind::Minor, "2.5.1.9"), "v2.6.0");
    assert_eq!(version_parts("v10.20.30"), vec![10, 20, 30]);
}

#[test]
fn next_version_from_latest_tag_or_zero() {
    assert_eq!(next_semantic_version(Some(BumpKind::Minor), None).as_deref(), Some("v0.1.0"));
    assert_eq!(
        next_semantic_version(Some(BumpKind::Major), Some("v1.4.2".to_string())).as_deref(),
        Some("v2.0.0")
    );
    assert_eq!(next_semantic_version(None, Some("v1.0.0".to_string())), None);
}

#[test]
fn breaking_changes_are_found_by_bang_or_keyword() {
    let keywords = vec!["BREAKING CHANGE".to_string()];
    assert!(is_breaking_change("feat!: drop api", &keywords));
    assert!(is_breaking_change("feat: x\n\nBREAKING CHANGE: y", &keywords));
    assert!(!is_breaking_change("feat: x", &keywords));
}

#[test]
fn bump_type_is_the_highest_over_the_range() {
    let versioning = CWVersioning::default();
    let keywords = vec!["BREAKING CHANGE".to_string()];
    let allowed = &["feat", "fix", "docs"];
    let msgs = vec!["docs: a".to_string(), "fix: b".to_string(), "feat!: c".to_string()];
    assert_eq!(determine_bump_type(&msgs, allowed, &versioning, &keywords), Some(BumpKind::Major));
    let msgs = vec!["fix: newest".to_string(), "feat: older".to_string()];
    assert_eq!(determine_bump_type(&msgs, allowed, &versioning, &keywords), Some(BumpKind::Minor));
    let msgs = vec!["docs: a".to_string(), "fix: b".to_string()];
    assert_eq!(determine_bump_type(&msgs, allowed, &versioning, &keywords), Some(BumpKind::Patch));
    let msgs = vec!["docs: a".to_string()];
    assert_eq!(determine_bump_type(&msgs, allowed, &versioning, &keywords), None);
    assert!(can_bump_version(BumpKind::Minor, "1.2.3"));
    assert!(!can_bump_version(BumpKind::Patch, "1.2.4294967295"));
}

#[test]
fn tag_dates_in_utc() {
    assert_eq!(get_tag_commit_date(Some(0)).as_deref(), Some("1970-01-01"));
    assert_eq!(get_tag_commit_date(Some(1_700_000_000)).as_deref(), Some("2023-11-14"));
    assert_eq!(get_tag_commit_date(Some(i64::MAX)), None);
    assert_eq!(get_tag_commit_date(None), None);
}

#[test]
fn no_allowed_type_means_an_empty_type() {
    assert!(validate_conventional_commit_message(": x", &[]));
    assert!(!validate_conventional_commit_message("feat: x", &[]));
    let (t, s, sum) = parse_commit_message(": x", &[]).unwrap();
    assert_eq!((t.as_str(), s, sum.as_str()), ("", None, "x"));
}

#[test]
fn valid_messages_parse_once_trimmed() {
    let allowed = &["feat", "fix"];
    for msg in ["  feat(api)!: x  ", "fix: a\n\nbody", "feat(ui-kit): y"] {
        assert!(validate_conventional_commit_message(msg, allowed));
        assert!(parse_commit_message(msg.trim(), allowed).is_some());
    }
}
