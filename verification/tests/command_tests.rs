use cw::command::add::{staging_changes, unstaged_only, StageChange};
use cw::command::bump::{bump_start, bump_target};
use cw::command::changelog::{
    changelog_file, display_tag, dry_run_text, entry_message, group_by_type, kind_description,
    range_tag,
};
use cw::command::check::{commit_validity, push_range_start, rejected_in_range};
use cw::command::commit::{
    build_commit_message, check_breaking_flag, non_interactive_message, resolve_breaking_message,
    resolve_commit_type, resolve_scope, resolve_summary, CommitArgs, CommitError,
};
use cw::command::fix::{message_for_edit, rebase_step, rewrite_todo, run, FixAction, FixArgs, RebaseStep};
use cw::commit::fix::{CommitFixEntry, CommitFixFile};
use cw::config::types::CommitTypes;
use cw::git::commit::{parse_commit_message, validate_conventional_commit_message};

fn args(kind: Option<&str>, message: Option<&str>) -> CommitArgs {
    CommitArgs {
        kind: kind.map(|s| s.to_string()),
        scope: None,
        message: message.map(|s| s.to_string()),
        breaking: false,
        breaking_message: None,
        body: None,
        footer: Vec::new(),
    }
}

fn fix(hash: &str, original: &str, new: &str) -> CommitFixEntry {
    CommitFixEntry {
        hash: hash.to_string(),
        original_message: original.to_string(),
        new_message: new.to_string(),
        timestamp: None,
    }
}

#[test]
fn commit_message_with_every_part() {
    let footers = vec!["Closes #12".to_string(), "   ".to_string(), "Co-authored-by: A".to_string()];
    let msg = build_commit_message(
        "feat",
        false,
        "ui",
        "  add button ",
        &Some(" longer text \n".to_string()),
        &Some(" old API removed ".to_string()),
        &footers,
    );
    assert_eq!(
        msg,
        "feat(ui): add button\n\nlonger text\n\nBREAKING CHANGE: old API removed\nCloses #12\nCo-authored-by: A"
    );
}

#[test]
fn commit_message_marks_breaking_after_scope() {
    let msg = build_commit_message("fix", true, "", "x", &None, &None, &Vec::new());
    assert_eq!(msg, "fix!: x");
    let msg = build_commit_message("fix", true, "db", "x", &None, &None, &Vec::new());
    assert_eq!(msg, "fix(db)!: x");
    assert!(validate_conventional_commit_message(&msg, &["fix"]));
    let (t, s, sum) = parse_commit_message(&msg, &["fix"]).unwrap();
    assert_eq!((t.as_str(), s.as_deref(), sum.as_str()), ("fix", Some("db"), "x"));
}

#[test]
fn written_messages_are_valid_and_parse_back() {
    let msg = build_commit_message(
        "feat",
        false,
        "api",
        " list users ",
        &Some("body".to_string()),
        &None,
        &vec!["Refs: #1".to_string()],
    );
    assert!(validate_conventional_commit_message(&msg, &["feat", "fix"]));
    let (t, s, sum) = parse_commit_message(&msg, &["fix", "feat"]).unwrap();
    assert_eq!((t.as_str(), s.as_deref(), sum.as_str()), ("feat", Some("api"), "list users"));
}

#[test]
fn breaking_flag_needs_a_message_when_nothing_is_asked() {
    let mut a = args(Some("feat"), Some("x"));
    a.breaking = true;
    assert_eq!(check_breaking_flag(&a), Err(CommitError::MissingBreakingMessage));
    a.breaking_message = Some("  ".to_string());
    assert_eq!(check_breaking_flag(&a), Err(CommitError::MissingBreakingMessage));
    a.breaking_message = Some("gone".to_string());
    assert_eq!(check_breaking_flag(&a), Ok(()));
    let mut b = args(None, Some("x"));
    b.breaking = true;
    assert_eq!(check_breaking_flag(&b), Ok(()));
}

#[test]
fn given_type_summary_scope_and_breaking_message_are_checked() {
    let types = CommitTypes::default().all();
    assert_eq!(resolve_commit_type("feat", &types), Ok("feat".to_string()));
    assert_eq!(resolve_commit_type("feature", &types), Err(CommitError::InvalidType));
    assert_eq!(resolve_summary(" \t"), Err(CommitError::EmptySummary));
    assert_eq!(resolve_summary("do it"), Ok("do it".to_string()));
    let allowed = vec!["api".to_string(), "ui".to_string()];
    assert_eq!(resolve_scope("ui", &allowed), Ok("ui".to_string()));
    assert_eq!(resolve_scope("db", &allowed), Err(CommitError::InvalidScope));
    assert_eq!(resolve_scope("anything", &Vec::new()), Ok("anything".to_string()));
    assert_eq!(resolve_breaking_message(""), Err(CommitError::EmptyBreakingMessage));
    assert_eq!(resolve_breaking_message("why"), Ok("why".to_string()));
}

#[test]
fn non_interactive_commit_message() {
    let types = CommitTypes::default().all();
    assert_eq!(non_interactive_message(&args(Some("feat"), None), &types), None);
    let mut a = args(Some("feat"), Some(" add x "));
    a.scope = Some("ignored".to_string());
    a.breaking = true;
    a.breaking_message = Some("not written".to_string());
    a.body = Some("why".to_string());
    a.footer = vec!["Closes #3".to_string()];
    assert_eq!(
        non_interactive_message(&a, &types),
        Some(Ok("feat!: add x\n\nwhy\nCloses #3".to_string()))
    );
    assert_eq!(
        non_interactive_message(&args(Some("perf"), Some("x")), &types),
        Some(Err(CommitError::InvalidType))
    );
    assert_eq!(
        non_interactive_message(&args(Some("fix"), Some("  ")), &types),
        Some(Err(CommitError::EmptySummary))
    );
}

#[test]
fn fix_runs_the_editor_that_is_asked_for() {
    let a = FixArgs {
        interactive: false,
        regen: false,
        cleanup: true,
        editor_msg: Some("MSG".to_string()),
        editor_seq: Some("SEQ".to_string()),
    };
    assert!(matches!(run(a), FixAction::EditMessage(p) if p == "MSG"));
    let a = FixArgs {
        interactive: false,
        regen: false,
        cleanup: true,
        editor_msg: None,
        editor_seq: Some("SEQ".to_string()),
    };
    assert!(matches!(run(a), FixAction::EditSequence(p) if p == "SEQ"));
    let a = FixArgs { interactive: true, regen: false, cleanup: true, editor_msg: None, editor_seq: None };
    assert!(matches!(
        run(a),
        FixAction::Rebase { interactive: true, regen: false, cleanup: true }
    ));
}

#[test]
fn sequence_editor_rewords_the_commits_to_fix() {
    let fixes = CommitFixFile {
        fixes: vec![fix("abcdef0123456789", "wip", "chore(misc): wip")],
    };
    let todo = "pick abcdef0 wip\r\npick 1234567 feat: ok\n# comment\n";
    assert_eq!(
        rewrite_todo(todo, &fixes).as_deref(),
        Some("reword abcdef0\npick 1234567 feat: ok\n# comment\n")
    );
    assert_eq!(rewrite_todo("", &fixes).as_deref(), Some("\n"));
    assert_eq!(rewrite_todo("pick abc x", &fixes), None);
    let short = CommitFixFile { fixes: vec![fix("abc", "a", "b")] };
    assert_eq!(rewrite_todo("exec true", &short), None);
}

#[test]
fn message_editor_finds_the_fix_by_first_line() {
    let fixes = CommitFixFile {
        fixes: vec![fix("a1", " wip ", "chore(misc): wip"), fix("a2", "wip", "second")],
    };
    assert_eq!(
        message_for_edit("wip\n\n# Please enter the commit message\n", &fixes).as_deref(),
        Some("chore(misc): wip")
    );
    assert_eq!(message_for_edit("other\n", &fixes), None);
    let empty = CommitFixFile { fixes: vec![fix("a3", "  ", "x")] };
    assert_eq!(message_for_edit("", &empty).as_deref(), Some("x"));
}

#[test]
fn commits_grouped_by_type_for_the_changelog() {
    let commits = vec![
        ("h1".to_string(), "feat(ui): one".to_string()),
        ("h2".to_string(), "not conventional".to_string()),
        ("h3".to_string(), "fix: two".to_string()),
        ("h4".to_string(), "feat: three".to_string()),
    ];
    let groups = group_by_type(&commits, &["feat", "fix"]);
    assert_eq!(groups.len(), 2);
    assert_eq!(groups.key_at(0), "feat");
    assert_eq!(
        groups.value_at(0),
        &vec![
            ("h1".to_string(), Some("ui".to_string()), "one".to_string()),
            ("h4".to_string(), None, "three".to_string())
        ]
    );
    assert_eq!(groups.key_at(1), "fix");
    assert_eq!(groups.value_at(1), &vec![("h3".to_string(), None, "two".to_string())]);
}

#[test]
fn changelog_tags_and_json_texts() {
    assert_eq!(range_tag(&None), "Unreleased");
    assert_eq!(range_tag(&Some("v2.0.0".to_string())), "v2.0.0");
    assert_eq!(display_tag("Unreleased", &Some("v2.0.0".to_string())), "v2.0.0");
    assert_eq!(display_tag("Unreleased", &None), "Unreleased");
    assert_eq!(display_tag("v1.0.0", &Some("v2.0.0".to_string())), "v1.0.0");
    assert_eq!(entry_message(&Some("ui".to_string()), "fix it"), "ui: fix it");
    assert_eq!(entry_message(&None, "fix it"), "fix it");
    let types = CommitTypes::default().all();
    assert_eq!(kind_description(&types, "feat"), "A new feature");
    assert_eq!(kind_description(&types, "perf"), "perf");
}

#[test]
fn changelog_file_content() {
    let md = "## [v1] - 2024-01-01\n\n### Added\n- x (abc1234)\n\n\n";
    assert_eq!(changelog_file(None, md), format!("# Changelog\n\n{}", md));
    assert_eq!(
        changelog_file(Some("# Changelog\n\n## [v0]\n\n"), md),
        format!("# Changelog\n\n## [v0]\n{}", md)
    );
    assert_eq!(changelog_file(Some("old notes\n"), md), format!("# Changelog\n\nold notes\n{}", md));
    assert_eq!(dry_run_text(md), "# Changelog\n\n## [v1] - 2024-01-01\n\n### Added\n- x (abc1234)");
}

#[test]
fn bump_range_ends() {
    assert_eq!(bump_target("HEAD", &Some("develop".to_string())), "develop");
    assert_eq!(bump_target("HEAD", &None), "main");
    assert_eq!(bump_target("release", &Some("develop".to_string())), "release");
    assert_eq!(bump_start(Some("v1.0.0".to_string()), Some("v2.0.0".to_string())), "v1.0.0");
    assert_eq!(bump_start(None, Some("v2.0.0".to_string())), "v2.0.0");
    assert_eq!(bump_start(None, None), "v0.0.0");
}

#[test]
fn staging_changes_follow_the_selection() {
    let files = vec!["a".to_string(), "b".to_string(), "c".to_string(), "d".to_string()];
    let staged = vec!["b".to_string(), "c".to_string()];
    let selected = vec!["a".to_string(), "b".to_string()];
    let changes = staging_changes(&files, &selected, &staged);
    assert_eq!(changes.len(), 2);
    assert!(matches!(&changes[0], StageChange::Stage(p) if p == "a"));
    assert!(matches!(&changes[1], StageChange::Unstage(p) if p == "c"));
    assert_eq!(unstaged_only(&files, &staged), vec!["a", "d"]);
}

#[test]
fn rejected_commits_of_a_range() {
    let commits = vec![
        ("h1".to_string(), "feat: a".to_string()),
        ("h2".to_string(), "bad".to_string()),
        ("h3".to_string(), "fix(x): b".to_string()),
    ];
    assert_eq!(
        rejected_in_range(&commits, &["feat", "fix"]),
        vec![("h2".to_string(), "bad".to_string())]
    );
}

#[test]
fn push_range_starts_at_the_latest_tag() {
    assert_eq!(push_range_start(None, Some("v1.0.0".to_string())), Some("v1.0.0".to_string()));
    assert_eq!(push_range_start(Some("abc".to_string()), Some("v1.0.0".to_string())), Some("abc".to_string()));
    assert_eq!(push_range_start(None, None), None);
}

#[test]
fn validity_of_each_commit() {
    let commits = vec![
        ("h1".to_string(), "feat: a".to_string()),
        ("h2".to_string(), "bad".to_string()),
    ];
    assert_eq!(commit_validity(&commits, &["feat"]), vec![true, false]);
}

#[test]
fn rebase_steps() {
    assert!(matches!(rebase_step(false, false, true, true), RebaseStep::NothingToRegenerate));
    assert!(matches!(rebase_step(false, false, false, true), RebaseStep::CleanUp));
    assert!(matches!(rebase_step(false, true, false, false), RebaseStep::AllValid));
    assert!(matches!(rebase_step(true, false, true, false), RebaseStep::Regenerate));
    assert!(matches!(
        rebase_step(true, true, false, true),
        RebaseStep::Rewrite { asks: false, cleanup: true }
    ));
    assert!(matches!(
        rebase_step(true, false, false, false),
        RebaseStep::Rewrite { asks: true, cleanup: false }
    ));
}
