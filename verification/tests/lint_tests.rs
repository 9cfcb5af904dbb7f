use commitguard::lint::{allowed_type_names, lint, rejection_report, LintIssue};

#[test]
fn clean_commit_has_no_issues() {
    assert!(lint("fix: correct pagination off-by-one").is_empty());
}

#[test]
fn unparseable_subject_yields_exactly_one_format_issue() {
    let issues = lint("fixed a thing");
    assert_eq!(issues.len(), 1);
    assert_eq!(issues[0].rule, "format");
}

#[test]
fn unknown_type_is_flagged() {
    let issues = lint("feet: typo in the type itself");
    assert!(issues.iter().any(|i| i.rule == "type-enum"));
}

#[test]
fn uppercase_description_is_flagged() {
    let issues = lint("fix: Correct the bug");
    assert!(issues.iter().any(|i| i.rule == "description-case"));
}

#[test]
fn trailing_period_is_flagged() {
    let issues = lint("fix: correct the bug.");
    assert!(issues.iter().any(|i| i.rule == "description-full-stop"));
}

#[test]
fn overlong_subject_is_flagged() {
    let long_desc = "a".repeat(120);
    let issues = lint(&format!("feat: {long_desc}"));
    assert!(issues.iter().any(|i| i.rule == "subject-max-length"));
}

#[test]
fn a_message_can_fail_multiple_rules_at_once() {
    let issues = lint("feet: Fix the thing.");
    let rules: Vec<&str> = issues.iter().map(|i| i.rule).collect();
    assert!(rules.contains(&"type-enum"));
    assert!(rules.contains(&"description-case"));
    assert!(rules.contains(&"description-full-stop"));
}

#[test]
fn issues_come_in_rule_order_with_exact_messages() {
    let long_desc = "B".repeat(100);
    let issues = lint(&format!("feet: {long_desc}."));
    let rules: Vec<&str> = issues.iter().map(|i| i.rule).collect();
    assert_eq!(
        rules,
        vec!["type-enum", "description-case", "description-full-stop", "subject-max-length"]
    );
    assert_eq!(
        issues[0].message,
        "'feet' is not an allowed type — expected one of: feat, fix, docs, style, refactor, perf, test, build, ci, chore, revert"
    );
    assert_eq!(issues[1].message, "description should start with a lowercase letter");
    assert_eq!(issues[2].message, "description should not end with a period");
    assert_eq!(issues[3].message, "subject line is 107 characters, max is 100");
}

#[test]
fn format_issue_carries_the_parse_error() {
    let issues = lint("");
    assert_eq!(
        issues,
        vec![LintIssue { rule: "format", message: "commit message is empty".to_string() }]
    );
}

#[test]
fn every_allowed_type_passes() {
    for t in ["feat", "fix", "docs", "style", "refactor", "perf", "test", "build", "ci", "chore", "revert"] {
        assert!(lint(&format!("{t}: do it")).is_empty(), "{t}");
    }
    assert!(lint("FEAT: do it").iter().any(|i| i.rule == "type-enum"));
}

#[test]
fn length_rule_counts_characters_of_the_raw_first_line() {
    // exactly 100 characters: passes
    let ok = format!("fix: {}", "é".repeat(95));
    assert_eq!(ok.chars().count(), 100);
    assert!(lint(&ok).is_empty());
    // 101 characters: fails
    let long = format!("fix: {}", "é".repeat(96));
    let issues = lint(&long);
    assert_eq!(issues.len(), 1);
    assert_eq!(issues[0].message, "subject line is 101 characters, max is 100");
    // leading spaces count for the length even though parsing trims them
    let padded = format!("{}fix: x", " ".repeat(100));
    assert!(lint(&padded).iter().any(|i| i.rule == "subject-max-length"));
}

#[test]
fn uppercase_rule_uses_unicode_case() {
    assert!(lint("fix: Émile's fix").iter().any(|i| i.rule == "description-case"));
    assert!(lint("fix: émile's fix").is_empty());
    assert!(lint("fix: 1st fix").is_empty());
}

#[test]
fn period_rule_ignores_trailing_whitespace_inside_description() {
    assert!(lint("fix: done.").iter().any(|i| i.rule == "description-full-stop"));
    assert!(lint("fix: done...").iter().any(|i| i.rule == "description-full-stop"));
    assert!(lint("fix: version 1.2 done").is_empty());
}

#[test]
fn rejection_report_lists_every_issue() {
    let issues = lint("feet: Fix it");
    let report = rejection_report(&issues);
    assert_eq!(
        report,
        "commitguard: commit message rejected\n\n  [type-enum] 'feet' is not an allowed type — expected one of: feat, fix, docs, style, refactor, perf, test, build, ci, chore, revert\n  [description-case] description should start with a lowercase letter\n\nsee https://www.conventionalcommits.org/ for the format expected\n"
    );
}

#[test]
fn allowed_types_are_listed_in_rule_order() {
    assert_eq!(
        allowed_type_names(),
        vec!["feat", "fix", "docs", "style", "refactor", "perf", "test", "build", "ci", "chore", "revert"]
    );
}

#[test]
fn format_issue_names_the_bad_subject() {
    let issues = lint("fixed it");
    assert_eq!(issues.len(), 1);
    assert_eq!(
        issues[0].message,
        "subject line doesn't match 'type(scope)!: description' — got: \"fixed it\""
    );
}
