use commitguard::parse::{parse, parse_messages};

#[test]
fn parses_a_basic_conventional_commit() {
    let c = parse("feat: add dark mode toggle").unwrap();
    assert_eq!(c.commit_type, "feat");
    assert_eq!(c.scope, None);
    assert!(!c.breaking);
    assert_eq!(c.description, "add dark mode toggle");
}

#[test]
fn parses_scope_and_breaking_marker() {
    let c = parse("feat(api)!: remove deprecated v1 endpoints").unwrap();
    assert_eq!(c.commit_type, "feat");
    assert_eq!(c.scope.as_deref(), Some("api"));
    assert!(c.breaking);
}

#[test]
fn breaking_change_footer_also_marks_breaking_even_without_the_bang() {
    let msg =
        "feat: change response shape\n\nBREAKING CHANGE: `id` is now a string, not a number";
    let c = parse(msg).unwrap();
    assert!(
        c.breaking,
        "a BREAKING CHANGE footer must count even without '!' in the subject"
    );
}

#[test]
fn body_is_captured_when_present() {
    let msg = "fix: correct off-by-one in pagination\n\nThe last page was being dropped.";
    let c = parse(msg).unwrap();
    assert_eq!(c.body.as_deref(), Some("The last page was being dropped."));
}

#[test]
fn non_conventional_subject_is_a_descriptive_error_not_a_panic() {
    let result = parse("fixed the bug");
    assert!(result.is_err());
    assert!(result.unwrap_err().contains("fixed the bug"));
}

#[test]
fn empty_message_is_a_clean_error() {
    assert!(parse("").is_err());
}

#[test]
fn empty_message_error_text() {
    assert_eq!(parse("").unwrap_err(), "commit message is empty");
    assert_eq!(parse("   \n\nbody only").unwrap_err(), "commit message is empty");
}

#[test]
fn mismatch_error_quotes_the_subject() {
    assert_eq!(
        parse("fixed the bug").unwrap_err(),
        "subject line doesn't match 'type(scope)!: description' — got: \"fixed the bug\""
    );
    // The quoting escapes what needs escaping.
    let err = parse("say \"hi\"").unwrap_err();
    assert!(err.ends_with("got: \"say \\\"hi\\\"\""), "{err}");
}

#[test]
fn subject_is_trimmed_before_matching() {
    let c = parse("  \tfix: tidy up  \nmore").unwrap();
    assert_eq!(c.commit_type, "fix");
    assert_eq!(c.description, "tidy up");
    assert_eq!(c.body.as_deref(), Some("more"));
}

#[test]
fn crlf_line_endings_are_handled() {
    let c = parse("fix(ui): align button\r\n\r\nFirst line.\r\nSecond line.\r\n").unwrap();
    assert_eq!(c.scope.as_deref(), Some("ui"));
    assert_eq!(c.description, "align button");
    assert_eq!(c.body.as_deref(), Some("First line.\nSecond line."));
}

#[test]
fn blank_body_is_none() {
    let c = parse("docs: readme\n\n   \n\t\n").unwrap();
    assert_eq!(c.body, None);
}

#[test]
fn multi_paragraph_body_is_kept_whole() {
    let c = parse("feat: x\n\nPara one.\n\nPara two.").unwrap();
    assert_eq!(c.body.as_deref(), Some("Para one.\n\nPara two."));
}

#[test]
fn grammar_edge_cases() {
    // empty scope
    assert!(parse("feat(): x").is_err());
    // unterminated scope
    assert!(parse("feat(api: x").is_err());
    // missing space after colon
    assert!(parse("feat:x").is_err());
    // empty description
    assert!(parse("feat: ").is_err());
    // digits are not part of the type
    assert!(parse("feat2: x").is_err());
    // bang without scope
    let c = parse("refactor!: drop the old path").unwrap();
    assert!(c.breaking);
    assert_eq!(c.scope, None);
    // scope can hold anything but ')'
    let c = parse("fix(a b(c): d").unwrap();
    assert_eq!(c.scope.as_deref(), Some("a b(c"));
    // the description can itself contain ": "
    let c = parse("chore: note: details").unwrap();
    assert_eq!(c.description, "note: details");
    // an unknown type still parses; the linter judges it
    assert_eq!(parse("Feet: x").unwrap().commit_type, "Feet");
}

#[test]
fn footer_must_be_in_the_body_to_count() {
    let c = parse("feat: mention BREAKING CHANGE in subject").unwrap();
    assert!(!c.breaking);
    let c = parse("feat: x\n\nsome BREAKING CHANGEs here").unwrap();
    assert!(c.breaking);
}

#[test]
fn parse_messages_keeps_only_conventional_ones_in_order() {
    let msgs = vec![
        "feat: one".to_string(),
        "not conventional".to_string(),
        "".to_string(),
        "fix(core): two".to_string(),
    ];
    let commits = parse_messages(&msgs);
    assert_eq!(commits.len(), 2);
    assert_eq!(commits[0].description, "one");
    assert_eq!(commits[1].commit_type, "fix");
    assert_eq!(commits[1].scope.as_deref(), Some("core"));
}

#[test]
fn parse_undoes_subject_formatting() {
    let cases: Vec<(&str, Option<&str>, bool, &str)> = vec![
        ("feat", Some("ui"), true, "add x"),
        ("fix", None, false, "correct y"),
        ("Chore", Some("deps (all"), false, "bump: everything"),
        ("ci", None, true, "drop node 12"),
    ];
    for (t, scope, bang, desc) in cases {
        let subject = format!(
            "{t}{}{}: {desc}",
            scope.map(|s| format!("({s})")).unwrap_or_default(),
            if bang { "!" } else { "" }
        );
        let c = parse(&subject).unwrap();
        assert_eq!(c.commit_type, t);
        assert_eq!(c.scope.as_deref(), scope);
        assert_eq!(c.breaking, bang);
        assert_eq!(c.description, desc);
        assert_eq!(c.body, None);
    }
}
