use commitguard::gitlog::{git_log_args, messages_from_log_output, split_log_output};

#[test]
fn splits_on_record_separators_and_trims() {
    let out = "feat: add first thing\n\u{1e}\nfix: correct second thing\n\u{1e}";
    assert_eq!(
        split_log_output(out),
        vec!["feat: add first thing".to_string(), "fix: correct second thing".to_string()]
    );
}

#[test]
fn multiline_body_with_blank_lines_stays_one_message() {
    let out = "feat: add thing\n\nFirst paragraph.\n\nSecond paragraph.\n\u{1e}";
    let messages = split_log_output(out);
    assert_eq!(messages.len(), 1);
    assert!(messages[0].contains("First paragraph."));
    assert!(messages[0].contains("Second paragraph."));
}

#[test]
fn empty_output_has_no_messages() {
    assert!(split_log_output("").is_empty());
    assert!(split_log_output("\u{1e}\n\u{1e}  \n").is_empty());
}

#[test]
fn round_trip_of_joined_messages() {
    let msgs = vec![
        "feat: one\n\nbody with\n\nblank lines".to_string(),
        "fix: two".to_string(),
        "chore: three\n\n- list\n- items".to_string(),
    ];
    let joined = msgs.join("\u{1e}");
    assert_eq!(split_log_output(&joined), msgs);
}

#[test]
fn raw_output_bytes_are_decoded() {
    let bytes = "feat: caf\u{e9}\n\u{1e}".as_bytes();
    assert_eq!(messages_from_log_output(bytes), vec!["feat: caf\u{e9}".to_string()]);
    let invalid: &[u8] = &[b'f', b'i', b'x', b':', b' ', 0xff, 0x1e];
    assert_eq!(messages_from_log_output(invalid), vec!["fix: \u{fffd}".to_string()]);
}

#[test]
fn log_arguments() {
    assert_eq!(
        git_log_args(None),
        vec!["log".to_string(), "--reverse".to_string(), "--pretty=format:%B\u{1e}".to_string()]
    );
    assert_eq!(
        git_log_args(Some("v1.0.0..HEAD")),
        vec![
            "log".to_string(),
            "--reverse".to_string(),
            "--pretty=format:%B\u{1e}".to_string(),
            "v1.0.0..HEAD".to_string()
        ]
    );
}

#[test]
fn messages_never_hold_the_separator() {
    let out = "a\u{1e}\u{1e} b \u{1e}c\n\u{1e}";
    let messages = split_log_output(out);
    assert_eq!(messages, vec!["a".to_string(), "b".to_string(), "c".to_string()]);
    assert!(messages.iter().all(|m| !m.contains('\u{1e}')));
}
