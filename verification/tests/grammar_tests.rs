//! The subject grammar checked against the regular expression that states it
//! in its usual form: `^(?P<type>[a-zA-Z]+)(\((?P<scope>[^)]+)\))?(?P<breaking>!)?: (?P<description>.+)$`.
use commitguard::parse::parse;
use regex::Regex;

fn subject_regex() -> Regex {
    Regex::new(r"^(?P<type>[a-zA-Z]+)(\((?P<scope>[^)]+)\))?(?P<breaking>!)?: (?P<description>.+)$")
        .unwrap()
}

fn check_agrees(subject: &str, re: &Regex) {
    let ours = parse(subject);
    let trimmed = subject.trim();
    match re.captures(trimmed) {
        Some(caps) if !trimmed.is_empty() => {
            let c = ours.unwrap_or_else(|e| panic!("{subject:?} rejected: {e}"));
            assert_eq!(c.commit_type, caps.name("type").unwrap().as_str(), "{subject:?}");
            assert_eq!(c.scope.as_deref(), caps.name("scope").map(|m| m.as_str()), "{subject:?}");
            assert_eq!(c.breaking, caps.name("breaking").is_some(), "{subject:?}");
            assert_eq!(c.description, caps.name("description").unwrap().as_str(), "{subject:?}");
        }
        _ => assert!(ours.is_err(), "{subject:?} accepted: {ours:?}"),
    }
}

#[test]
fn verified_grammar_agrees_with_the_regex_on_samples() {
    let re = subject_regex();
    let samples = [
        "feat: add dark mode toggle",
        "feat(api)!: remove deprecated v1 endpoints",
        "fix(a b(c): d",
        "fix(): d",
        "fix(x: d",
        "fix(x)): d",
        "fix!!: d",
        "fix! : d",
        "fix :d",
        "fix: ",
        "fix:  two spaces",
        "fix:\tx",
        "Fix: capital type",
        "fi x: space in type",
        "f: one-letter type",
        "(scope): no type",
        "!: nothing",
        ": nothing",
        "feat(api)",
        "feat(api)!",
        "feat: a\rb",
        "emoji(\u{1F600}): smile \u{1F600}",
        "ünïcode: type",
        "feat(scope with spaces)!: ok",
        "feat(scope)!:: double colon",
        "chore: note: details",
    ];
    for s in samples {
        check_agrees(s, &re);
    }
}

#[test]
fn verified_grammar_agrees_with_the_regex_exhaustively_on_short_subjects() {
    let re = subject_regex();
    let alphabet = ['a', 'B', '(', ')', '!', ':', ' ', '1'];
    let mut subject = Vec::new();
    fn go(depth: usize, subject: &mut Vec<char>, alphabet: &[char], re: &Regex) {
        let s: String = subject.iter().collect();
        check_agrees(&s, re);
        if depth == 0 {
            return;
        }
        for c in alphabet {
            subject.push(*c);
            go(depth - 1, subject, alphabet, re);
            subject.pop();
        }
    }
    go(6, &mut subject, &alphabet, &re);
}
