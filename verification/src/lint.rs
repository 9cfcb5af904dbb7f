//! The lint rules a commit message is held to.
use vstd::prelude::*;
use vstd::string::*;

use crate::parse::{
    failure_text, mismatch_prefix, parse, parse_spec, plain_ascii, quoted, CommitView,
    ConventionalCommit, ParseFailure,
};
use crate::text::{
    chars_eq_str, char_is_uppercase, decimal, first_line, join, push_decimal, push_joined, split_lines,
    to_chars, trim_end, trim_end_bound, uppercase,
};

verus! {

/// The longest subject line, in characters, that passes the length rule.
pub const MAX_SUBJECT_LEN: usize = 100;

/// One rule a commit message breaks, with a human-readable explanation.
#[derive(Debug, Clone, PartialEq)]
pub struct LintIssue {
    pub rule: &'static str,
    pub message: String,
}

/// The abstract value of a `LintIssue`.
pub struct IssueView {
    pub rule: Seq<char>,
    pub message: Seq<char>,
}

impl View for LintIssue {
    type V = IssueView;

    open spec fn view(&self) -> IssueView {
        IssueView { rule: self.rule@, message: self.message@ }
    }
}

pub open spec fn issue_views(issues: Seq<LintIssue>) -> Seq<IssueView> {
    issues.map_values(|i: LintIssue| i@)
}

/// The commit types the `type-enum` rule accepts, in the order its message
/// lists them.
pub open spec fn allowed_types() -> Seq<Seq<char>> {
    seq![
        "feat"@,
        "fix"@,
        "docs"@,
        "style"@,
        "refactor"@,
        "perf"@,
        "test"@,
        "build"@,
        "ci"@,
        "chore"@,
        "revert"@,
    ]
}

/// The issue an unparseable message gets.
pub open spec fn format_issue(reason: Seq<char>) -> IssueView {
    IssueView { rule: "format"@, message: reason }
}

/// The `type-enum` rule: the type is one of the allowed types.
pub open spec fn type_issues(c: CommitView) -> Seq<IssueView> {
    if allowed_types().contains(c.commit_type) {
        seq![]
    } else {
        seq![
            IssueView {
                rule: "type-enum"@,
                message: "'"@ + c.commit_type + "' is not an allowed type — expected one of: "@ + join(
                    allowed_types(),
                    ", "@,
                ),
            },
        ]
    }
}

/// The `description-case` rule: the description does not start with an
/// uppercase character.
pub open spec fn case_issues(c: CommitView) -> Seq<IssueView> {
    if c.description.len() > 0 && uppercase(c.description[0]) {
        seq![
            IssueView {
                rule: "description-case"@,
                message: "description should start with a lowercase letter"@,
            },
        ]
    } else {
        seq![]
    }
}

/// The `description-full-stop` rule: the description, without trailing
/// whitespace, does not end with a period.
pub open spec fn period_issues(c: CommitView) -> Seq<IssueView> {
    let t = trim_end(c.description);
    if t.len() > 0 && t.last() == '.' {
        seq![
            IssueView {
                rule: "description-full-stop"@,
                message: "description should not end with a period"@,
            },
        ]
    } else {
        seq![]
    }
}

/// The `subject-max-length` rule: the first line of the message (untrimmed)
/// has at most `MAX_SUBJECT_LEN` characters.
pub open spec fn length_issues(msg: Seq<char>) -> Seq<IssueView> {
    let n = first_line(msg).len();
    if n > MAX_SUBJECT_LEN {
        seq![
            IssueView {
                rule: "subject-max-length"@,
                message: "subject line is "@ + decimal(n) + " characters, max is "@ + decimal(
                    MAX_SUBJECT_LEN as nat,
                ),
            },
        ]
    } else {
        seq![]
    }
}

/// Every issue of a message: the single format issue when it does not parse,
/// otherwise the outcome of each rule, in rule order.
pub open spec fn lint_spec(msg: Seq<char>) -> Seq<IssueView> {
    match parse_spec(msg) {
        Err(f) => seq![format_issue(failure_text(f))],
        Ok(c) => type_issues(c) + case_issues(c) + period_issues(c) + length_issues(msg),
    }
}

/// The commit types the `type-enum` rule accepts.
pub fn allowed_type_names() -> (r: Vec<&'static str>)
    ensures
        r@.map_values(|s: &'static str| s@) == allowed_types(),
{
    let r = vec![
        "feat",
        "fix",
        "docs",
        "style",
        "refactor",
        "perf",
        "test",
        "build",
        "ci",
        "chore",
        "revert",
    ];
    assert(r@.map_values(|s: &'static str| s@) =~= allowed_types());
    r
}

/// Lints a full commit message. If it doesn't parse as a Conventional
/// Commit, that is the one issue reported; otherwise every rule runs against
/// the parsed result, so a message can fail more than one rule at once.
pub fn lint(message: &str) -> (r: Vec<LintIssue>)
    ensures
        issue_views(r@) == lint_spec(message@),
        // The format issue names the offending subject line.
        parse_spec(message@) matches Err(ParseFailure::Mismatch(subj)) ==> (plain_ascii(subj) ==> (r@.len()
            == 1 && r@[0].message@ == mismatch_prefix() + quoted(subj))),
{
    let commit = match parse(message) {
        Ok(c) => c,
        Err(reason) => {
            let issues = vec![LintIssue { rule: "format", message: reason }];
            assert(issue_views(issues@) =~= lint_spec(message@));
            return issues;
        },
    };
    let mut issues: Vec<LintIssue> = Vec::new();
    assert(issue_views(issues@) =~= Seq::<IssueView>::empty());
    check_type(&commit, &mut issues);
    check_description_case(&commit, &mut issues);
    check_description_no_trailing_period(&commit, &mut issues);
    check_subject_length(message, &mut issues);
    let ghost c = commit@;
    assert(issue_views(issues@) =~= type_issues(c) + case_issues(c) + period_issues(c)
        + length_issues(message@));
    issues
}

/// Appends `issue` to `issues`.
fn push_issue(issues: &mut Vec<LintIssue>, issue: LintIssue)
    ensures
        issue_views(final(issues)@) == issue_views(old(issues)@).push(issue@),
{
    issues.push(issue);
    assert(issue_views(issues@) =~= issue_views(old(issues)@).push(issue@));
}

fn check_type(commit: &ConventionalCommit, issues: &mut Vec<LintIssue>)
    ensures
        issue_views(final(issues)@) == issue_views(old(issues)@) + type_issues(commit@),
{
    let names = allowed_type_names();
    let ghost ns = names@.map_values(|s: &'static str| s@);
    let t = to_chars(commit.commit_type.as_str());
    let mut found = false;
    let mut i: usize = 0;
    while i < names.len()
        invariant
            i <= names@.len(),
            ns == names@.map_values(|s: &'static str| s@),
            ns == allowed_types(),
            found <==> (exists|k: int| 0 <= k < i && #[trigger] ns[k] == t@),
        decreases names.len() - i,
    {
        let here = chars_eq_str(&t, names[i]);
        proof {
            if here {
                assert(ns[i as int] == t@);
            }
        }
        found = found || here;
        i = i + 1;
    }
    if !found {
        let mut message = String::from_str("'");
        message.append(commit.commit_type.as_str());
        message.append("' is not an allowed type — expected one of: ");
        let mut parts: Vec<Vec<char>> = Vec::new();
        let mut k: usize = 0;
        while k < names.len()
            invariant
                k <= names@.len(),
                ns == names@.map_values(|s: &'static str| s@),
                parts.deep_view() == ns.take(k as int),
            decreases names.len() - k,
        {
            let p = to_chars(names[k]);
            let ghost old_dv = parts.deep_view();
            assert(p.deep_view() =~= p@);
            assert(ns[k as int] == p@);
            parts.push(p);
            assert(parts.deep_view() =~= old_dv.push(p@));
            assert(parts.deep_view() =~= ns.take(k + 1));
            k = k + 1;
        }
        assert(ns.take(names@.len() as int) =~= ns);
        assert(parts.deep_view().skip(0) =~= ns);
        push_joined(&mut message, &parts, 0, ", ");
        push_issue(issues, LintIssue { rule: "type-enum", message });
    }
    assert(issue_views(issues@) =~= issue_views(old(issues)@) + type_issues(commit@));
}

fn check_description_case(commit: &ConventionalCommit, issues: &mut Vec<LintIssue>)
    ensures
        issue_views(final(issues)@) == issue_views(old(issues)@) + case_issues(commit@),
{
    let d = to_chars(commit.description.as_str());
    if d.len() > 0 && char_is_uppercase(d[0]) {
        push_issue(
            issues,
            LintIssue {
                rule: "description-case",
                message: String::from_str("description should start with a lowercase letter"),
            },
        );
    }
    assert(issue_views(issues@) =~= issue_views(old(issues)@) + case_issues(commit@));
}

fn check_description_no_trailing_period(commit: &ConventionalCommit, issues: &mut Vec<LintIssue>)
    ensures
        issue_views(final(issues)@) == issue_views(old(issues)@) + period_issues(commit@),
{
    let d = to_chars(commit.description.as_str());
    let j = trim_end_bound(&d, 0, d.len());
    proof {
        assert(d@.subrange(0, d@.len() as int) =~= d@);
        if j > 0 {
            assert(d@.subrange(0, j as int).last() == d@[j - 1]);
        }
    }
    if j > 0 && d[j - 1] == '.' {
        push_issue(
            issues,
            LintIssue {
                rule: "description-full-stop",
                message: String::from_str("description should not end with a period"),
            },
        );
    }
    assert(issue_views(issues@) =~= issue_views(old(issues)@) + period_issues(commit@));
}

fn check_subject_length(message: &str, issues: &mut Vec<LintIssue>)
    ensures
        issue_views(final(issues)@) == issue_views(old(issues)@) + length_issues(message@),
{
    let chars = to_chars(message);
    let ls = split_lines(&chars);
    let n: usize = if ls.len() > 0 {
        ls[0].len()
    } else {
        0
    };
    proof {
        if ls@.len() > 0 {
            assert(ls@[0]@ =~= ls.deep_view()[0]);
        }
    }
    assert(n == first_line(message@).len());
    if n > MAX_SUBJECT_LEN {
        let mut text = String::from_str("subject line is ");
        push_decimal(&mut text, n);
        text.append(" characters, max is ");
        push_decimal(&mut text, MAX_SUBJECT_LEN);
        push_issue(issues, LintIssue { rule: "subject-max-length", message: text });
    }
    assert(issue_views(issues@) =~= issue_views(old(issues)@) + length_issues(message@));
}


/// One report line per issue: `  [rule] message`.
pub open spec fn issue_lines(issues: Seq<IssueView>) -> Seq<char>
    decreases issues.len(),
{
    if issues.len() == 0 {
        seq![]
    } else {
        issue_lines(issues.drop_last()) + "  ["@ + issues.last().rule + "] "@ + issues.last().message + "\n"@
    }
}

/// The report shown when a commit message is rejected.
pub open spec fn rejection_report_spec(issues: Seq<IssueView>) -> Seq<char> {
    "commitguard: commit message rejected\n\n"@ + issue_lines(issues)
        + "\nsee https://www.conventionalcommits.org/ for the format expected\n"@
}

/// The report shown when a commit message is rejected: a heading, one line
/// per issue naming its rule, and a pointer to the specification.
pub fn rejection_report(issues: &[LintIssue]) -> (r: String)
    ensures
        r@ == rejection_report_spec(issue_views(issues@)),
{
    let ghost is = issue_views(issues@);
    let mut out = String::from_str("commitguard: commit message rejected\n\n");
    let ghost head = out@;
    let mut i: usize = 0;
    while i < issues.len()
        invariant
            i <= issues@.len(),
            is == issue_views(issues@),
            out@ == head + issue_lines(is.take(i as int)),
        decreases issues.len() - i,
    {
        out.append("  [");
        out.append(issues[i].rule);
        out.append("] ");
        out.append(issues[i].message.as_str());
        out.append("\n");
        proof {
            let t = is.take(i + 1);
            assert(t.drop_last() =~= is.take(i as int));
            assert(t.last() == issues@[i as int]@);
        }
        i = i + 1;
    }
    assert(is.take(issues@.len() as int) =~= is);
    out.append("\nsee https://www.conventionalcommits.org/ for the format expected\n");
    out
}

// ---------------------------------------------------------------------------
// Laws
// ---------------------------------------------------------------------------

/// Whether some issue in `issues` is for `rule`.
pub open spec fn reports(issues: Seq<IssueView>, rule: Seq<char>) -> bool {
    exists|i: int| 0 <= i < issues.len() && #[trigger] issues[i].rule == rule
}

proof fn lemma_reports_concat(a: Seq<IssueView>, b: Seq<IssueView>, rule: Seq<char>)
    ensures
        reports(a + b, rule) <==> (reports(a, rule) || reports(b, rule)),
{
    if reports(a + b, rule) {
        let i = choose|i: int| 0 <= i < (a + b).len() && #[trigger] (a + b)[i].rule == rule;
        if i < a.len() {
            assert(a[i].rule == rule);
        } else {
            assert(b[i - a.len()].rule == rule);
        }
    }
    if reports(a, rule) {
        let i = choose|i: int| 0 <= i < a.len() && #[trigger] a[i].rule == rule;
        assert((a + b)[i].rule == rule);
    }
    if reports(b, rule) {
        let i = choose|i: int| 0 <= i < b.len() && #[trigger] b[i].rule == rule;
        assert((a + b)[a.len() + i].rule == rule);
    }
}

/// A message that does not parse gets exactly one issue, under the `format`
/// rule, carrying the parser's reason.
pub proof fn law_unparseable_message_gets_one_format_issue(msg: Seq<char>)
    ensures
        parse_spec(msg) matches Err(f) ==> lint_spec(msg) == seq![format_issue(failure_text(f))],
{
}

/// The rules do not short-circuit each other: on a message that parses, each
/// rule is reported exactly when that rule's own condition fails, whatever the
/// other rules find, and the `format` rule is never reported.
pub proof fn law_rules_are_checked_independently(msg: Seq<char>)
    ensures
        parse_spec(msg) matches Ok(c) ==> {
            let issues = lint_spec(msg);
            &&& reports(issues, "type-enum"@) <==> !allowed_types().contains(c.commit_type)
            &&& reports(issues, "description-case"@) <==> (c.description.len() > 0 && uppercase(
                c.description[0],
            ))
            &&& reports(issues, "description-full-stop"@) <==> (trim_end(c.description).len() > 0
                && trim_end(c.description).last() == '.')
            &&& reports(issues, "subject-max-length"@) <==> first_line(msg).len() > MAX_SUBJECT_LEN
            &&& !reports(issues, "format"@)
        },
{
    if let Ok(c) = parse_spec(msg) {
        reveal_strlit("type-enum");
        reveal_strlit("description-case");
        reveal_strlit("description-full-stop");
        reveal_strlit("subject-max-length");
        reveal_strlit("format");
        let a = type_issues(c);
        let b = case_issues(c);
        let d = period_issues(c);
        let e = length_issues(msg);
        let rules = seq![
            "type-enum"@,
            "description-case"@,
            "description-full-stop"@,
            "subject-max-length"@,
            "format"@,
        ];
        assert forall|k: int| 0 <= k < rules.len() implies {
            let r = #[trigger] rules[k];
            reports(lint_spec(msg), r) <==> (reports(a, r) || reports(b, r) || reports(d, r) || reports(e, r))
        } by {
            let r = rules[k];
            lemma_reports_concat(a, b, r);
            lemma_reports_concat(a + b, d, r);
            lemma_reports_concat(a + b + d, e, r);
        }
        assert(rules[0] == "type-enum"@);
        assert(rules[1] == "description-case"@);
        assert(rules[2] == "description-full-stop"@);
        assert(rules[3] == "subject-max-length"@);
        assert(rules[4] == "format"@);
        if a.len() > 0 {
            assert(a[0].rule == "type-enum"@);
        }
        if b.len() > 0 {
            assert(b[0].rule == "description-case"@);
        }
        if d.len() > 0 {
            assert(d[0].rule == "description-full-stop"@);
        }
        if e.len() > 0 {
            assert(e[0].rule == "subject-max-length"@);
        }
    }
}

/// A message is clean exactly when it parses and passes every rule.
pub proof fn law_clean_exactly_when_every_rule_passes(msg: Seq<char>)
    ensures
        lint_spec(msg).len() == 0 <==> (parse_spec(msg) matches Ok(c) && {
            &&& allowed_types().contains(c.commit_type)
            &&& !(c.description.len() > 0 && uppercase(c.description[0]))
            &&& !(trim_end(c.description).len() > 0 && trim_end(c.description).last() == '.')
            &&& first_line(msg).len() <= MAX_SUBJECT_LEN
        }),
{
}

} // verus!
