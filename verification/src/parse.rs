//! Parsing a full commit message (subject, optional blank line, body) into a
//! Conventional Commit.
use vstd::prelude::*;
use vstd::string::*;

use crate::subject::{
    assemble_subject, law_subject_grammar_unambiguous, lemma_assembled_without_line_feed,
    lemma_subject_parts_of_assembled, match_subject, parts_well_formed, split_parts,
    subject_matches, subject_parts, SubjectParts, SubjectSplit,
};
use crate::text::{
    contains_chars, contains_seq, first_line, join, lemma_contains_after_trim, lemma_index_of_char, lines, push_joined,
    rest_lines, split_lines, string_of_chars, string_of_range, to_chars, trim, trimmed_chars,
};

verus! {

/// A commit message that follows the Conventional Commits subject grammar.
#[derive(Debug, Clone, PartialEq)]
pub struct ConventionalCommit {
    pub commit_type: String,
    pub scope: Option<String>,
    pub breaking: bool,
    pub description: String,
    pub body: Option<String>,
}

/// The abstract value of a `ConventionalCommit`.
pub struct CommitView {
    pub commit_type: Seq<char>,
    pub scope: Option<Seq<char>>,
    pub breaking: bool,
    pub description: Seq<char>,
    pub body: Option<Seq<char>>,
}

pub open spec fn opt_string_view(o: Option<String>) -> Option<Seq<char>> {
    match o {
        Some(s) => Some(s@),
        None => None,
    }
}

impl View for ConventionalCommit {
    type V = CommitView;

    open spec fn view(&self) -> CommitView {
        CommitView {
            commit_type: self.commit_type@,
            scope: opt_string_view(self.scope),
            breaking: self.breaking,
            description: self.description@,
            body: opt_string_view(self.body),
        }
    }
}

/// The abstract values of a sequence of commits.
pub open spec fn commit_views(cs: Seq<ConventionalCommit>) -> Seq<CommitView> {
    cs.map_values(|c: ConventionalCommit| c@)
}

/// Why a message is no Conventional Commit.
pub enum ParseFailure {
    /// The subject line is empty (after trimming).
    Empty,
    /// The (trimmed) subject line does not follow the grammar.
    Mismatch(Seq<char>),
}

/// The trimmed first line of a message.
pub open spec fn subject_line(msg: Seq<char>) -> Seq<char> {
    trim(first_line(msg))
}

/// The body of a message: its lines after the first, joined by line feeds and
/// trimmed, when that leaves anything.
pub open spec fn body_of(msg: Seq<char>) -> Option<Seq<char>> {
    let t = trim(join(rest_lines(msg), seq!['\n']));
    if t.len() == 0 {
        None
    } else {
        Some(t)
    }
}

/// The footer text that marks a commit as breaking.
pub open spec fn breaking_footer() -> Seq<char> {
    "BREAKING CHANGE"@
}

/// Whether a body carries the breaking-change footer.
pub open spec fn has_breaking_footer(body: Option<Seq<char>>) -> bool {
    match body {
        Some(b) => contains_seq(b, breaking_footer()),
        None => false,
    }
}

/// What parsing `msg` yields.
pub open spec fn parse_spec(msg: Seq<char>) -> Result<CommitView, ParseFailure> {
    let subj = subject_line(msg);
    if subj.len() == 0 {
        Err(ParseFailure::Empty)
    } else {
        match subject_parts(subj) {
            None => Err(ParseFailure::Mismatch(subj)),
            Some(p) => Ok(
                CommitView {
                    commit_type: p.commit_type,
                    scope: p.scope,
                    breaking: p.breaking || has_breaking_footer(body_of(msg)),
                    description: p.description,
                    body: body_of(msg),
                },
            ),
        }
    }
}

/// The text `format!("{:?}", s)` yields for a string `s`: Rust's quoted,
/// escaped rendering of it.
pub uninterp spec fn debug_text(s: Seq<char>) -> Seq<char>;

/// Whether every character of `s` is printable ASCII other than `"` and `\`,
/// which Rust's debug rendering of a string leaves as they are.
pub open spec fn plain_ascii(s: Seq<char>) -> bool {
    forall|i: int|
        0 <= i < s.len() ==> ' ' <= #[trigger] s[i] && s[i] <= '~' && s[i] != '"' && s[i] != '\\'
}

/// `s` between double quotes.
pub open spec fn quoted(s: Seq<char>) -> Seq<char> {
    seq!['"'] + s + seq!['"']
}

/// Calls `<str as Debug>::fmt` through `format!`. The contract claims that the
/// text is a function of the string (named `debug_text`) and that a string of
/// printable ASCII without `"` or `\` comes out as is between double quotes;
/// the escaping of other characters is not restated here.
#[verifier::external_body]
fn debug_quoted(s: &str) -> (r: String)
    ensures
        r@ == debug_text(s@),
        plain_ascii(s@) ==> r@ == quoted(s@),
{
    format!("{:?}", s)
}

/// The start of the reason given for a subject line off the grammar.
pub open spec fn mismatch_prefix() -> Seq<char> {
    "subject line doesn't match 'type(scope)!: description' — got: "@
}

/// The human-readable reason for a failure.
pub open spec fn failure_text(f: ParseFailure) -> Seq<char> {
    match f {
        ParseFailure::Empty => "commit message is empty"@,
        ParseFailure::Mismatch(subj) => mismatch_prefix() + debug_text(subj),
    }
}

/// The result of `parse` stands for `spec`.
pub open spec fn parse_result_is(r: Result<ConventionalCommit, String>, spec: Result<CommitView, ParseFailure>) -> bool {
    match spec {
        Ok(v) => r matches Ok(c) && c@ == v,
        Err(f) => r matches Err(e) && e@ == failure_text(f),
    }
}

/// When the matcher found the positions of `s`'s pieces, they are the pieces
/// the grammar assigns to `s`.
proof fn lemma_subject_parts_found(s: Seq<char>, sp: SubjectSplit)
    requires
        subject_matches(s, split_parts(s, sp)),
    ensures
        subject_parts(s) == Some(split_parts(s, sp)),
{
    let p = choose|p: SubjectParts| subject_matches(s, p);
    law_subject_grammar_unambiguous(s, p, split_parts(s, sp));
}

/// Parses a full commit message (subject + optional blank line + body)
/// against the Conventional Commits subject-line grammar
/// `type(scope)!: description`. Returns `Err` with a human-readable reason.
pub fn parse(message: &str) -> (r: Result<ConventionalCommit, String>)
    ensures
        parse_result_is(r, parse_spec(message@)),
        // The reason names the offending subject line.
        parse_spec(message@) matches Err(ParseFailure::Mismatch(subj)) ==> (plain_ascii(subj) ==> (r matches Err(
            e,
        ) && e@ == mismatch_prefix() + quoted(subj))),
{
    let chars = to_chars(message);
    let ls = split_lines(&chars);
    let subject: Vec<char> = if ls.len() > 0 {
        trimmed_chars(&ls[0])
    } else {
        Vec::new()
    };
    proof {
        if ls@.len() > 0 {
            assert(ls@[0]@ =~= ls.deep_view()[0]);
        } else {
            assert(trim(Seq::<char>::empty()) == Seq::<char>::empty());
        }
    }
    assert(subject@ == subject_line(message@));
    if subject.len() == 0 {
        return Err(String::from_str("commit message is empty"));
    }
    let split = match_subject(&subject);
    let sp = match split {
        None => {
            let subject_text = string_of_chars(&subject);
            let mut reason = String::from_str(
                "subject line doesn't match 'type(scope)!: description' — got: ",
            );
            let quoted = debug_quoted(subject_text.as_str());
            reason.append(quoted.as_str());
            return Err(reason);
        },
        Some(sp) => sp,
    };
    proof {
        lemma_subject_parts_found(subject@, sp);
    }
    let commit_type = string_of_range(&subject, 0, sp.type_end);
    let scope = match sp.scope {
        Some((a, b)) => Some(string_of_range(&subject, a, b)),
        None => None,
    };
    let description = string_of_range(&subject, sp.desc_start, subject.len());

    let mut body_text = String::new();
    if ls.len() > 0 {
        push_joined(&mut body_text, &ls, 1, "\n");
    }
    proof {
        reveal_strlit("\n");
        assert("\n"@ == seq!['\n']);
        if ls@.len() > 0 {
            assert(ls.deep_view().skip(1) == rest_lines(message@));
        } else {
            assert(rest_lines(message@) =~= Seq::<Seq<char>>::empty());
        }
    }
    let body_chars = to_chars(body_text.as_str());
    let trimmed = trimmed_chars(&body_chars);
    let body = if trimmed.len() == 0 {
        None
    } else {
        Some(string_of_chars(&trimmed))
    };
    let footer = to_chars("BREAKING CHANGE");
    let has_footer = trimmed.len() > 0 && contains_chars(&trimmed, &footer);
    let breaking = sp.breaking || has_footer;
    Ok(ConventionalCommit { commit_type, scope, breaking, description, body })
}

/// The commits that the messages parse to, skipping those that do not parse.
pub open spec fn parsed_commits(msgs: Seq<Seq<char>>) -> Seq<CommitView>
    decreases msgs.len(),
{
    if msgs.len() == 0 {
        seq![]
    } else {
        let front = parsed_commits(msgs.drop_last());
        match parse_spec(msgs.last()) {
            Ok(c) => front.push(c),
            Err(_) => front,
        }
    }
}

/// Parses every message, keeping the ones that are Conventional Commits, in
/// the order they come in.
pub fn parse_messages(messages: &[String]) -> (r: Vec<ConventionalCommit>)
    ensures
        commit_views(r@) == parsed_commits(messages@.map_values(|m: String| m@)),
{
    let ghost ms = messages@.map_values(|m: String| m@);
    let mut out: Vec<ConventionalCommit> = Vec::new();
    let mut i: usize = 0;
    while i < messages.len()
        invariant
            i <= messages@.len(),
            ms == messages@.map_values(|m: String| m@),
            commit_views(out@) == parsed_commits(ms.take(i as int)),
        decreases messages.len() - i,
    {
        let r = parse(messages[i].as_str());
        proof {
            assert(ms.take(i + 1).drop_last() =~= ms.take(i as int));
            assert(ms.take(i + 1).last() == messages@[i as int]@);
        }
        match r {
            Ok(c) => {
                out.push(c);
                assert(commit_views(out@) =~= parsed_commits(ms.take(i as int)).push(c@));
            },
            Err(_) => {},
        }
        i = i + 1;
    }
    assert(ms.take(messages@.len() as int) =~= ms);
    out
}


// ---------------------------------------------------------------------------
// Laws
// ---------------------------------------------------------------------------

/// A commit is breaking when its subject carries `!` after the type/scope, and
/// also when its body carries a `BREAKING CHANGE` footer even without the `!`;
/// the two are checked independently, and nothing else makes it breaking.
pub proof fn law_breaking_either_way(msg: Seq<char>)
    ensures
        parse_spec(msg) matches Ok(c) ==> (c.breaking <==> (subject_parts(subject_line(msg))->0.breaking
            || has_breaking_footer(c.body))),
{
}

/// Formatting the pieces of a subject line and parsing the result gives the
/// pieces back, with no body: what `parse` reads is what the grammar writes.
/// (The subject must not start or end with whitespace, which the parser
/// trims, and a scope must not hold a line feed, which would end the line.)
pub proof fn law_parse_undoes_subject_formatting(p: SubjectParts)
    requires
        parts_well_formed(p),
        p.scope matches Some(sc) ==> !sc.contains('\n'),
        trim(assemble_subject(p)) == assemble_subject(p),
    ensures
        parse_spec(assemble_subject(p)) == Ok::<CommitView, ParseFailure>(
            CommitView {
                commit_type: p.commit_type,
                scope: p.scope,
                breaking: p.breaking,
                description: p.description,
                body: None,
            },
        ),
{
    let s = assemble_subject(p);
    lemma_assembled_without_line_feed(p);
    lemma_subject_parts_of_assembled(p);
    assert(s.len() > 0);
    assert forall|k: int| 0 <= k < s.len() implies s[k] != '\n' by {
        if s[k] == '\n' {
            assert(s.contains('\n'));
        }
    }
    lemma_index_of_char(s, '\n', s.len() as int);
    assert(lines(s) == seq![s]);
    assert(first_line(s) == s);
    assert(rest_lines(s) =~= Seq::<Seq<char>>::empty());
    let e = Seq::<char>::empty();
    assert(join(rest_lines(s), seq!['\n']) == e);
    assert(trim(e) =~= e);
    assert(body_of(s) == None::<Seq<char>>);
}


/// A commit is breaking exactly when its subject carries `!` after the
/// type/scope or the text `BREAKING CHANGE` occurs anywhere after the subject
/// line, in any paragraph of the body.
pub proof fn law_footer_anywhere_in_the_body_marks_breaking(msg: Seq<char>)
    ensures
        parse_spec(msg) matches Ok(c) ==> (c.breaking <==> (subject_parts(subject_line(msg))->0.breaking
            || contains_seq(join(rest_lines(msg), seq!['\n']), "BREAKING CHANGE"@))),
{
    reveal_strlit("BREAKING CHANGE");
    let n = "BREAKING CHANGE"@;
    let j = join(rest_lines(msg), seq!['\n']);
    assert(n[0] == 'B');
    assert(n.last() == 'E');
    lemma_contains_after_trim(j, n);
    if trim(j).len() == 0 {
        assert(!contains_seq(trim(j), n));
    }
}

} // verus!
