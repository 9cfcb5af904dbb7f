//! The Conventional Commits subject-line grammar, `type(scope)!: description`:
//! a type of ASCII letters, an optional non-empty parenthesised scope holding
//! no `)`, an optional `!`, then `": "` and a non-empty description holding no
//! line feed.
use vstd::prelude::*;

verus! {

/// The pieces a subject line is made of.
pub struct SubjectParts {
    pub commit_type: Seq<char>,
    pub scope: Option<Seq<char>>,
    pub breaking: bool,
    pub description: Seq<char>,
}

pub open spec fn is_ascii_letter(c: char) -> bool {
    ('a' <= c && c <= 'z') || ('A' <= c && c <= 'Z')
}

/// `(scope)`, or nothing.
pub open spec fn scope_text(scope: Option<Seq<char>>) -> Seq<char> {
    match scope {
        Some(sc) => seq!['('] + sc + seq![')'],
        None => seq![],
    }
}

/// `!`, or nothing.
pub open spec fn bang_text(breaking: bool) -> Seq<char> {
    if breaking {
        seq!['!']
    } else {
        seq![]
    }
}

/// The subject line spelled by `p`.
pub open spec fn assemble_subject(p: SubjectParts) -> Seq<char> {
    p.commit_type + scope_text(p.scope) + bang_text(p.breaking) + seq![':', ' '] + p.description
}

/// The constraints the grammar puts on each piece.
pub open spec fn parts_well_formed(p: SubjectParts) -> bool {
    &&& p.commit_type.len() > 0
    &&& forall|i: int| 0 <= i < p.commit_type.len() ==> is_ascii_letter(#[trigger] p.commit_type[i])
    &&& (p.scope matches Some(sc) ==> {
        &&& sc.len() > 0
        &&& forall|i: int| 0 <= i < sc.len() ==> #[trigger] sc[i] != ')'
    })
    &&& p.description.len() > 0
    &&& forall|i: int| 0 <= i < p.description.len() ==> #[trigger] p.description[i] != '\n'
}

/// `s` is the subject line made of the pieces `p`.
pub open spec fn subject_matches(s: Seq<char>, p: SubjectParts) -> bool {
    parts_well_formed(p) && assemble_subject(p) == s
}

/// The pieces of `s`, when `s` is a subject line of the grammar.
pub open spec fn subject_parts(s: Seq<char>) -> Option<SubjectParts> {
    if exists|p: SubjectParts| subject_matches(s, p) {
        Some(choose|p: SubjectParts| subject_matches(s, p))
    } else {
        None
    }
}

/// Where each piece of a subject line lies in it.
pub struct SubjectSplit {
    pub type_end: usize,
    pub scope: Option<(usize, usize)>,
    pub breaking: bool,
    pub desc_start: usize,
}

/// The pieces of `s` that the positions `sp` delimit.
pub open spec fn split_parts(s: Seq<char>, sp: SubjectSplit) -> SubjectParts {
    SubjectParts {
        commit_type: s.subrange(0, sp.type_end as int),
        scope: match sp.scope {
            Some((a, b)) => Some(s.subrange(a as int, b as int)),
            None => None,
        },
        breaking: sp.breaking,
        description: s.subrange(sp.desc_start as int, s.len() as int),
    }
}

/// The positions in `sp` lie inside `s`, in order.
pub open spec fn split_in_bounds(s: Seq<char>, sp: SubjectSplit) -> bool {
    &&& sp.type_end <= sp.desc_start <= s.len()
    &&& (sp.scope matches Some((a, b)) ==> sp.type_end < a <= b < sp.desc_start)
}

/// What a match forces on each position of `s`.
proof fn lemma_match_structure(s: Seq<char>, p: SubjectParts)
    requires
        subject_matches(s, p),
    ensures
        ({
            let t = p.commit_type.len() as int;
            let st = scope_text(p.scope).len() as int;
            let b = bang_text(p.breaking).len() as int;
            let d = t + st + b + 2;
            &&& s.len() == d + p.description.len()
            &&& forall|k: int| 0 <= k < t ==> #[trigger] s[k] == p.commit_type[k]
            &&& forall|k: int| 0 <= k < p.description.len() ==> #[trigger] s[d + k] == p.description[k]
            &&& (p.scope matches Some(sc) ==> {
                &&& s[t] == '('
                &&& forall|k: int| 0 <= k < sc.len() ==> #[trigger] s[t + 1 + k] == sc[k]
                &&& s[t + 1 + sc.len()] == ')'
                &&& st == sc.len() + 2
            })
            &&& (p.scope is None ==> st == 0)
            &&& (p.breaking ==> b == 1 && s[t + st] == '!')
            &&& (!p.breaking ==> b == 0)
            &&& s[t + st + b] == ':'
            &&& s[t + st + b + 1] == ' '
        }),
{
    let t = p.commit_type.len() as int;
    let x1 = p.commit_type + scope_text(p.scope);
    let x2 = x1 + bang_text(p.breaking);
    let x3 = x2 + seq![':', ' '];
    assert(s == x3 + p.description);
    assert forall|k: int| 0 <= k < t implies #[trigger] s[k] == p.commit_type[k] by {
        assert(s[k] == x3[k]);
        assert(x3[k] == x2[k]);
        assert(x2[k] == x1[k]);
    }
    if let Some(sc) = p.scope {
        assert(scope_text(p.scope) =~= seq!['('] + sc + seq![')']);
        assert(s[t] == x1[t]);
        assert forall|k: int| 0 <= k < sc.len() implies #[trigger] s[t + 1 + k] == sc[k] by {
            assert(s[t + 1 + k] == x1[t + 1 + k]);
            assert(x1[t + 1 + k] == scope_text(p.scope)[1 + k]);
        }
        assert(s[t + 1 + sc.len()] == x1[t + 1 + sc.len()]);
    }
    let st = scope_text(p.scope).len() as int;
    if p.breaking {
        assert(s[t + st] == x2[t + st]);
    }
}

/// A match's type is the longest run of ASCII letters at the front.
proof fn lemma_type_len(s: Seq<char>, n: int, p: SubjectParts)
    requires
        subject_matches(s, p),
        0 <= n <= s.len(),
        forall|k: int| 0 <= k < n ==> is_ascii_letter(#[trigger] s[k]),
        n == s.len() || !is_ascii_letter(s[n]),
    ensures
        p.commit_type.len() == n,
{
    lemma_match_structure(s, p);
    let t = p.commit_type.len() as int;
    assert(is_ascii_letter(p.commit_type[0]));
    if t < n {
        assert(is_ascii_letter(s[t]));
    } else if t > n {
        assert(s[n] == p.commit_type[n]);
    }
}

/// When `(` follows the type, a match's scope runs up to the first `)`.
proof fn lemma_scope_present(s: Seq<char>, n: int, close: int, p: SubjectParts)
    requires
        subject_matches(s, p),
        p.commit_type.len() == n,
        n < s.len(),
        s[n] == '(',
        n + 1 <= close <= s.len(),
        forall|k: int| n + 1 <= k < close ==> #[trigger] s[k] != ')',
        close < s.len() ==> s[close] == ')',
    ensures
        p.scope matches Some(sc) && n + 1 + sc.len() == close,
{
    lemma_match_structure(s, p);
    if let Some(sc) = p.scope {
        let c = n + 1 + sc.len();
        if c < close {
            assert(s[c] == ')');
        } else if c > close {
            assert(s[n + 1 + (close - n - 1)] == sc[close - n - 1]);
        }
    } else {
        let b = bang_text(p.breaking).len() as int;
        assert(s[n + b] == '!' || s[n + b] == ':');
    }
}

/// When no `(` follows the type, a match has no scope.
proof fn lemma_scope_absent(s: Seq<char>, n: int, p: SubjectParts)
    requires
        subject_matches(s, p),
        p.commit_type.len() == n,
        !(n < s.len() && s[n] == '('),
    ensures
        p.scope is None,
{
    lemma_match_structure(s, p);
}

/// A match has `!` exactly when `!` follows the type and scope.
proof fn lemma_bang(s: Seq<char>, pos: int, p: SubjectParts)
    requires
        subject_matches(s, p),
        p.commit_type.len() + scope_text(p.scope).len() == pos,
    ensures
        p.breaking == (pos < s.len() && s[pos] == '!'),
{
    lemma_match_structure(s, p);
}

/// After the type, scope and `!`, a match has `": "` and a non-empty
/// description without line feeds.
proof fn lemma_tail(s: Seq<char>, pos: int, p: SubjectParts)
    requires
        subject_matches(s, p),
        p.commit_type.len() + scope_text(p.scope).len() + bang_text(p.breaking).len() == pos,
    ensures
        pos + 2 < s.len(),
        s[pos] == ':',
        s[pos + 1] == ' ',
        forall|k: int| pos + 2 <= k < s.len() ==> #[trigger] s[k] != '\n',
{
    lemma_match_structure(s, p);
    assert forall|k: int| pos + 2 <= k < s.len() implies #[trigger] s[k] != '\n' by {
        assert(s[pos + 2 + (k - pos - 2)] == p.description[k - pos - 2]);
    }
}

/// Positions that delimit the pieces of the grammar give a match.
proof fn lemma_split_matches(s: Seq<char>, sp: SubjectSplit)
    requires
        split_in_bounds(s, sp),
        sp.type_end > 0,
        forall|k: int| 0 <= k < sp.type_end ==> is_ascii_letter(#[trigger] s[k]),
        sp.scope matches Some((a, b)) ==> {
            &&& a == sp.type_end + 1
            &&& s[sp.type_end as int] == '('
            &&& a < b
            &&& s[b as int] == ')'
            &&& forall|k: int| a <= k < b ==> #[trigger] s[k] != ')'
        },
        ({
            let pos = match sp.scope {
                Some((a, b)) => b + 1,
                None => sp.type_end as int,
            };
            let q = if sp.breaking { pos + 1 } else { pos };
            &&& sp.breaking ==> s[pos] == '!'
            &&& q + 2 == sp.desc_start
            &&& s[q] == ':'
            &&& s[q + 1] == ' '
        }),
        sp.desc_start < s.len(),
        forall|k: int| sp.desc_start <= k < s.len() ==> #[trigger] s[k] != '\n',
    ensures
        subject_matches(s, split_parts(s, sp)),
{
    let p = split_parts(s, sp);
    let n = sp.type_end as int;
    let d = sp.desc_start as int;
    assert forall|i: int| 0 <= i < p.commit_type.len() implies is_ascii_letter(#[trigger] p.commit_type[i]) by {
        assert(p.commit_type[i] == s[i]);
    }
    let pos = match sp.scope {
        Some((a, b)) => b + 1,
        None => n,
    };
    if let Some((a, b)) = sp.scope {
        let sc = s.subrange(a as int, b as int);
        assert forall|i: int| 0 <= i < sc.len() implies #[trigger] sc[i] != ')' by {
            assert(sc[i] == s[a + i]);
        }
        assert(s.subrange(n, pos) =~= scope_text(p.scope));
    }
    assert(s.subrange(0, pos) =~= p.commit_type + scope_text(p.scope));
    let q = if sp.breaking { pos + 1 } else { pos };
    assert(s.subrange(0, q) =~= p.commit_type + scope_text(p.scope) + bang_text(p.breaking));
    assert(s.subrange(0, d) =~= p.commit_type + scope_text(p.scope) + bang_text(p.breaking) + seq![':', ' ']);
    assert forall|i: int| 0 <= i < p.description.len() implies #[trigger] p.description[i] != '\n' by {
        assert(p.description[i] == s[d + i]);
    }
    assert(s =~= s.subrange(0, d) + p.description);
}

fn is_ascii_letter_exec(c: char) -> (r: bool)
    ensures
        r == is_ascii_letter(c),
{
    ('a' <= c && c <= 'z') || ('A' <= c && c <= 'Z')
}

/// Finds the pieces of a subject line, or reports that `s` is no subject line
/// of the grammar.
pub fn match_subject(s: &Vec<char>) -> (r: Option<SubjectSplit>)
    ensures
        r matches Some(sp) ==> split_in_bounds(s@, sp) && subject_matches(s@, split_parts(s@, sp)),
        r is None ==> forall|p: SubjectParts| !subject_matches(s@, p),
{
    let len = s.len();
    // The type: the longest run of ASCII letters at the front.
    let mut n: usize = 0;
    while n < len && is_ascii_letter_exec(s[n])
        invariant
            len == s@.len(),
            n <= len,
            forall|k: int| 0 <= k < n ==> is_ascii_letter(#[trigger] s@[k]),
        decreases len - n,
    {
        n = n + 1;
    }
    assert forall|p: SubjectParts| subject_matches(s@, p) implies p.commit_type.len() == n by {
        lemma_type_len(s@, n as int, p);
    }
    if n == 0 {
        return None;
    }
    let mut pos: usize = n;
    let mut scope: Option<(usize, usize)> = None;
    if pos < len && s[pos] == '(' {
        let close = crate::text::find_char(s, pos + 1, ')');
        assert forall|p: SubjectParts| subject_matches(s@, p) implies (p.scope matches Some(sc)
            && n + 1 + sc.len() == close) by {
            lemma_scope_present(s@, n as int, close as int, p);
        }
        if close == len || close == pos + 1 {
            return None;
        }
        scope = Some((pos + 1, close));
        pos = close + 1;
    } else {
        assert forall|p: SubjectParts| subject_matches(s@, p) implies p.scope is None by {
            lemma_scope_absent(s@, n as int, p);
        }
    }
    let ghost scope_end = pos;
    assert forall|p: SubjectParts| subject_matches(s@, p) implies p.commit_type.len()
        + scope_text(p.scope).len() == scope_end by {
        if let Some(sc) = p.scope {
            assert(scope_text(p.scope) =~= seq!['('] + sc + seq![')']);
        }
    }
    let breaking = pos < len && s[pos] == '!';
    assert forall|p: SubjectParts| subject_matches(s@, p) implies p.breaking == breaking by {
        lemma_bang(s@, scope_end as int, p);
    }
    if breaking {
        pos = pos + 1;
    }
    assert forall|p: SubjectParts| subject_matches(s@, p) implies p.commit_type.len()
        + scope_text(p.scope).len() + bang_text(p.breaking).len() == pos by {}
    if !(pos < len && len - pos > 2 && s[pos] == ':' && s[pos + 1] == ' ') {
        assert forall|p: SubjectParts| !subject_matches(s@, p) by {
            if subject_matches(s@, p) {
                lemma_tail(s@, pos as int, p);
            }
        }
        return None;
    }
    let d = pos + 2;
    let nl = crate::text::find_char(s, d, '\n');
    if nl < len {
        assert forall|p: SubjectParts| !subject_matches(s@, p) by {
            if subject_matches(s@, p) {
                lemma_tail(s@, pos as int, p);
            }
        }
        return None;
    }
    let sp = SubjectSplit { type_end: n, scope, breaking, desc_start: d };
    proof {
        lemma_split_matches(s@, sp);
    }
    Some(sp)
}

/// The grammar is unambiguous: a subject line is made of its pieces in one
/// way only.
pub proof fn law_subject_grammar_unambiguous(s: Seq<char>, p1: SubjectParts, p2: SubjectParts)
    requires
        subject_matches(s, p1),
        subject_matches(s, p2),
    ensures
        p1 == p2,
{
    lemma_match_structure(s, p1);
    lemma_match_structure(s, p2);
    let t1 = p1.commit_type.len() as int;
    let t2 = p2.commit_type.len() as int;
    assert(is_ascii_letter(p1.commit_type[0]));
    if t1 < t2 {
        assert(s[t1] == p2.commit_type[t1]);
    } else if t2 < t1 {
        assert(s[t2] == p1.commit_type[t2]);
    }
    assert forall|k: int| 0 <= k < t1 implies p1.commit_type[k] == p2.commit_type[k] by {
        assert(s[k] == p1.commit_type[k]);
    }
    assert(p1.commit_type =~= p2.commit_type);
    match (p1.scope, p2.scope) {
        (Some(a), Some(b)) => {
            if a.len() < b.len() {
                assert(s[t1 + 1 + a.len()] == b[a.len() as int]);
            } else if b.len() < a.len() {
                assert(s[t1 + 1 + b.len()] == a[b.len() as int]);
            }
            assert forall|k: int| 0 <= k < a.len() implies a[k] == b[k] by {
                assert(s[t1 + 1 + k] == a[k]);
            }
            assert(a =~= b);
        },
        (Some(a), None) => {
            assert(s[t1] == '(');
        },
        (None, Some(b)) => {
            assert(s[t1] == '(');
        },
        (None, None) => {},
    }
    assert(p1.breaking == p2.breaking);
    let d = t1 + scope_text(p1.scope).len() + bang_text(p1.breaking).len() + 2;
    assert forall|k: int| 0 <= k < p1.description.len() implies p1.description[k] == p2.description[k] by {
        assert(s[d + k] == p1.description[k]);
    }
    assert(p1.description =~= p2.description);
}


/// A subject line assembled from pieces holds a line feed only where its
/// scope does.
pub proof fn lemma_assembled_without_line_feed(p: SubjectParts)
    requires
        parts_well_formed(p),
        p.scope matches Some(sc) ==> !sc.contains('\n'),
    ensures
        !assemble_subject(p).contains('\n'),
{
    let s = assemble_subject(p);
    lemma_match_structure(s, p);
    let t = p.commit_type.len() as int;
    let st = scope_text(p.scope).len() as int;
    let b = bang_text(p.breaking).len() as int;
    let d = t + st + b + 2;
    assert forall|k: int| 0 <= k < s.len() implies s[k] != '\n' by {
        if k < t {
            assert(is_ascii_letter(p.commit_type[k]));
        } else if k < t + st {
            if let Some(sc) = p.scope {
                if t < k < t + 1 + sc.len() {
                    assert(s[t + 1 + (k - t - 1)] == sc[k - t - 1]);
                }
            }
        } else if k >= d {
            assert(s[d + (k - d)] == p.description[k - d]);
        }
    }
}

/// Pieces that make up a subject line are the pieces the grammar assigns to it.
pub proof fn lemma_subject_parts_of_assembled(p: SubjectParts)
    requires
        parts_well_formed(p),
    ensures
        subject_parts(assemble_subject(p)) == Some(p),
{
    let s = assemble_subject(p);
    assert(subject_matches(s, p));
    let q = choose|q: SubjectParts| subject_matches(s, q);
    law_subject_grammar_unambiguous(s, q, p);
}

} // verus!
