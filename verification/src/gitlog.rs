//! Turning `git log` output into commit messages. Running git is the
//! caller's business; this module decides the arguments and splits the output.
//!
//! Messages are separated by `\x1e` (ASCII record separator) rather than a
//! blank line: a commit body can itself hold blank lines, which would
//! otherwise split one message into several.
use vstd::prelude::*;
use vstd::string::*;
use vstd::utf8::{decode_utf8, valid_utf8};

use crate::text::{
    find_char, index_of_char, join, lemma_index_of_char, lemma_index_of_char_prefix,
    lemma_trim_idempotent, lemma_trim_keeps_absent, lemma_trim_padded, lemma_trim_start_skip, trim_end, trim_start,
    string_of_range, to_chars, trim, trim_bounds, white_space,
};

verus! {

/// The record separator `git log` is asked to put after each message.
pub const RECORD_SEPARATOR: char = '\u{1e}';

/// The pieces of `s` between occurrences of `sep`, as `str::split` yields them.
pub open spec fn split_on(s: Seq<char>, sep: char) -> Seq<Seq<char>>
    decreases s.len(),
{
    let i = index_of_char(s, sep);
    if i < s.len() {
        seq![s.take(i as int)] + split_on(s.skip(i as int + 1), sep)
    } else {
        seq![s]
    }
}

/// The trimmed pieces that are not empty once trimmed.
pub open spec fn kept_messages(pieces: Seq<Seq<char>>) -> Seq<Seq<char>>
    decreases pieces.len(),
{
    if pieces.len() == 0 {
        seq![]
    } else {
        let t = trim(pieces[0]);
        let rest = kept_messages(pieces.drop_first());
        if t.len() > 0 {
            seq![t] + rest
        } else {
            rest
        }
    }
}

/// The commit messages in `git log` output: the pieces between record
/// separators, trimmed, leaving out the empty ones.
pub open spec fn log_messages(text: Seq<char>) -> Seq<Seq<char>> {
    kept_messages(split_on(text, RECORD_SEPARATOR))
}

pub open spec fn string_views(v: Seq<String>) -> Seq<Seq<char>> {
    v.map_values(|s: String| s@)
}

/// Splits `git log --pretty=format:%B\x1e` output into full commit messages
/// (subject and body), trimmed, in the order they appear, leaving out empty
/// ones.
pub fn split_log_output(text: &str) -> (r: Vec<String>)
    ensures
        string_views(r@) == log_messages(text@),
{
    let chars = to_chars(text);
    let len = chars.len();
    let ghost s = chars@;
    let mut out: Vec<String> = Vec::new();
    let mut pos: usize = 0;
    assert(s.skip(0) =~= s);
    assert(string_views(out@) =~= Seq::<Seq<char>>::empty());
    loop
        invariant_except_break
            pos <= len,
            len == s.len(),
            s == chars@,
            string_views(out@) + kept_messages(split_on(s.skip(pos as int), RECORD_SEPARATOR))
                == log_messages(s),
        ensures
            string_views(out@) == log_messages(s),
        decreases len - pos,
    {
        let j = find_char(&chars, pos, RECORD_SEPARATOR);
        let (a, b) = trim_bounds(&chars, pos, j);
        let ghost rest = s.skip(pos as int);
        let ghost piece = s.subrange(pos as int, j as int);
        let ghost before = string_views(out@);
        proof {
            assert(rest.take(j - pos) =~= piece);
            if j < len {
                assert(rest.skip(j - pos + 1) =~= s.skip(j + 1));
                assert(split_on(rest, RECORD_SEPARATOR) == seq![piece] + split_on(
                    s.skip(j + 1),
                    RECORD_SEPARATOR,
                ));
            } else {
                assert(rest =~= piece);
                assert(split_on(rest, RECORD_SEPARATOR) == seq![piece]);
            }
            let sp = split_on(rest, RECORD_SEPARATOR);
            assert(sp[0] == piece);
        }
        if a < b {
            let m = string_of_range(&chars, a, b);
            out.push(m);
            assert(string_views(out@) =~= before.push(m@));
        }
        proof {
            let sp = split_on(rest, RECORD_SEPARATOR);
            if j < len {
                assert(sp.drop_first() =~= split_on(s.skip(j + 1), RECORD_SEPARATOR));
            } else {
                assert(sp.drop_first() =~= Seq::<Seq<char>>::empty());
                assert(kept_messages(sp.drop_first()) =~= Seq::<Seq<char>>::empty());
            }
        }
        if j < len {
            pos = j + 1;
        } else {
            break;
        }
    }
    out
}

/// The text `String::from_utf8_lossy` makes of `bytes`.
pub uninterp spec fn lossy_utf8(bytes: Seq<u8>) -> Seq<char>;

/// Calls `String::from_utf8_lossy`. The contract claims that the text is a
/// function of the bytes (named `lossy_utf8`) and, as the documentation says,
/// that valid UTF-8 is decoded as is; how invalid sequences are replaced is
/// not restated here.
#[verifier::external_body]
fn decode_lossy(bytes: &[u8]) -> (r: String)
    ensures
        r@ == lossy_utf8(bytes@),
        valid_utf8(bytes@) ==> r@ == decode_utf8(bytes@),
{
    String::from_utf8_lossy(bytes).into_owned()
}

/// The commit messages in the raw standard output of
/// `git log --pretty=format:%B\x1e`.
pub fn messages_from_log_output(stdout: &[u8]) -> (r: Vec<String>)
    ensures
        string_views(r@) == log_messages(lossy_utf8(stdout@)),
        valid_utf8(stdout@) ==> string_views(r@) == log_messages(decode_utf8(stdout@)),
{
    let text = decode_lossy(stdout);
    split_log_output(text.as_str())
}

/// The arguments of the `git log` call that lists full messages for `range`
/// (any revision range; `None` means the whole history), oldest first.
pub fn git_log_args(range: Option<&str>) -> (r: Vec<String>)
    ensures
        string_views(r@) == seq!["log"@, "--reverse"@, "--pretty=format:%B\u{1e}"@] + match range {
            Some(x) => seq![x@],
            None => Seq::<Seq<char>>::empty(),
        },
{
    let mut args: Vec<String> = Vec::new();
    args.push(String::from_str("log"));
    args.push(String::from_str("--reverse"));
    args.push(String::from_str("--pretty=format:%B\u{1e}"));
    if let Some(x) = range {
        args.push(String::from_str(x));
    }
    let ghost expected = seq!["log"@, "--reverse"@, "--pretty=format:%B\u{1e}"@] + match range {
        Some(x) => seq![x@],
        None => Seq::<Seq<char>>::empty(),
    };
    assert(string_views(args@) =~= expected);
    args
}


// ---------------------------------------------------------------------------
// Laws
// ---------------------------------------------------------------------------

/// Joining splits at the front as well: the first part, the separator, then
/// the others joined.
proof fn lemma_join_front(parts: Seq<Seq<char>>, sep: Seq<char>)
    requires
        parts.len() >= 2,
    ensures
        join(parts, sep) == parts[0] + sep + join(parts.drop_first(), sep),
    decreases parts.len(),
{
    if parts.len() == 2 {
        assert(join(parts.drop_last(), sep) == parts.drop_last()[0]);
        assert(join(parts.drop_first(), sep) == parts.drop_first()[0]);
    } else {
        lemma_join_front(parts.drop_last(), sep);
        assert(parts.drop_last().drop_first() =~= parts.drop_first().drop_last());
        assert(parts.drop_first().last() == parts.last());
        assert(parts.drop_last()[0] == parts[0]);
        let a = parts[0];
        let m = join(parts.drop_first().drop_last(), sep);
        assert(join(parts, sep) == join(parts.drop_last(), sep) + sep + parts.last());
        assert(join(parts.drop_first(), sep) == m + sep + parts.last());
        assert(a + sep + m + sep + parts.last() =~= a + sep + (m + sep + parts.last()));
    }
}

/// Text without a separator is one piece.
proof fn lemma_split_plain(a: Seq<char>, sep: char)
    requires
        !a.contains(sep),
    ensures
        split_on(a, sep) == seq![a],
{
    lemma_index_of_char(a, sep, a.len() as int);
}

/// A separator-free piece followed by the separator splits off first.
proof fn lemma_split_concat(a: Seq<char>, b: Seq<char>, sep: char)
    requires
        !a.contains(sep),
    ensures
        split_on(a + seq![sep] + b, sep) == seq![a] + split_on(b, sep),
{
    let s = a + seq![sep] + b;
    assert forall|k: int| 0 <= k < a.len() implies s[k] != sep by {
        assert(s[k] == a[k]);
    }
    lemma_index_of_char(s, sep, a.len() as int);
    assert(s.take(a.len() as int) =~= a);
    assert(s.skip(a.len() as int + 1) =~= b);
}

/// Joining separator-free parts and splitting again gives the parts back.
proof fn lemma_split_join(parts: Seq<Seq<char>>, sep: char)
    requires
        parts.len() > 0,
        forall|i: int| 0 <= i < parts.len() ==> !(#[trigger] parts[i]).contains(sep),
    ensures
        split_on(join(parts, seq![sep]), sep) == parts,
    decreases parts.len(),
{
    if parts.len() == 1 {
        lemma_split_plain(parts[0], sep);
        assert(seq![parts[0]] =~= parts);
    } else {
        lemma_join_front(parts, seq![sep]);
        assert forall|i: int| 0 <= i < parts.drop_first().len() implies !(#[trigger] parts.drop_first()[i]).contains(sep) by {
            assert(parts.drop_first()[i] == parts[i + 1]);
        }
        lemma_split_join(parts.drop_first(), sep);
        lemma_split_concat(parts[0], join(parts.drop_first(), seq![sep]), sep);
        assert(seq![parts[0]] + parts.drop_first() =~= parts);
    }
}

/// Messages that are already trimmed and non-empty are all kept.
proof fn lemma_kept_all(ms: Seq<Seq<char>>)
    requires
        forall|i: int| 0 <= i < ms.len() ==> (#[trigger] ms[i]).len() > 0 && trim(ms[i]) == ms[i],
    ensures
        kept_messages(ms) == ms,
    decreases ms.len(),
{
    if ms.len() > 0 {
        assert forall|i: int| 0 <= i < ms.drop_first().len() implies (#[trigger] ms.drop_first()[i]).len() > 0
            && trim(ms.drop_first()[i]) == ms.drop_first()[i] by {
            assert(ms.drop_first()[i] == ms[i + 1]);
        }
        lemma_kept_all(ms.drop_first());
        assert(ms[0].len() > 0);
        assert(seq![ms[0]] + ms.drop_first() =~= ms);
    }
}

/// Splitting the log output gives back each message whole, blank lines and
/// all: whatever the messages hold besides the record separator (each one
/// non-empty and without surrounding whitespace, as `git log` output is read
/// back trimmed), the messages joined by record separators split into exactly
/// those messages.
pub proof fn law_log_output_round_trip(msgs: Seq<Seq<char>>)
    requires
        forall|i: int| 0 <= i < msgs.len() ==> {
            &&& (#[trigger] msgs[i]).len() > 0
            &&& trim(msgs[i]) == msgs[i]
            &&& !msgs[i].contains(RECORD_SEPARATOR)
        },
    ensures
        log_messages(join(msgs, seq![RECORD_SEPARATOR])) == msgs,
{
    if msgs.len() == 0 {
        let e = Seq::<char>::empty();
        lemma_split_plain(e, RECORD_SEPARATOR);
        assert(trim(e) =~= e);
        let one = seq![e];
        assert(one[0] == e);
        assert(one.drop_first() =~= Seq::<Seq<char>>::empty());
        assert(kept_messages(one.drop_first()) == Seq::<Seq<char>>::empty());
        assert(kept_messages(one) =~= Seq::<Seq<char>>::empty());
    } else {
        lemma_split_join(msgs, RECORD_SEPARATOR);
        lemma_kept_all(msgs);
    }
}

/// Every message that comes back is non-empty and already trimmed.
pub proof fn law_log_messages_nonempty_and_trimmed(text: Seq<char>)
    ensures
        forall|i: int| 0 <= i < log_messages(text).len() ==> {
            &&& (#[trigger] log_messages(text)[i]).len() > 0
            &&& trim(log_messages(text)[i]) == log_messages(text)[i]
        },
{
    lemma_kept_nonempty_trimmed(split_on(text, RECORD_SEPARATOR));
}

proof fn lemma_kept_nonempty_trimmed(pieces: Seq<Seq<char>>)
    ensures
        forall|i: int| 0 <= i < kept_messages(pieces).len() ==> {
            &&& (#[trigger] kept_messages(pieces)[i]).len() > 0
            &&& trim(kept_messages(pieces)[i]) == kept_messages(pieces)[i]
        },
    decreases pieces.len(),
{
    if pieces.len() > 0 {
        lemma_kept_nonempty_trimmed(pieces.drop_first());
        let rest = kept_messages(pieces.drop_first());
        let t = trim(pieces[0]);
        lemma_trim_idempotent(pieces[0]);
        if t.len() > 0 {
            assert forall|i: int| 0 <= i < kept_messages(pieces).len() implies {
                &&& (#[trigger] kept_messages(pieces)[i]).len() > 0
                &&& trim(kept_messages(pieces)[i]) == kept_messages(pieces)[i]
            } by {
                if i > 0 {
                    assert(kept_messages(pieces)[i] == rest[i - 1]);
                } else {
                    assert(kept_messages(pieces)[0] == t);
                }
            }
        }
    }
}


/// No piece between separators holds the separator.
proof fn lemma_split_pieces_plain(s: Seq<char>, sep: char)
    ensures
        forall|i: int| 0 <= i < split_on(s, sep).len() ==> !(#[trigger] split_on(s, sep)[i]).contains(sep),
    decreases s.len(),
{
    let n = index_of_char(s, sep);
    lemma_index_of_char_prefix(s, sep);
    if n < s.len() {
        let rest = s.skip(n as int + 1);
        lemma_split_pieces_plain(rest, sep);
        let head = s.take(n as int);
        assert(!head.contains(sep)) by {
            assert forall|k: int| 0 <= k < head.len() implies head[k] != sep by {
                assert(head[k] == s[k]);
            }
        }
        assert forall|i: int| 0 <= i < split_on(s, sep).len() implies !(#[trigger] split_on(s, sep)[i]).contains(sep) by {
            if i > 0 {
                assert(split_on(s, sep)[i] == split_on(rest, sep)[i - 1]);
            }
        }
    } else {
        assert(!s.contains(sep)) by {
            assert forall|k: int| 0 <= k < s.len() implies s[k] != sep by {}
        }
    }
}

proof fn lemma_kept_plain(pieces: Seq<Seq<char>>, sep: char)
    requires
        forall|i: int| 0 <= i < pieces.len() ==> !(#[trigger] pieces[i]).contains(sep),
    ensures
        forall|i: int| 0 <= i < kept_messages(pieces).len() ==> !(#[trigger] kept_messages(pieces)[i]).contains(sep),
    decreases pieces.len(),
{
    if pieces.len() > 0 {
        assert forall|i: int| 0 <= i < pieces.drop_first().len() implies !(#[trigger] pieces.drop_first()[i]).contains(sep) by {
            assert(pieces.drop_first()[i] == pieces[i + 1]);
        }
        lemma_kept_plain(pieces.drop_first(), sep);
        lemma_trim_keeps_absent(pieces[0], sep);
        let rest = kept_messages(pieces.drop_first());
        if trim(pieces[0]).len() > 0 {
            assert forall|i: int| 0 <= i < kept_messages(pieces).len() implies !(#[trigger] kept_messages(pieces)[i]).contains(sep) by {
                if i > 0 {
                    assert(kept_messages(pieces)[i] == rest[i - 1]);
                }
            }
        }
    }
}

/// No message that comes back holds the record separator.
pub proof fn law_log_messages_hold_no_separator(text: Seq<char>)
    ensures
        forall|i: int| 0 <= i < log_messages(text).len() ==> !(#[trigger] log_messages(text)[i]).contains(RECORD_SEPARATOR),
{
    lemma_split_pieces_plain(text, RECORD_SEPARATOR);
    lemma_kept_plain(split_on(text, RECORD_SEPARATOR), RECORD_SEPARATOR);
}


/// Splitting and joining again with the separator gives the text back: the
/// pieces are the text itself, cut at each separator.
pub proof fn law_split_pieces_rejoin_to_the_text(s: Seq<char>, sep: char)
    ensures
        join(split_on(s, sep), seq![sep]) == s,
    decreases s.len(),
{
    let n = index_of_char(s, sep);
    lemma_index_of_char_prefix(s, sep);
    if n < s.len() {
        let rest = s.skip(n as int + 1);
        law_split_pieces_rejoin_to_the_text(rest, sep);
        let p = split_on(s, sep);
        let q = split_on(rest, sep);
        assert(p == seq![s.take(n as int)] + q);
        assert(q.len() > 0) by {
            let m = index_of_char(rest, sep);
            if m < rest.len() {
            } else {
            }
        }
        lemma_join_front(p, seq![sep]);
        assert(p.drop_first() =~= q);
        assert(s.take(n as int) + seq![sep] + rest =~= s);
    } else {
        assert(split_on(s, sep) == seq![s]);
    }
}

proof fn lemma_kept_is_filter(pieces: Seq<Seq<char>>)
    ensures
        kept_messages(pieces) == pieces.map_values(|p: Seq<char>| trim(p)).filter(|m: Seq<char>| m.len() > 0),
    decreases pieces.len(),
{
    let f = |m: Seq<char>| m.len() > 0;
    let tr = |p: Seq<char>| trim(p);
    if pieces.len() == 0 {
        reveal(Seq::filter);
        assert(pieces.map_values(tr) =~= Seq::<Seq<char>>::empty());
    } else {
        lemma_kept_is_filter(pieces.drop_first());
        let head = seq![trim(pieces[0])];
        let tail = pieces.drop_first().map_values(tr);
        assert(pieces.map_values(tr) =~= head + tail);
        Seq::filter_distributes_over_add(head, tail, f);
        reveal(Seq::filter);
        assert(head.drop_last() =~= Seq::<Seq<char>>::empty());
        if trim(pieces[0]).len() > 0 {
            assert(head.filter(f) =~= head);
        } else {
            assert(head.drop_last().filter(f) =~= Seq::<Seq<char>>::empty());
            assert(head.filter(f) =~= Seq::<Seq<char>>::empty());
            assert(head.filter(f) + tail.filter(f) =~= tail.filter(f));
        }
    }
}

/// The messages are the pieces between record separators, each trimmed and
/// otherwise unchanged, with the empty ones left out.
pub proof fn law_log_messages_are_the_trimmed_pieces(text: Seq<char>)
    ensures
        log_messages(text) == split_on(text, RECORD_SEPARATOR).map_values(|p: Seq<char>| trim(p)).filter(
            |m: Seq<char>| m.len() > 0,
        ),
{
    lemma_kept_is_filter(split_on(text, RECORD_SEPARATOR));
}

/// The separator `git log --pretty=format:%B\x1e` puts between two messages:
/// the record separator on its own line.
pub open spec fn git_message_separator() -> Seq<char> {
    seq!['\n', RECORD_SEPARATOR, '\n']
}

proof fn lemma_git_format_split(x: Seq<char>, msgs: Seq<Seq<char>>)
    requires
        forall|k: int| 0 <= k < x.len() ==> (#[trigger] x[k]) == '\n',
        forall|i: int| 0 <= i < msgs.len() ==> {
            &&& (#[trigger] msgs[i]).len() > 0
            &&& trim(msgs[i]) == msgs[i]
            &&& !msgs[i].contains(RECORD_SEPARATOR)
        },
    ensures
        kept_messages(split_on(x + join(msgs, git_message_separator()), RECORD_SEPARATOR)) == msgs,
    decreases msgs.len(),
{
    let e = Seq::<char>::empty();
    let sep = git_message_separator();
    assert forall|k: int| 0 <= k < x.len() implies white_space(#[trigger] x[k]) by {}
    if msgs.len() == 0 {
        assert(x + join(msgs, sep) =~= x);
        assert(!x.contains(RECORD_SEPARATOR));
        lemma_split_plain(x, RECORD_SEPARATOR);
        lemma_trim_start_skip(x, x.len() as int);
        assert(x.skip(x.len() as int) =~= e);
        assert(trim_start(e) == e);
        assert(trim_end(e) == e);
        assert(trim(x) == e);
        let one = seq![x];
        assert(one[0] == x);
        assert(one.drop_first() =~= Seq::<Seq<char>>::empty());
        assert(kept_messages(one.drop_first()) == Seq::<Seq<char>>::empty());
        assert(trim(one[0]).len() == 0);
        assert(kept_messages(one) == kept_messages(one.drop_first()));
        assert(kept_messages(one) =~= Seq::<Seq<char>>::empty());
    } else if msgs.len() == 1 {
        let m = msgs[0];
        assert(x + join(msgs, sep) =~= x + m + e);
        assert(!(x + m + e).contains(RECORD_SEPARATOR)) by {
            assert forall|k: int| 0 <= k < (x + m + e).len() implies (x + m + e)[k] != RECORD_SEPARATOR by {
                if k >= x.len() {
                    assert((x + m + e)[k] == m[k - x.len()]);
                    if m[k - x.len()] == RECORD_SEPARATOR {
                        assert(m.contains(RECORD_SEPARATOR));
                    }
                }
            }
        }
        lemma_split_plain(x + m + e, RECORD_SEPARATOR);
        lemma_trim_padded(x, m, e);
        let one = seq![x + m + e];
        assert(one[0] == x + m + e);
        assert(one.drop_first() =~= Seq::<Seq<char>>::empty());
        assert(kept_messages(one.drop_first()) == Seq::<Seq<char>>::empty());
        assert(trim(one[0]) == m);
        assert(kept_messages(one) == seq![m] + kept_messages(one.drop_first()));
        assert(kept_messages(one) =~= msgs);
    } else {
        let m = msgs[0];
        let rest = msgs.drop_first();
        lemma_join_front(msgs, sep);
        let nl = seq!['\n'];
        let a = x + m + nl;
        assert(x + join(msgs, sep) =~= a + seq![RECORD_SEPARATOR] + (nl + join(rest, sep)));
        assert(!a.contains(RECORD_SEPARATOR)) by {
            assert forall|k: int| 0 <= k < a.len() implies a[k] != RECORD_SEPARATOR by {
                if x.len() <= k < x.len() + m.len() {
                    assert(a[k] == m[k - x.len()]);
                    if m[k - x.len()] == RECORD_SEPARATOR {
                        assert(m.contains(RECORD_SEPARATOR));
                    }
                }
            }
        }
        lemma_split_concat(a, nl + join(rest, sep), RECORD_SEPARATOR);
        assert forall|i: int| 0 <= i < rest.len() implies {
            &&& (#[trigger] rest[i]).len() > 0
            &&& trim(rest[i]) == rest[i]
            &&& !rest[i].contains(RECORD_SEPARATOR)
        } by {
            assert(rest[i] == msgs[i + 1]);
        }
        lemma_git_format_split(nl, rest);
        assert forall|k: int| 0 <= k < nl.len() implies white_space(#[trigger] nl[k]) by {}
        lemma_trim_padded(x, m, nl);
        let pieces = seq![a] + split_on(nl + join(rest, sep), RECORD_SEPARATOR);
        assert(pieces[0] == a);
        assert(pieces.drop_first() =~= split_on(nl + join(rest, sep), RECORD_SEPARATOR));
        assert(seq![m] + rest =~= msgs);
    }
}

/// Messages as git prints them, each followed by the record separator on a
/// line of its own, split back into exactly those messages, bodies with blank
/// lines included (each message non-empty, without surrounding whitespace and
/// without the record separator).
pub proof fn law_git_formatted_log_round_trip(msgs: Seq<Seq<char>>)
    requires
        forall|i: int| 0 <= i < msgs.len() ==> {
            &&& (#[trigger] msgs[i]).len() > 0
            &&& trim(msgs[i]) == msgs[i]
            &&& !msgs[i].contains(RECORD_SEPARATOR)
        },
    ensures
        log_messages(join(msgs, git_message_separator())) == msgs,
{
    let e = Seq::<char>::empty();
    lemma_git_format_split(e, msgs);
    assert(e + join(msgs, git_message_separator()) =~= join(msgs, git_message_separator()));
}

} // verus!
