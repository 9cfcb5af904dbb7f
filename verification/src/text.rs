//! Character-level text handling shared by the parser, the linter, the
//! changelog renderer and the log splitter: whitespace trimming, line
//! splitting, joining, substring search and decimal rendering, each with a
//! specification over `Seq<char>`.
use vstd::prelude::*;
use vstd::string::*;

verus! {

/// Claims of `String::push` what its documentation says: the character is
/// appended to the end of the string.
pub assume_specification[ String::push ](s: &mut String, ch: char)
    ensures
        final(s)@ == old(s)@.push(ch),
;

/// Whether `c` has the Unicode `White_Space` property (Unicode's PropList.txt):
/// U+0009..=U+000D, U+0020, U+0085, U+00A0, U+1680, U+2000..=U+200A, U+2028,
/// U+2029, U+202F, U+205F and U+3000.
pub open spec fn white_space(c: char) -> bool {
    ||| ('\u{9}' <= c && c <= '\u{d}')
    ||| c == ' '
    ||| c == '\u{85}'
    ||| c == '\u{a0}'
    ||| c == '\u{1680}'
    ||| ('\u{2000}' <= c && c <= '\u{200a}')
    ||| c == '\u{2028}'
    ||| c == '\u{2029}'
    ||| c == '\u{202f}'
    ||| c == '\u{205f}'
    ||| c == '\u{3000}'
}

/// Whether a character outside ASCII has the Unicode `Uppercase` property, as
/// `char::is_uppercase` decides it.
pub uninterp spec fn unicode_uppercase(c: char) -> bool;

/// Whether `c` lies in a Unicode block that holds no character with the
/// `Uppercase` property: Latin-1 punctuation and symbols, General
/// Punctuation through Currency Symbols, the CJK radicals, symbols, kana,
/// Bopomofo and ideographs (U+2E80..=U+2FFF, U+3000..=U+9FFF), Hangul
/// syllables and jamo, CJK compatibility ideographs, the emoji and pictograph
/// blocks (U+1F300..=U+1FAFF), and the supplementary ideographic planes.
pub open spec fn in_caseless_block(c: char) -> bool {
    ||| ('\u{80}' <= c && c <= '\u{bf}')
    ||| ('\u{2000}' <= c && c <= '\u{20ff}')
    ||| ('\u{2e80}' <= c && c <= '\u{2fff}')
    ||| ('\u{3000}' <= c && c <= '\u{9fff}')
    ||| ('\u{ac00}' <= c && c <= '\u{d7ff}')
    ||| ('\u{f900}' <= c && c <= '\u{faff}')
    ||| ('\u{1f300}' <= c && c <= '\u{1faff}')
    ||| ('\u{20000}' <= c && c <= '\u{3ffff}')
}

/// Whether `c` has the Unicode `Uppercase` property: within ASCII exactly
/// `'A'..='Z'`; never in a caseless block; elsewhere as `char::is_uppercase`
/// decides.
pub open spec fn uppercase(c: char) -> bool {
    if c <= '\u{7f}' {
        'A' <= c && c <= 'Z'
    } else if in_caseless_block(c) {
        false
    } else {
        unicode_uppercase(c)
    }
}

/// Calls `char::is_whitespace`, which answers whether `c` has the Unicode
/// `White_Space` property; the contract states that set of characters
/// (`white_space`).
#[verifier::external_body]
pub(crate) fn is_whitespace(c: char) -> (r: bool)
    ensures
        r == white_space(c),
{
    c.is_whitespace()
}

/// Calls `char::is_uppercase`, which answers whether `c` has the Unicode
/// `Uppercase` property. The contract states the answer for ASCII, where
/// exactly `'A'..='Z'` are uppercase, and for the caseless blocks, where no
/// character is; elsewhere it names the answer (`unicode_uppercase`), the rest
/// of the Unicode table not being restated here.
#[verifier::external_body]
pub(crate) fn is_uppercase(c: char) -> (r: bool)
    ensures
        r == uppercase(c),
        c > '\u{7f}' && !in_caseless_block(c) ==> r == unicode_uppercase(c),
{
    c.is_uppercase()
}

/// Whether `c` has the Unicode `Uppercase` property. ASCII and the caseless
/// blocks are decided here; only other characters are looked up.
pub(crate) fn char_is_uppercase(c: char) -> (r: bool)
    ensures
        r == uppercase(c),
{
    if c <= '\u{7f}' {
        'A' <= c && c <= 'Z'
    } else if ('\u{80}' <= c && c <= '\u{bf}') || ('\u{2000}' <= c && c <= '\u{20ff}') || ('\u{2e80}' <= c
        && c <= '\u{2fff}') || ('\u{3000}' <= c && c <= '\u{9fff}') || ('\u{ac00}' <= c && c <= '\u{d7ff}')
        || ('\u{f900}' <= c && c <= '\u{faff}') || ('\u{1f300}' <= c && c <= '\u{1faff}') || ('\u{20000}'
        <= c && c <= '\u{3ffff}') {
        false
    } else {
        is_uppercase(c)
    }
}

/// No character of a caseless block is uppercase, whatever the rest of the
/// Unicode table says; in particular CJK text and emoji never are.
pub proof fn law_caseless_characters_are_not_uppercase(c: char)
    ensures
        in_caseless_block(c) ==> !uppercase(c),
        c <= '\u{7f}' ==> (uppercase(c) <==> ('A' <= c && c <= 'Z')),
{
}

// ---------------------------------------------------------------------------
// Conversions between strings and character vectors
// ---------------------------------------------------------------------------

/// The characters of `s`, in order.
pub(crate) fn to_chars(s: &str) -> (v: Vec<char>)
    ensures
        v@ == s@,
{
    let mut v: Vec<char> = Vec::new();
    for c in it: s.chars()
        invariant
            v@ == it.seq().take(it.index() as int),
            it.seq() == s@,
    {
        v.push(c);
    }
    v
}

/// Appends `v[from..to]` to `out`.
pub(crate) fn push_range(out: &mut String, v: &Vec<char>, from: usize, to: usize)
    requires
        from <= to <= v@.len(),
    ensures
        final(out)@ == old(out)@ + v@.subrange(from as int, to as int),
{
    let mut i: usize = from;
    while i < to
        invariant
            from <= i <= to <= v@.len(),
            out@ == old(out)@ + v@.subrange(from as int, i as int),
        decreases to - i,
    {
        out.push(v[i]);
        assert(v@.subrange(from as int, i + 1) == v@.subrange(from as int, i as int).push(v@[i as int]));
        i = i + 1;
    }
}

/// A string holding `v[from..to]`.
pub(crate) fn string_of_range(v: &Vec<char>, from: usize, to: usize) -> (s: String)
    requires
        from <= to <= v@.len(),
    ensures
        s@ == v@.subrange(from as int, to as int),
{
    let mut s = String::new();
    push_range(&mut s, v, from, to);
    s
}

/// A string holding the characters of `v`.
pub(crate) fn string_of_chars(v: &Vec<char>) -> (s: String)
    ensures
        s@ == v@,
{
    let s = string_of_range(v, 0, v.len());
    assert(v@.subrange(0, v@.len() as int) == v@);
    s
}

/// Whether two character sequences are equal.
pub(crate) fn chars_eq(a: &Vec<char>, b: &Vec<char>) -> (r: bool)
    ensures
        r == (a@ == b@),
{
    if a.len() != b.len() {
        return false;
    }
    let mut i: usize = 0;
    while i < a.len()
        invariant
            a@.len() == b@.len(),
            i <= a@.len(),
            forall|k: int| 0 <= k < i ==> a@[k] == b@[k],
        decreases a.len() - i,
    {
        if a[i] != b[i] {
            return false;
        }
        i = i + 1;
    }
    assert(a@ =~= b@);
    true
}

/// Whether the characters `v` spell the string `s`.
pub(crate) fn chars_eq_str(v: &Vec<char>, s: &str) -> (r: bool)
    ensures
        r == (v@ == s@),
{
    let w = to_chars(s);
    chars_eq(v, &w)
}

// ---------------------------------------------------------------------------
// Trimming
// ---------------------------------------------------------------------------

/// `s` without its leading whitespace.
pub open spec fn trim_start(s: Seq<char>) -> Seq<char>
    decreases s.len(),
{
    if s.len() > 0 && white_space(s[0]) {
        trim_start(s.drop_first())
    } else {
        s
    }
}

/// `s` without its trailing whitespace.
pub open spec fn trim_end(s: Seq<char>) -> Seq<char>
    decreases s.len(),
{
    if s.len() > 0 && white_space(s.last()) {
        trim_end(s.drop_last())
    } else {
        s
    }
}

/// `s` without leading and trailing whitespace, as `str::trim` returns it.
pub open spec fn trim(s: Seq<char>) -> Seq<char> {
    trim_end(trim_start(s))
}

/// Skipping whitespace from the front of `s` up to position `i` does not
/// change what `trim_start` yields.
pub proof fn lemma_trim_start_skip(s: Seq<char>, i: int)
    requires
        0 <= i <= s.len(),
        forall|k: int| 0 <= k < i ==> white_space(s[k]),
    ensures
        trim_start(s) == trim_start(s.skip(i)),
    decreases i,
{
    if i > 0 {
        assert(s.drop_first().skip(i - 1) =~= s.skip(i));
        lemma_trim_start_skip(s.drop_first(), i - 1);
    } else {
        assert(s.skip(0) =~= s);
    }
}

/// Dropping whitespace from the back of `s` down to position `j` does not
/// change what `trim_end` yields.
pub proof fn lemma_trim_end_take(s: Seq<char>, j: int)
    requires
        0 <= j <= s.len(),
        forall|k: int| j <= k < s.len() ==> white_space(s[k]),
    ensures
        trim_end(s) == trim_end(s.take(j)),
    decreases s.len() - j,
{
    if j < s.len() {
        assert(s.drop_last().take(j) =~= s.take(j));
        lemma_trim_end_take(s.drop_last(), j);
    } else {
        assert(s.take(j) =~= s);
    }
}

/// What `trim_start` leaves does not start with whitespace.
pub proof fn lemma_trim_start_front(s: Seq<char>)
    ensures
        trim_start(s).len() > 0 ==> !white_space(trim_start(s)[0]),
    decreases s.len(),
{
    if s.len() > 0 && white_space(s[0]) {
        lemma_trim_start_front(s.drop_first());
    }
}

/// What `trim_end` leaves is a prefix of its input that does not end with
/// whitespace.
pub proof fn lemma_trim_end_prefix(s: Seq<char>)
    ensures
        trim_end(s).len() <= s.len(),
        trim_end(s) == s.take(trim_end(s).len() as int),
        trim_end(s).len() > 0 ==> !white_space(trim_end(s).last()),
    decreases s.len(),
{
    if s.len() > 0 && white_space(s.last()) {
        lemma_trim_end_prefix(s.drop_last());
        assert(s.drop_last().take(trim_end(s).len() as int) =~= s.take(trim_end(s).len() as int));
    } else {
        assert(s.take(s.len() as int) =~= s);
    }
}

/// Trimming twice is trimming once.
pub proof fn lemma_trim_idempotent(s: Seq<char>)
    ensures
        trim(trim(s)) == trim(s),
{
    let y = trim_start(s);
    let z = trim_end(y);
    lemma_trim_start_front(s);
    lemma_trim_end_prefix(y);
    if z.len() > 0 {
        assert(z[0] == y[0]);
        assert(trim_start(z) == z);
        assert(trim_end(z) == z);
    } else {
        assert(trim_start(z) == z);
        assert(trim_end(z) == z);
    }
}

/// What `trim_start` leaves is a suffix of its input.
pub proof fn lemma_trim_start_suffix(s: Seq<char>)
    ensures
        trim_start(s).len() <= s.len(),
        trim_start(s) == s.skip(s.len() - trim_start(s).len()),
    decreases s.len(),
{
    if s.len() > 0 && white_space(s[0]) {
        lemma_trim_start_suffix(s.drop_first());
        assert(s.drop_first().skip(s.drop_first().len() - trim_start(s).len()) =~= s.skip(
            s.len() - trim_start(s).len(),
        ));
    } else {
        assert(s.skip(0) =~= s);
    }
}

/// Trimming adds no character: what `trim` leaves of a text without `c`
/// holds no `c`.
pub proof fn lemma_trim_keeps_absent(s: Seq<char>, c: char)
    requires
        !s.contains(c),
    ensures
        !trim(s).contains(c),
{
    let y = trim_start(s);
    lemma_trim_start_suffix(s);
    lemma_trim_end_prefix(y);
    let k = s.len() - y.len();
    assert forall|i: int| 0 <= i < trim(s).len() implies trim(s)[i] != c by {
        assert(trim(s)[i] == y[i]);
        assert(y[i] == s[k + i]);
    }
}

/// The part of `s` before the first `c` holds no `c`.
pub proof fn lemma_index_of_char_prefix(s: Seq<char>, c: char)
    ensures
        index_of_char(s, c) <= s.len(),
        forall|k: int| 0 <= k < index_of_char(s, c) ==> s[k] != c,
        index_of_char(s, c) < s.len() ==> s[index_of_char(s, c) as int] == c,
    decreases s.len(),
{
    if s.len() > 0 && s[0] != c {
        lemma_index_of_char_prefix(s.drop_first(), c);
        assert(index_of_char(s, c) < s.len() ==> s[index_of_char(s, c) as int] == s.drop_first()[index_of_char(
            s.drop_first(),
            c,
        ) as int]);
        assert forall|k: int| 0 <= k < index_of_char(s, c) implies s[k] != c by {
            if k > 0 {
                assert(s[k] == s.drop_first()[k - 1]);
            }
        }
    }
}

/// A trimmed, non-empty text neither starts nor ends with whitespace.
pub proof fn lemma_trimmed_ends(m: Seq<char>)
    requires
        m.len() > 0,
        trim(m) == m,
    ensures
        !white_space(m[0]),
        !white_space(m.last()),
{
    lemma_trim_start_suffix(m);
    lemma_trim_end_prefix(trim_start(m));
    assert(trim_start(m).len() == m.len());
    assert(m.skip(0) =~= m);
    lemma_trim_start_front(m);
    lemma_trim_end_prefix(m);
}

/// Whitespace around a trimmed, non-empty text is all that trimming removes.
pub proof fn lemma_trim_padded(x: Seq<char>, m: Seq<char>, y: Seq<char>)
    requires
        forall|k: int| 0 <= k < x.len() ==> white_space(#[trigger] x[k]),
        forall|k: int| 0 <= k < y.len() ==> white_space(#[trigger] y[k]),
        m.len() > 0,
        trim(m) == m,
    ensures
        trim(x + m + y) == m,
{
    lemma_trimmed_ends(m);
    let s = x + m + y;
    assert forall|k: int| 0 <= k < x.len() implies white_space(s[k]) by {
        assert(s[k] == x[k]);
    }
    lemma_trim_start_skip(s, x.len() as int);
    let my = m + y;
    assert(s.skip(x.len() as int) =~= my);
    assert(my[0] == m[0]);
    assert(trim_start(my) == my);
    assert forall|k: int| m.len() <= k < my.len() implies white_space(my[k]) by {
        assert(my[k] == y[k - m.len()]);
    }
    lemma_trim_end_take(my, m.len() as int);
    assert(my.take(m.len() as int) =~= m);
    assert(trim_end(m) == m);
}

/// What `trim_start` removes is whitespace.
pub proof fn lemma_trim_start_removes_whitespace(s: Seq<char>)
    ensures
        trim_start(s).len() <= s.len(),
        forall|k: int| 0 <= k < s.len() - trim_start(s).len() ==> white_space(#[trigger] s[k]),
    decreases s.len(),
{
    if s.len() > 0 && white_space(s[0]) {
        lemma_trim_start_removes_whitespace(s.drop_first());
        assert forall|k: int| 0 <= k < s.len() - trim_start(s).len() implies white_space(#[trigger] s[k]) by {
            if k > 0 {
                assert(s[k] == s.drop_first()[k - 1]);
            }
        }
    }
}

/// What `trim_end` removes is whitespace.
pub proof fn lemma_trim_end_removes_whitespace(s: Seq<char>)
    ensures
        trim_end(s).len() <= s.len(),
        forall|k: int| trim_end(s).len() <= k < s.len() ==> white_space(#[trigger] s[k]),
    decreases s.len(),
{
    if s.len() > 0 && white_space(s.last()) {
        lemma_trim_end_removes_whitespace(s.drop_last());
        assert forall|k: int| trim_end(s).len() <= k < s.len() implies white_space(#[trigger] s[k]) by {
            if k < s.len() - 1 {
                assert(s[k] == s.drop_last()[k]);
            }
        }
    }
}

/// A text that neither starts nor ends with whitespace occurs in `s` exactly
/// when it occurs in `trim(s)`.
pub proof fn lemma_contains_after_trim(s: Seq<char>, n: Seq<char>)
    requires
        n.len() > 0,
        !white_space(n[0]),
        !white_space(n.last()),
    ensures
        contains_seq(s, n) <==> contains_seq(trim(s), n),
{
    let y = trim_start(s);
    lemma_trim_start_suffix(s);
    lemma_trim_start_removes_whitespace(s);
    lemma_trim_end_prefix(y);
    lemma_trim_end_removes_whitespace(y);
    let k = s.len() - y.len();
    let m = trim(s).len() as int;
    let t = trim(s);
    assert(t =~= s.subrange(k, k + m)) by {
        assert forall|i: int| 0 <= i < m implies t[i] == s[k + i] by {
            assert(t[i] == y[i]);
            assert(y[i] == s[k + i]);
        }
    }
    if contains_seq(s, n) {
        let i = choose|i: int| occurs_at(s, n, i);
        assert(s[i] == n[0]) by {
            assert(s.subrange(i, i + n.len())[0] == s[i]);
        }
        assert(s[i + n.len() - 1] == n.last()) by {
            assert(s.subrange(i, i + n.len())[n.len() - 1] == s[i + n.len() - 1]);
        }
        assert(i >= k);
        let l = i + n.len() - 1;
        if l >= k + m {
            assert(y[l - k] == s[l]);
            assert(white_space(y[l - k]));
        }
        assert(t.subrange(i - k, i - k + n.len()) =~= s.subrange(i, i + n.len()));
        assert(occurs_at(t, n, i - k));
    }
    if contains_seq(t, n) {
        let j = choose|j: int| occurs_at(t, n, j);
        assert(s.subrange(k + j, k + j + n.len()) =~= t.subrange(j, j + n.len()));
        assert(occurs_at(s, n, k + j));
    }
}

/// Number of leading whitespace characters in `v[from..to]`.
fn leading_ws_end(v: &Vec<char>, from: usize, to: usize) -> (i: usize)
    requires
        from <= to <= v@.len(),
    ensures
        from <= i <= to,
        forall|k: int| from <= k < i ==> white_space(v@[k]),
        i < to ==> !white_space(v@[i as int]),
{
    let mut i: usize = from;
    while i < to && is_whitespace(v[i])
        invariant
            from <= i <= to <= v@.len(),
            forall|k: int| from <= k < i ==> white_space(v@[k]),
        decreases to - i,
    {
        i = i + 1;
    }
    i
}

/// Position after the last non-whitespace character in `v[from..to]`.
fn trailing_ws_start(v: &Vec<char>, from: usize, to: usize) -> (j: usize)
    requires
        from <= to <= v@.len(),
    ensures
        from <= j <= to,
        forall|k: int| j <= k < to ==> white_space(v@[k]),
        j > from ==> !white_space(v@[j - 1]),
{
    let mut j: usize = to;
    while j > from && is_whitespace(v[j - 1])
        invariant
            from <= j <= to <= v@.len(),
            forall|k: int| j <= k < to ==> white_space(v@[k]),
        decreases j - from,
    {
        j = j - 1;
    }
    j
}

/// The bounds of `trim(v[from..to])` inside `v`.
pub(crate) fn trim_bounds(v: &Vec<char>, from: usize, to: usize) -> (r: (usize, usize))
    requires
        from <= to <= v@.len(),
    ensures
        from <= r.0 <= r.1 <= to,
        v@.subrange(r.0 as int, r.1 as int) == trim(v@.subrange(from as int, to as int)),
{
    let ghost s = v@.subrange(from as int, to as int);
    let i: usize = leading_ws_end(v, from, to);
    proof {
        lemma_trim_start_skip(s, i - from);
        let t = s.skip(i - from);
        assert(t =~= v@.subrange(i as int, to as int));
        if t.len() > 0 {
            assert(!white_space(t[0]));
        }
        assert(trim_start(t) == t);
    }
    let j: usize = trailing_ws_start(v, i, to);
    proof {
        let t = v@.subrange(i as int, to as int);
        lemma_trim_end_take(t, j - i);
        let u = t.take(j - i);
        assert(u =~= v@.subrange(i as int, j as int));
        if u.len() > 0 {
            assert(u.last() == v@[j - 1]);
        }
        assert(trim_end(u) == u);
    }
    (i, j)
}

/// The end of `trim_end(v[from..to])` inside `v`.
pub(crate) fn trim_end_bound(v: &Vec<char>, from: usize, to: usize) -> (j: usize)
    requires
        from <= to <= v@.len(),
    ensures
        from <= j <= to,
        v@.subrange(from as int, j as int) == trim_end(v@.subrange(from as int, to as int)),
{
    let j: usize = trailing_ws_start(v, from, to);
    proof {
        let t = v@.subrange(from as int, to as int);
        lemma_trim_end_take(t, j - from);
        let u = t.take(j - from);
        assert(u =~= v@.subrange(from as int, j as int));
        if u.len() > 0 {
            assert(u.last() == v@[j - 1]);
        }
        assert(trim_end(u) == u);
    }
    j
}

/// A vector holding `v[from..to]`.
pub(crate) fn sub_vec(v: &Vec<char>, from: usize, to: usize) -> (r: Vec<char>)
    requires
        from <= to <= v@.len(),
    ensures
        r@ == v@.subrange(from as int, to as int),
{
    let mut r: Vec<char> = Vec::new();
    let mut i: usize = from;
    while i < to
        invariant
            from <= i <= to <= v@.len(),
            r@ == v@.subrange(from as int, i as int),
        decreases to - i,
    {
        r.push(v[i]);
        assert(v@.subrange(from as int, i + 1) == v@.subrange(from as int, i as int).push(v@[i as int]));
        i = i + 1;
    }
    r
}

/// A vector holding `trim(v)`.
pub(crate) fn trimmed_chars(v: &Vec<char>) -> (r: Vec<char>)
    ensures
        r@ == trim(v@),
{
    let (i, j) = trim_bounds(v, 0, v.len());
    assert(v@.subrange(0, v@.len() as int) == v@);
    sub_vec(v, i, j)
}

// ---------------------------------------------------------------------------
// Lines
// ---------------------------------------------------------------------------

/// Position of the first occurrence of `c` in `s`, or `s.len()` if there is none.
pub open spec fn index_of_char(s: Seq<char>, c: char) -> nat
    decreases s.len(),
{
    if s.len() == 0 {
        0
    } else if s[0] == c {
        0
    } else {
        1 + index_of_char(s.drop_first(), c)
    }
}

/// `s` without one trailing carriage return.
pub open spec fn strip_cr(s: Seq<char>) -> Seq<char> {
    if s.len() > 0 && s.last() == '\r' {
        s.drop_last()
    } else {
        s
    }
}

/// The lines of `s` as `str::lines` yields them: split at `\n`, a `\r`
/// directly before a `\n` dropped, and no empty line after a final `\n`.
pub open spec fn lines(s: Seq<char>) -> Seq<Seq<char>>
    decreases s.len(),
{
    if s.len() == 0 {
        seq![]
    } else {
        let i = index_of_char(s, '\n');
        if i < s.len() {
            seq![strip_cr(s.take(i as int))] + lines(s.skip(i as int + 1))
        } else {
            seq![s]
        }
    }
}

/// The first line of `s`, or the empty sequence when `s` has no line.
pub open spec fn first_line(s: Seq<char>) -> Seq<char> {
    if lines(s).len() > 0 {
        lines(s)[0]
    } else {
        seq![]
    }
}

/// The lines of `s` after the first one.
pub open spec fn rest_lines(s: Seq<char>) -> Seq<Seq<char>> {
    if lines(s).len() > 0 {
        lines(s).drop_first()
    } else {
        seq![]
    }
}

/// When `s[0..m]` holds no `c` and `s[m]` is `c` (or `m` is the end),
/// `index_of_char` finds `m`.
pub proof fn lemma_index_of_char(s: Seq<char>, c: char, m: int)
    requires
        0 <= m <= s.len(),
        forall|k: int| 0 <= k < m ==> s[k] != c,
        m == s.len() || s[m] == c,
    ensures
        index_of_char(s, c) == m,
    decreases m,
{
    if m > 0 {
        lemma_index_of_char(s.drop_first(), c, m - 1);
    }
}

/// First position at or after `from` that holds `c`, or `v.len()`.
pub(crate) fn find_char(v: &Vec<char>, from: usize, c: char) -> (j: usize)
    requires
        from <= v@.len(),
    ensures
        from <= j <= v@.len(),
        forall|k: int| from <= k < j ==> v@[k] != c,
        j < v@.len() ==> v@[j as int] == c,
        index_of_char(v@.skip(from as int), c) == j - from,
{
    let mut j: usize = from;
    while j < v.len() && v[j] != c
        invariant
            from <= j <= v@.len(),
            forall|k: int| from <= k < j ==> v@[k] != c,
        decreases v.len() - j,
    {
        j = j + 1;
    }
    proof {
        lemma_index_of_char(v@.skip(from as int), c, j - from);
    }
    j
}

/// The lines of `v`, as `str::lines` yields them.
pub(crate) fn split_lines(v: &Vec<char>) -> (r: Vec<Vec<char>>)
    ensures
        r.deep_view() == lines(v@),
{
    let mut out: Vec<Vec<char>> = Vec::new();
    let mut pos: usize = 0;
    assert(v@.skip(0) =~= v@);
    while pos < v.len()
        invariant
            pos <= v@.len(),
            out.deep_view() + lines(v@.skip(pos as int)) == lines(v@),
        decreases v.len() - pos,
    {
        let ghost s = v@.skip(pos as int);
        let j = find_char(v, pos, '\n');
        let mut line: Vec<char> = Vec::new();
        let mut end: usize = j;
        if j < v.len() && j > pos && v[j - 1] == '\r' {
            end = j - 1;
        }
        let mut k: usize = pos;
        while k < end
            invariant
                pos <= k <= end <= j <= v@.len(),
                line@ == v@.subrange(pos as int, k as int),
            decreases end - k,
        {
            line.push(v[k]);
            assert(v@.subrange(pos as int, k + 1) == v@.subrange(pos as int, k as int).push(v@[k as int]));
            k = k + 1;
        }
        let ghost old_out = out.deep_view();
        assert(line.deep_view() =~= line@);
        out.push(line);
        proof {
            assert(out.deep_view() =~= old_out.push(line@));
            if j < v.len() {
                assert(s.take(j - pos) =~= v@.subrange(pos as int, j as int));
                assert(s.skip(j - pos + 1) =~= v@.skip(j + 1));
                assert(line@ == strip_cr(s.take(j - pos)));
                assert(lines(s) == seq![line@] + lines(v@.skip(j + 1)));
                assert(old_out.push(line@) + lines(v@.skip(j + 1)) =~= old_out + lines(s));
            } else {
                assert(s =~= v@.subrange(pos as int, j as int));
                assert(lines(s) == seq![line@]);
                assert(v@.skip(v@.len() as int) =~= Seq::<char>::empty());
                assert(lines(v@.skip(v@.len() as int)) =~= Seq::<Seq<char>>::empty());
                assert(old_out.push(line@) + lines(v@.skip(v@.len() as int)) =~= old_out + lines(s));
            }
        }
        if j < v.len() {
            pos = j + 1;
        } else {
            pos = v.len();
        }
    }
    proof {
        assert(v@.skip(pos as int) =~= Seq::<char>::empty());
        assert(out.deep_view() + Seq::<Seq<char>>::empty() =~= out.deep_view());
    }
    out
}

// ---------------------------------------------------------------------------
// Joining
// ---------------------------------------------------------------------------

/// The parts, with `sep` between each two of them.
pub open spec fn join(parts: Seq<Seq<char>>, sep: Seq<char>) -> Seq<char>
    decreases parts.len(),
{
    if parts.len() == 0 {
        seq![]
    } else if parts.len() == 1 {
        parts[0]
    } else {
        join(parts.drop_last(), sep) + sep + parts.last()
    }
}

/// Appends `parts[from..]` joined by `sep` to `out`.
pub(crate) fn push_joined(out: &mut String, parts: &Vec<Vec<char>>, from: usize, sep: &str)
    requires
        from <= parts@.len(),
    ensures
        final(out)@ == old(out)@ + join(parts.deep_view().skip(from as int), sep@),
{
    let ghost ps = parts.deep_view().skip(from as int);
    let mut i: usize = from;
    let mut local = String::new();
    while i < parts.len()
        invariant
            from <= i <= parts@.len(),
            ps == parts.deep_view().skip(from as int),
            local@ == join(ps.take(i - from), sep@),
        decreases parts.len() - i,
    {
        if i > from {
            local.append(sep);
        }
        let ghost before = local@;
        let p = &parts[i];
        push_range(&mut local, p, 0, p.len());
        proof {
            assert(p@.subrange(0, p@.len() as int) =~= p@);
            let t = ps.take(i + 1 - from);
            assert(t.drop_last() =~= ps.take(i - from));
            assert(t.last() == parts.deep_view()[i as int]);
            if i == from {
                assert(ps.take(0) =~= Seq::<Seq<char>>::empty());
                assert(t.len() == 1);
                assert(local@ =~= t[0]);
            }
        }
        i = i + 1;
    }
    assert(ps.take(parts@.len() - from) =~= ps);
    out.append(local.as_str());
}

// ---------------------------------------------------------------------------
// Substring search
// ---------------------------------------------------------------------------

/// Whether `needle` occurs in `hay` at position `i`.
pub open spec fn occurs_at(hay: Seq<char>, needle: Seq<char>, i: int) -> bool {
    0 <= i && i + needle.len() <= hay.len() && hay.subrange(i, i + needle.len()) == needle
}

/// Whether `needle` occurs somewhere in `hay`, as `str::contains` decides it.
pub open spec fn contains_seq(hay: Seq<char>, needle: Seq<char>) -> bool {
    exists|i: int| occurs_at(hay, needle, i)
}

/// Whether `needle` occurs in `hay` at position `i` (executable).
fn occurs_at_exec(hay: &Vec<char>, needle: &Vec<char>, i: usize) -> (r: bool)
    requires
        i + needle@.len() <= hay@.len(),
    ensures
        r == occurs_at(hay@, needle@, i as int),
{
    let hl = hay.len();
    let mut k: usize = 0;
    while k < needle.len()
        invariant
            hl == hay@.len(),
            i + needle@.len() <= hay@.len(),
            k <= needle@.len(),
            forall|m: int| 0 <= m < k ==> hay@[i + m] == needle@[m],
        decreases needle.len() - k,
    {
        assert(i + k < hay@.len());
        if hay[i + k] != needle[k] {
            assert(hay@.subrange(i as int, i + needle@.len())[k as int] != needle@[k as int]);
            return false;
        }
        k = k + 1;
    }
    assert(hay@.subrange(i as int, i + needle@.len()) =~= needle@);
    true
}

/// Whether `needle` occurs in `hay`.
pub(crate) fn contains_chars(hay: &Vec<char>, needle: &Vec<char>) -> (r: bool)
    ensures
        r == contains_seq(hay@, needle@),
{
    if needle.len() > hay.len() {
        return false;
    }
    let last = hay.len() - needle.len();
    let mut i: usize = 0;
    while i < last
        invariant
            last + needle@.len() == hay@.len(),
            i <= last,
            forall|m: int| 0 <= m < i ==> !occurs_at(hay@, needle@, m),
        decreases last - i,
    {
        if occurs_at_exec(hay, needle, i) {
            return true;
        }
        i = i + 1;
    }
    occurs_at_exec(hay, needle, last)
}

// ---------------------------------------------------------------------------
// Decimal rendering
// ---------------------------------------------------------------------------

/// The character of decimal digit `d`.
pub open spec fn digit_char(d: nat) -> char {
    (48 + d) as char
}

/// The decimal digits of `n`, most significant first, without leading zeros.
pub open spec fn decimal(n: nat) -> Seq<char>
    decreases n,
{
    if n < 10 {
        seq![digit_char(n)]
    } else {
        decimal(n / 10).push(digit_char(n % 10))
    }
}

fn digit(d: usize) -> (c: char)
    requires
        d < 10,
    ensures
        c == digit_char(d as nat),
{
    match d {
        0 => '0',
        1 => '1',
        2 => '2',
        3 => '3',
        4 => '4',
        5 => '5',
        6 => '6',
        7 => '7',
        8 => '8',
        _ => '9',
    }
}

/// Appends the decimal digits of `n` to `out`.
pub(crate) fn push_decimal(out: &mut String, n: usize)
    ensures
        final(out)@ == old(out)@ + decimal(n as nat),
    decreases n,
{
    if n >= 10 {
        push_decimal(out, n / 10);
    }
    out.push(digit(n % 10));
}

} // verus!
