//! Text handling for dump statements: decoding, whitespace trimming and
//! splitting a flushed buffer into separator-terminated statements.

use vstd::prelude::*;
use vstd::string::StringSliceAdditionalSpecFns;
use vstd::utf8::*;

verus! {

broadcast use vstd::seq::group_seq_axioms;

/// The statement separator.
pub const SEPARATOR: char = ';';

/// The quote character that protects a separator directly before it.
pub const QUOTE: char = '\'';

/// Whether `c` has the Unicode `White_Space` property.
pub open spec fn is_space_spec(c: char) -> bool {
    ('\u{9}' <= c && c <= '\u{d}') || c == ' ' || c == '\u{85}' || c == '\u{a0}'
        || c == '\u{1680}' || ('\u{2000}' <= c && c <= '\u{200a}') || c == '\u{2028}'
        || c == '\u{2029}' || c == '\u{202f}' || c == '\u{205f}' || c == '\u{3000}'
}

/// Executable check for Unicode whitespace.
pub fn is_space(c: char) -> (r: bool)
    ensures
        r == is_space_spec(c),
{
    ('\u{9}' <= c && c <= '\u{d}') || c == ' ' || c == '\u{85}' || c == '\u{a0}'
        || c == '\u{1680}' || ('\u{2000}' <= c && c <= '\u{200a}') || c == '\u{2028}'
        || c == '\u{2029}' || c == '\u{202f}' || c == '\u{205f}' || c == '\u{3000}'
}

/// Relies on `std::str::from_utf8`: it accepts exactly the valid UTF-8 byte
/// sequences and returns a string slice over the same bytes.
#[verifier::external_body]
fn str_from_utf8<'a>(b: &'a [u8]) -> (r: Option<&'a str>)
    ensures
        r is Some <==> valid_utf8(b@),
        r is Some ==> r->0.spec_bytes() == b@,
{
    std::str::from_utf8(b).ok()
}

/// Decodes `b` as UTF-8 text, or returns `None` when it is not valid UTF-8.
pub fn decode_text(b: &[u8]) -> (r: Option<String>)
    ensures
        r is Some <==> valid_utf8(b@),
        r is Some ==> r->0@ == decode_utf8(b@),
{
    match str_from_utf8(b) {
        Some(s) => {
            proof {
                encode_utf8_decode_utf8(s@);
            }
            Some(s.to_owned())
        },
        None => None,
    }
}

/// Relies on `String::push`: appends one character at the end.
#[verifier::external_body]
fn push_char(s: &mut String, c: char)
    ensures
        final(s)@ == old(s)@.push(c),
{
    s.push(c)
}

/// The characters of `s`, in order.
pub fn chars_of(s: &str) -> (r: Vec<char>)
    ensures
        r@ == s@,
{
    let mut out: Vec<char> = Vec::new();
    for c in it: s.chars()
        invariant
            out@ == it.seq().take(it.index() as int),
    {
        out.push(c);
    }
    out
}

/// `s` without its leading whitespace.
pub open spec fn trim_front(s: Seq<char>) -> Seq<char>
    decreases s.len(),
{
    if s.len() > 0 && is_space_spec(s[0]) {
        trim_front(s.drop_first())
    } else {
        s
    }
}

/// `s` without its trailing whitespace.
pub open spec fn trim_back(s: Seq<char>) -> Seq<char>
    decreases s.len(),
{
    if s.len() > 0 && is_space_spec(s.last()) {
        trim_back(s.drop_last())
    } else {
        s
    }
}

/// `s` without leading and trailing whitespace.
pub open spec fn trim(s: Seq<char>) -> Seq<char> {
    trim_back(trim_front(s))
}

/// Whether `t` is split at index `i`: a separator that is not directly
/// followed by a quote.
pub open spec fn is_split_point(t: Seq<char>, i: int) -> bool {
    0 <= i < t.len() && t[i] == SEPARATOR && !(i + 1 < t.len() && t[i + 1] == QUOTE)
}

/// The pieces of the first `n` characters of `t`, cut at the split points
/// and with the split points removed; there is always one piece more than
/// split points.
pub open spec fn pieces_upto(t: Seq<char>, n: int) -> Seq<Seq<char>>
    decreases n,
{
    if n <= 0 {
        seq![Seq::<char>::empty()]
    } else {
        let p = pieces_upto(t, n - 1);
        if is_split_point(t, n - 1) {
            p.push(Seq::<char>::empty())
        } else {
            p.update(p.len() - 1, p.last().push(t[n - 1]))
        }
    }
}

/// The pieces of `t` between its split points.
pub open spec fn pieces(t: Seq<char>) -> Seq<Seq<char>> {
    pieces_upto(t, t.len() as int)
}

/// The statement a piece gives: trimmed and re-terminated by the separator,
/// or nothing when it is blank.
pub open spec fn statements_of(ps: Seq<Seq<char>>) -> Seq<Seq<char>>
    decreases ps.len(),
{
    if ps.len() == 0 {
        Seq::<Seq<char>>::empty()
    } else {
        let rest = statements_of(ps.drop_last());
        let body = trim(ps.last());
        if body.len() == 0 {
            rest
        } else {
            rest.push(body.push(SEPARATOR))
        }
    }
}

/// What a flushed statement buffer with text `t` emits: `t` unchanged when it
/// has no split point, else one statement per non-blank piece.
pub open spec fn flush_emissions(t: Seq<char>) -> Seq<Seq<char>> {
    if pieces(t).len() == 1 {
        seq![t]
    } else {
        statements_of(pieces(t))
    }
}

/// The texts of a list of strings.
pub open spec fn texts(v: Seq<String>) -> Seq<Seq<char>> {
    v.map_values(|s: String| s@)
}

proof fn lemma_trim_front(s: Seq<char>)
    ensures
        trim_front(s).len() == 0 || !is_space_spec(trim_front(s)[0]),
    decreases s.len(),
{
    if s.len() > 0 && is_space_spec(s[0]) {
        lemma_trim_front(s.drop_first());
    }
}

proof fn lemma_trim_back(s: Seq<char>)
    ensures
        trim_back(s) == s.take(trim_back(s).len() as int),
        trim_back(s).len() <= s.len(),
        trim_back(s).len() == 0 || !is_space_spec(trim_back(s).last()),
    decreases s.len(),
{
    if s.len() > 0 && is_space_spec(s.last()) {
        lemma_trim_back(s.drop_last());
        assert(s.drop_last().take(trim_back(s).len() as int) =~= s.take(trim_back(s).len() as int));
    } else {
        assert(s.take(s.len() as int) =~= s);
    }
}

proof fn lemma_trim_ends(s: Seq<char>)
    ensures
        trim(s).len() > 0 ==> !is_space_spec(trim(s)[0]) && !is_space_spec(trim(s).last()),
{
    lemma_trim_front(s);
    lemma_trim_back(trim_front(s));
    if trim(s).len() > 0 {
        assert(trim(s)[0] == trim_front(s)[0]);
    }
}

/// Every statement made from pieces is non-empty, ends with the separator,
/// and neither starts nor ends with whitespace.
pub proof fn lemma_statements_normalized(ps: Seq<Seq<char>>)
    ensures
        forall|i: int|
            0 <= i < statements_of(ps).len() ==> {
                let st = #[trigger] statements_of(ps)[i];
                &&& st.len() > 1
                &&& st.last() == SEPARATOR
                &&& !is_space_spec(st[0])
                &&& !is_space_spec(st[st.len() - 2])
            },
    decreases ps.len(),
{
    if ps.len() > 0 {
        lemma_statements_normalized(ps.drop_last());
        lemma_trim_ends(ps.last());
        let body = trim(ps.last());
        if body.len() > 0 {
            let st = body.push(SEPARATOR);
            assert(st[0] == body[0]);
            assert(st[st.len() - 2] == body.last());
            let rest = statements_of(ps.drop_last());
            assert(forall|i: int| 0 <= i < rest.len() ==> #[trigger] rest.push(st)[i] == rest[i]);
        }
    }
}

/// A flushed text that holds a split point emits only statements that end
/// with the separator and carry no leading or trailing whitespace.
pub proof fn lemma_split_statements_normalized(t: Seq<char>)
    requires
        exists|i: int| is_split_point(t, i),
    ensures
        forall|i: int|
            0 <= i < flush_emissions(t).len() ==> {
                let st = #[trigger] flush_emissions(t)[i];
                &&& st.len() > 1
                &&& st.last() == SEPARATOR
                &&& !is_space_spec(st[0])
                &&& !is_space_spec(st[st.len() - 2])
            },
{
    let i = choose|i: int| is_split_point(t, i);
    lemma_pieces_count(t, t.len() as int, i);
    lemma_statements_normalized(pieces(t));
}

proof fn lemma_pieces_count(t: Seq<char>, n: int, i: int)
    requires
        n <= t.len(),
    ensures
        pieces_upto(t, n).len() >= 1,
        0 <= i < n && is_split_point(t, i) ==> pieces_upto(t, n).len() > 1,
    decreases n,
{
    if n > 0 {
        lemma_pieces_count(t, n - 1, i);
    }
}

proof fn lemma_no_split_single_piece(t: Seq<char>, n: int)
    requires
        n <= t.len(),
        forall|i: int| 0 <= i < n ==> !is_split_point(t, i),
    ensures
        pieces_upto(t, n).len() == 1,
    decreases n,
{
    if n > 0 {
        lemma_no_split_single_piece(t, n - 1);
    }
}

/// A separator directly followed by a quote never splits: a text whose every
/// separator is so protected is emitted unchanged, as one statement.
pub proof fn lemma_quoted_separator_kept(t: Seq<char>)
    requires
        forall|i: int| 0 <= i < t.len() && #[trigger] t[i] == SEPARATOR ==> i + 1 < t.len() && t[i + 1] == QUOTE,
    ensures
        flush_emissions(t) == seq![t],
{
    lemma_no_split_single_piece(t, t.len() as int);
}

/// The pieces of a text, joined again with separators.
pub open spec fn join_pieces(ps: Seq<Seq<char>>) -> Seq<char>
    decreases ps.len(),
{
    if ps.len() <= 1 {
        if ps.len() == 0 {
            Seq::<char>::empty()
        } else {
            ps[0]
        }
    } else {
        join_pieces(ps.drop_last()) + seq![SEPARATOR] + ps.last()
    }
}

proof fn lemma_join_pieces_upto(t: Seq<char>, n: int)
    requires
        0 <= n <= t.len(),
    ensures
        join_pieces(pieces_upto(t, n)) == t.take(n),
        pieces_upto(t, n).len() >= 1,
    decreases n,
{
    if n > 0 {
        lemma_join_pieces_upto(t, n - 1);
        let p = pieces_upto(t, n - 1);
        let q = pieces_upto(t, n);
        if is_split_point(t, n - 1) {
            assert(q.drop_last() =~= p);
            assert(t.take(n - 1) + seq![SEPARATOR] + Seq::<char>::empty() =~= t.take(n));
        } else {
            assert(q.last() == p.last().push(t[n - 1]));
            if p.len() > 1 {
                assert(q.drop_last() =~= p.drop_last());
                assert(join_pieces(q) =~= join_pieces(p).push(t[n - 1]));
            }
            assert(t.take(n - 1).push(t[n - 1]) =~= t.take(n));
        }
    }
}

/// Cutting a text at its split points loses nothing: joining the pieces
/// with separators gives the text back.
pub proof fn lemma_pieces_rejoin(t: Seq<char>)
    ensures
        join_pieces(pieces(t)) == t,
{
    lemma_join_pieces_upto(t, t.len() as int);
    assert(t.take(t.len() as int) =~= t);
}

proof fn lemma_statements_all_kept(ps: Seq<Seq<char>>)
    requires
        forall|i: int| 0 <= i < ps.len() ==> trim(#[trigger] ps[i]).len() > 0,
    ensures
        statements_of(ps).len() == ps.len(),
        forall|i: int| 0 <= i < ps.len() ==> #[trigger] statements_of(ps)[i] == trim(ps[i]).push(SEPARATOR),
    decreases ps.len(),
{
    if ps.len() > 0 {
        let q = ps.drop_last();
        assert forall|i: int| 0 <= i < q.len() implies trim(#[trigger] q[i]).len() > 0 by {
            assert(q[i] == ps[i]);
        }
        lemma_statements_all_kept(q);
        assert(trim(ps[ps.len() - 1]).len() > 0);
    }
}

/// A text cut by its split points into non-blank fragments followed by a
/// blank remainder emits one statement per fragment, in order: the fragment
/// trimmed and terminated by the separator.
pub proof fn lemma_one_statement_per_fragment(t: Seq<char>)
    requires
        pieces(t).len() > 1,
        forall|i: int| 0 <= i < pieces(t).len() - 1 ==> trim(#[trigger] pieces(t)[i]).len() > 0,
        trim(pieces(t).last()).len() == 0,
    ensures
        flush_emissions(t).len() == pieces(t).len() - 1,
        forall|i: int|
            0 <= i < flush_emissions(t).len() ==> #[trigger] flush_emissions(t)[i] == trim(
                pieces(t)[i],
            ).push(SEPARATOR),
{
    let ps = pieces(t);
    let q = ps.drop_last();
    assert forall|i: int| 0 <= i < q.len() implies trim(#[trigger] q[i]).len() > 0 by {
        assert(q[i] == ps[i]);
    }
    lemma_statements_all_kept(q);
}

/// The bounds of `t[start..end]` once whitespace is trimmed from both ends.
fn trim_bounds(t: &Vec<char>, start: usize, end: usize) -> (r: (usize, usize))
    requires
        start <= end <= t@.len(),
    ensures
        start <= r.0 <= r.1 <= end,
        t@.subrange(r.0 as int, r.1 as int) == trim(t@.subrange(start as int, end as int)),
{
    let mut a = start;
    while a < end && is_space(t[a])
        invariant
            start <= a <= end <= t@.len(),
            trim_front(t@.subrange(start as int, end as int)) == trim_front(
                t@.subrange(a as int, end as int),
            ),
        decreases end - a,
    {
        assert(t@.subrange(a as int, end as int).drop_first() =~= t@.subrange(
            a + 1,
            end as int,
        ));
        a = a + 1;
    }
    let mut b = end;
    while b > a && is_space(t[b - 1])
        invariant
            start <= a <= b <= end <= t@.len(),
            trim_front(t@.subrange(start as int, end as int)) == t@.subrange(a as int, end as int),
            trim(t@.subrange(start as int, end as int)) == trim_back(
                t@.subrange(a as int, b as int),
            ),
        decreases b - a,
    {
        assert(t@.subrange(a as int, b as int).drop_last() =~= t@.subrange(
            a as int,
            b - 1,
        ));
        b = b - 1;
    }
    (a, b)
}

/// A string holding `t[a..b]`, followed by the separator when `terminate`.
fn string_of(t: &Vec<char>, a: usize, b: usize, terminate: bool) -> (r: String)
    requires
        a <= b <= t@.len(),
    ensures
        r@ == (if terminate {
            t@.subrange(a as int, b as int).push(SEPARATOR)
        } else {
            t@.subrange(a as int, b as int)
        }),
{
    let mut s = String::new();
    let mut i = a;
    while i < b
        invariant
            a <= i <= b <= t@.len(),
            s@ == t@.subrange(a as int, i as int),
        decreases b - i,
    {
        push_char(&mut s, t[i]);
        assert(t@.subrange(a as int, i + 1) =~= t@.subrange(a as int, i as int).push(t@[i as int]));
        i = i + 1;
    }
    if terminate {
        push_char(&mut s, SEPARATOR);
    }
    s
}

/// Splits the text of a flushed buffer into the statements it emits: the text
/// unchanged when it holds no split point, else each non-blank piece between
/// split points, trimmed and terminated by the separator.
pub fn split_statements(text: &str) -> (r: Vec<String>)
    ensures
        texts(r@) == flush_emissions(text@),
{
    let t = chars_of(text);
    let n = t.len();
    let mut out: Vec<String> = Vec::new();
    let mut start: usize = 0;
    let mut splits: usize = 0;
    let mut i: usize = 0;
    while i < n
        invariant
            n == t@.len(),
            t@ == text@,
            start <= i <= n,
            splits <= i,
            pieces_upto(t@, i as int).len() == splits + 1,
            pieces_upto(t@, i as int).last() == t@.subrange(start as int, i as int),
            texts(out@) == statements_of(pieces_upto(t@, i as int).drop_last()),
        decreases n - i,
    {
        let ghost p = pieces_upto(t@, i as int);
        let split = t[i] == SEPARATOR && !(i + 1 < n && t[i + 1] == QUOTE);
        if split {
            let (a, b) = trim_bounds(&t, start, i);
            if a < b {
                let piece = string_of(&t, a, b, true);
                out.push(piece);
            }
            proof {
                let q = pieces_upto(t@, i + 1);
                assert(q.drop_last() =~= p);
                assert(texts(out@) =~= statements_of(q.drop_last()));
            }
            splits = splits + 1;
            start = i + 1;
        } else {
            proof {
                let q = pieces_upto(t@, i + 1);
                assert(q.drop_last() =~= p.drop_last());
                assert(t@.subrange(start as int, i + 1) =~= t@.subrange(start as int, i as int).push(t@[i as int]));
            }
        }
        i = i + 1;
    }
    let ghost p = pieces_upto(t@, n as int);
    if splits == 0 {
        let whole = text.to_owned();
        let mut single: Vec<String> = Vec::new();
        single.push(whole);
        assert(texts(single@) =~= seq![text@]);
        single
    } else {
        let (a, b) = trim_bounds(&t, start, n);
        if a < b {
            let piece = string_of(&t, a, b, true);
            out.push(piece);
        }
        proof {
            assert(p =~= p.drop_last().push(p.last()));
            assert(texts(out@) =~= statements_of(p));
        }
        out
    }
}

} // verus!
