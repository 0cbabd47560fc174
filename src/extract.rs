//! The streaming statement extractor: a state machine fed one physical line
//! at a time, and a driver that runs it over a whole dump held in memory.

use vstd::prelude::*;
use vstd::string::StringSliceAdditionalSpecFns;
use vstd::utf8::*;

use vstd::slice::slice_subrange;

use crate::text::{decode_text, flush_emissions, split_statements, texts};

verus! {

broadcast use vstd::seq::group_seq_axioms;

/// The byte that ends a physical line.
pub const NEWLINE: u8 = 0x0a;

/// The statement separator, as a byte.
pub const SEPARATOR_BYTE: u8 = 0x3b;

/// Consecutive unproductive reads tolerated before the stream is taken as
/// exhausted: extraction stops on the read that goes past this count.
pub const MAX_UNPRODUCTIVE_READS: u64 = 49;

/// Why extraction failed.
pub enum DumpFileError {
    /// The dump source could not be opened.
    DoesNotExist,
    /// The underlying source failed to deliver bytes.
    ReadError(std::io::Error),
    /// A comment line or a statement is not valid UTF-8 text.
    DecodeError,
}

/// Declares `std::io::Error`, carried unchanged by `DumpFileError::ReadError`.
#[verifier::external_type_specification]
#[verifier::external_body]
pub struct ExIoError(std::io::Error);

/// Whether `line` starts with every byte of the comment marker.
pub open spec fn is_comment_line(line: Seq<u8>, marker: Seq<u8>) -> bool {
    marker.len() <= line.len() && line.take(marker.len() as int) == marker
}

/// Whether `line` is empty or holds only the newline.
pub open spec fn is_blank_line(line: Seq<u8>) -> bool {
    line.len() == 0 || line == seq![NEWLINE]
}

/// `line` without its trailing newline, if it has one.
pub open spec fn line_body(line: Seq<u8>) -> Seq<u8> {
    if line.len() > 0 && line.last() == NEWLINE {
        line.drop_last()
    } else {
        line
    }
}

/// Whether `line`, its newline aside, ends with the separator.
pub open spec fn closes_statement(line: Seq<u8>) -> bool {
    line_body(line).len() > 0 && line_body(line).last() == SEPARATOR_BYTE
}

/// Whether reading `line` completes the pending statement.
pub open spec fn is_flush_point(line: Seq<u8>) -> bool {
    is_blank_line(line) || closes_statement(line)
}

/// The extractor's state: the pending statement's bytes and the number of
/// consecutive unproductive reads so far.
pub struct ExtractorState {
    pub buffer: Seq<u8>,
    pub unproductive: nat,
}

/// The pending bytes once `line` has been taken in, before any flush.
pub open spec fn appended(s: ExtractorState, line: Seq<u8>, marker: Seq<u8>) -> Seq<u8> {
    if is_comment_line(line, marker) {
        s.buffer
    } else {
        s.buffer + line
    }
}

/// Whether reading `line` flushes a pending statement worth emitting.
pub open spec fn emits_statement(s: ExtractorState, line: Seq<u8>, marker: Seq<u8>) -> bool {
    is_flush_point(line) && appended(s, line, marker).len() > 1
}

/// The state after reading `line`.
pub open spec fn step_state(s: ExtractorState, line: Seq<u8>, marker: Seq<u8>) -> ExtractorState {
    ExtractorState {
        buffer: if is_flush_point(line) {
            Seq::<u8>::empty()
        } else {
            appended(s, line, marker)
        },
        unproductive: if is_blank_line(line) {
            s.unproductive + 1
        } else {
            0
        },
    }
}

/// What reading `line` emits, in order: the comment line itself, then the
/// statements of a flushed buffer; `None` when text to emit is not UTF-8.
pub open spec fn step_output(s: ExtractorState, line: Seq<u8>, marker: Seq<u8>) -> Option<
    Seq<Seq<char>>,
> {
    let comment = is_comment_line(line, marker);
    let buf = appended(s, line, marker);
    let flushing = emits_statement(s, line, marker);
    if (comment && !valid_utf8(line)) || (flushing && !valid_utf8(buf)) {
        None
    } else {
        Some(
            (if comment {
                seq![decode_utf8(line)]
            } else {
                Seq::<Seq<char>>::empty()
            }) + (if flushing {
                flush_emissions(decode_utf8(buf))
            } else {
                Seq::<Seq<char>>::empty()
            }),
        )
    }
}

/// Whether a state has seen more unproductive reads in a row than tolerated.
pub open spec fn is_exhausted(s: ExtractorState) -> bool {
    s.unproductive > MAX_UNPRODUCTIVE_READS
}

/// Whether `line` starts with every byte of `marker`.
fn starts_with(line: &[u8], marker: &Vec<u8>) -> (r: bool)
    ensures
        r == is_comment_line(line@, marker@),
{
    if marker.len() > line.len() {
        return false;
    }
    let mut i: usize = 0;
    while i < marker.len()
        invariant
            i <= marker@.len() <= line@.len(),
            forall|j: int| 0 <= j < i ==> line@[j] == marker@[j],
        decreases marker@.len() - i,
    {
        if line[i] != marker[i] {
            assert(line@.take(marker@.len() as int)[i as int] != marker@[i as int]);
            return false;
        }
        i = i + 1;
    }
    assert(line@.take(marker@.len() as int) =~= marker@);
    true
}

/// Executable form of `is_blank_line`.
fn is_blank_line_exec(line: &[u8]) -> (r: bool)
    ensures
        r == is_blank_line(line@),
{
    if line.len() == 0 {
        true
    } else if line.len() == 1 && line[0] == NEWLINE {
        assert(line@ =~= seq![NEWLINE]);
        true
    } else {
        assert(line@.len() != 1 || line@[0] != NEWLINE);
        false
    }
}

/// Executable form of `is_flush_point`.
fn is_flush_point_exec(line: &[u8]) -> (r: bool)
    ensures
        r == is_flush_point(line@),
{
    let n = line.len();
    let body_len = if n > 0 && line[n - 1] == NEWLINE {
        n - 1
    } else {
        n
    };
    proof {
        assert(line_body(line@).len() == body_len);
        assert(forall|i: int| 0 <= i < body_len ==> line_body(line@)[i] == line@[i]);
    }
    let closes = body_len > 0 && line[body_len - 1] == SEPARATOR_BYTE;
    is_blank_line_exec(line) || closes
}

/// Turns physical lines into comment lines and statements, holding at most
/// one pending statement.
pub struct StatementExtractor {
    marker: Vec<u8>,
    buffer: Vec<u8>,
    unproductive: u64,
}

impl View for StatementExtractor {
    type V = ExtractorState;

    closed spec fn view(&self) -> ExtractorState {
        ExtractorState { buffer: self.buffer@, unproductive: self.unproductive as nat }
    }
}

impl StatementExtractor {
    /// The comment marker.
    pub closed spec fn marker(&self) -> Seq<u8> {
        self.marker@
    }

    /// An extractor with nothing pending, recognising comment lines by
    /// `comment_chars`.
    pub fn new(comment_chars: &str) -> (r: Self)
        ensures
            r.marker() == comment_chars.spec_bytes(),
            r@ == (ExtractorState { buffer: Seq::<u8>::empty(), unproductive: 0 }),
    {
        let bytes = comment_chars.as_bytes();
        let mut marker: Vec<u8> = Vec::new();
        marker.extend_from_slice(bytes);
        assert(marker@ =~= comment_chars.spec_bytes());
        StatementExtractor { marker, buffer: Vec::new(), unproductive: 0 }
    }

    /// Takes in one physical line (its bytes up to and including the newline,
    /// or fewer at the end of the stream) and returns what it emits, in order.
    /// The state moves on as `step_state` says, also when the result is an
    /// error; the error comes exactly when text to emit is not valid UTF-8.
    pub fn feed_line(&mut self, line: &[u8]) -> (r: Result<Vec<String>, DumpFileError>)
        requires
            !is_exhausted(old(self)@),
        ensures
            final(self).marker() == old(self).marker(),
            final(self)@ == step_state(old(self)@, line@, old(self).marker()),
            r is Ok <==> step_output(old(self)@, line@, old(self).marker()) is Some,
            r matches Ok(v) ==> texts(v@) == step_output(old(self)@, line@, old(self).marker())->0,
            r matches Err(e) ==> e is DecodeError,
    {
        let ghost s0 = self@;
        let comment = starts_with(line, &self.marker);
        let comment_text = if comment {
            decode_text(line)
        } else {
            None
        };
        if !comment {
            self.buffer.extend_from_slice(line);
            assert(self.buffer@ =~= s0.buffer + line@);
        }
        let flush = is_flush_point_exec(line);
        let mut flushed: Option<Vec<String>> = Some(Vec::new());
        if flush {
            if self.buffer.len() > 1 {
                flushed = match decode_text(self.buffer.as_slice()) {
                    Some(t) => Some(split_statements(t.as_str())),
                    None => None,
                };
            }
            self.buffer.clear();
        }
        if is_blank_line_exec(line) {
            self.unproductive = self.unproductive + 1;
        } else {
            self.unproductive = 0;
        }
        assert(self@.buffer =~= step_state(s0, line@, self.marker@).buffer);
        if comment && comment_text.is_none() {
            return Err(DumpFileError::DecodeError);
        }
        match flushed {
            None => Err(DumpFileError::DecodeError),
            Some(mut statements) => {
                let mut out: Vec<String> = Vec::new();
                match comment_text {
                    Some(c) => out.push(c),
                    None => {},
                }
                out.append(&mut statements);
                proof {
                    let o = step_output(s0, line@, self.marker@)->0;
                    assert(texts(out@) =~= o);
                }
                Ok(out)
            },
        }
    }

    /// Whether the stream is taken as exhausted.
    pub fn is_finished(&self) -> (r: bool)
        ensures
            r == is_exhausted(self@),
    {
        self.unproductive > MAX_UNPRODUCTIVE_READS
    }
}

/// The length of the physical line at the start of `rest`: up to and
/// including the first newline, or all of `rest` when it has none.
pub open spec fn line_len(rest: Seq<u8>) -> nat
    decreases rest.len(),
{
    if rest.len() == 0 {
        0
    } else if rest[0] == NEWLINE {
        1
    } else {
        1 + line_len(rest.drop_first())
    }
}

/// The physical line that a read at the start of `rest` delivers.
pub open spec fn next_line(rest: Seq<u8>) -> Seq<u8> {
    rest.take(line_len(rest) as int)
}

proof fn lemma_line_len_bounds(rest: Seq<u8>)
    ensures
        line_len(rest) <= rest.len(),
        rest.len() > 0 ==> line_len(rest) >= 1,
    decreases rest.len(),
{
    if rest.len() > 0 && rest[0] != NEWLINE {
        lemma_line_len_bounds(rest.drop_first());
    }
}

/// What extraction from state `s` over the unread bytes `rest` emits, in
/// order, reading line after line (empty reads once `rest` is used up) until
/// the stream is taken as exhausted; `None` when text to emit is not UTF-8.
pub open spec fn extraction(s: ExtractorState, rest: Seq<u8>, marker: Seq<u8>) -> Option<Seq<Seq<char>>>
    decreases rest.len(), MAX_UNPRODUCTIVE_READS + 1 - s.unproductive,
    via extraction_decreases
{
    if is_exhausted(s) {
        Some(Seq::<Seq<char>>::empty())
    } else {
        let line = next_line(rest);
        match step_output(s, line, marker) {
            None => None,
            Some(em) => match extraction(step_state(s, line, marker), rest.skip(line.len() as int), marker) {
                None => None,
                Some(more) => Some(em + more),
            },
        }
    }
}

#[via_fn]
proof fn extraction_decreases(s: ExtractorState, rest: Seq<u8>, marker: Seq<u8>) {
    lemma_line_len_bounds(rest);
}

/// The state an extraction starts from.
pub open spec fn initial_state() -> ExtractorState {
    ExtractorState { buffer: Seq::<u8>::empty(), unproductive: 0 }
}

/// In a whole dump, a comment line is emitted as soon as it is read, unchanged
/// and before everything that later lines emit, and the statement pending
/// when it was read is carried on past it.
pub proof fn lemma_comment_in_dump(s: ExtractorState, rest: Seq<u8>, marker: Seq<u8>)
    requires
        !is_exhausted(s),
        is_comment_line(next_line(rest), marker),
        extraction(s, rest, marker) is Some,
    ensures
        ({
            let line = next_line(rest);
            let after = step_state(s, line, marker);
            &&& extraction(after, rest.skip(line.len() as int), marker) is Some
            &&& extraction(s, rest, marker)->0 == seq![decode_utf8(line)] + step_output(s, line, marker)->0.drop_first()
                + extraction(after, rest.skip(line.len() as int), marker)->0
            &&& after.buffer == s.buffer || after.buffer.len() == 0
        }),
{
    let line = next_line(rest);
    lemma_comment_verbatim(s, line, marker);
    let o = step_output(s, line, marker)->0;
    assert(o =~= seq![decode_utf8(line)] + o.drop_first());
}

/// A comment line is emitted first and unchanged, and never joins the
/// pending statement: the pending bytes are kept as they were, or flushed.
pub proof fn lemma_comment_verbatim(s: ExtractorState, line: Seq<u8>, marker: Seq<u8>)
    requires
        is_comment_line(line, marker),
        step_output(s, line, marker) is Some,
    ensures
        step_output(s, line, marker)->0.len() >= 1,
        step_output(s, line, marker)->0[0] == decode_utf8(line),
        appended(s, line, marker) == s.buffer,
        step_state(s, line, marker).buffer == s.buffer || step_state(s, line, marker).buffer.len()
            == 0,
{
}

/// Once the bytes are used up, every read is unproductive, and extraction
/// ends without error after at most `MAX_UNPRODUCTIVE_READS + 1` of them,
/// provided the statement still pending is text.
pub proof fn lemma_exhausted_stream_ends(s: ExtractorState, marker: Seq<u8>)
    requires
        s.buffer.len() <= 1 || valid_utf8(s.buffer),
    ensures
        extraction(s, Seq::<u8>::empty(), marker) is Some,
        s.buffer.len() <= 1 && marker.len() > 0 ==> extraction(s, Seq::<u8>::empty(), marker)
            == Some(Seq::<Seq<char>>::empty()),
    decreases MAX_UNPRODUCTIVE_READS + 1 - s.unproductive,
{
    if !is_exhausted(s) {
        let empty = Seq::<u8>::empty();
        let line = next_line(empty);
        assert(line =~= empty);
        assert(s.buffer + empty =~= s.buffer);
        assert(valid_utf8(empty));
        assert(empty.skip(0) =~= empty);
        let s2 = step_state(s, line, marker);
        assert(s2.buffer =~= empty);
        lemma_exhausted_stream_ends(s2, marker);
        if s.buffer.len() <= 1 && marker.len() > 0 {
            assert(step_output(s, line, marker) == Some(Seq::<Seq<char>>::empty() + Seq::<Seq<char>>::empty()));
            assert(Seq::<Seq<char>>::empty() + Seq::<Seq<char>>::empty() =~= Seq::<Seq<char>>::empty());
        }
    }
}

/// `n` blank lines.
pub open spec fn blank_lines(n: nat) -> Seq<u8> {
    Seq::new(n, |i: int| NEWLINE)
}

/// Once as many blank lines come in a row as it takes to go past
/// `MAX_UNPRODUCTIVE_READS` unproductive reads, extraction ends: whatever
/// bytes follow them are never read, and do not change the outcome.
pub proof fn lemma_blank_run_ends_extraction(s: ExtractorState, tail: Seq<u8>, marker: Seq<u8>)
    requires
        s.unproductive <= MAX_UNPRODUCTIVE_READS + 1,
    ensures
        extraction(
            s,
            blank_lines((MAX_UNPRODUCTIVE_READS + 1 - s.unproductive) as nat) + tail,
            marker,
        ) == extraction(s, blank_lines((MAX_UNPRODUCTIVE_READS + 1 - s.unproductive) as nat), marker),
    decreases MAX_UNPRODUCTIVE_READS + 1 - s.unproductive,
{
    let k = (MAX_UNPRODUCTIVE_READS + 1 - s.unproductive) as nat;
    if k > 0 {
        let a = blank_lines(k) + tail;
        let b = blank_lines(k);
        let nl = seq![NEWLINE];
        assert(a[0] == NEWLINE);
        assert(b[0] == NEWLINE);
        assert(next_line(a) =~= nl);
        assert(next_line(b) =~= nl);
        let s2 = step_state(s, nl, marker);
        assert(s2.unproductive == s.unproductive + 1);
        lemma_blank_run_ends_extraction(s2, tail, marker);
        assert(a.skip(1) =~= blank_lines((k - 1) as nat) + tail);
        assert(b.skip(1) =~= blank_lines((k - 1) as nat));
    }
}

proof fn lemma_line_len_prefix(x: Seq<u8>, y: Seq<u8>)
    requires
        forall|i: int| 0 <= i < x.len() ==> x[i] != NEWLINE,
    ensures
        line_len(x + seq![NEWLINE] + y) == x.len() + 1,
    decreases x.len(),
{
    if x.len() > 0 {
        let z = x + seq![NEWLINE] + y;
        assert(z.drop_first() =~= x.drop_first() + seq![NEWLINE] + y);
        lemma_line_len_prefix(x.drop_first(), y);
    }
}

/// A dump of one statement line `l` (no newline inside, ending with the
/// separator, not a comment), then a blank line, emits exactly what the
/// flushed text `l` plus its newline gives: its statements cut at the split
/// points, trimmed and terminated, in order; and it ends without error.
pub proof fn lemma_single_line_dump(l: Seq<u8>, marker: Seq<u8>)
    requires
        forall|i: int| 0 <= i < l.len() ==> l[i] != NEWLINE,
        l.len() > 0,
        l.last() == SEPARATOR_BYTE,
        marker.len() > 0,
        !is_comment_line(l.push(NEWLINE), marker),
        !is_comment_line(seq![NEWLINE], marker),
        valid_utf8(l.push(NEWLINE)),
    ensures
        extraction(initial_state(), l + seq![NEWLINE, NEWLINE], marker) == Some(
            flush_emissions(decode_utf8(l.push(NEWLINE))),
        ),
{
    let dump = l + seq![NEWLINE, NEWLINE];
    let line = l.push(NEWLINE);
    let nl = seq![NEWLINE];
    let empty = Seq::<u8>::empty();
    assert(dump =~= l + nl + nl);
    lemma_line_len_prefix(l, nl);
    assert(next_line(dump) =~= line);
    let s0 = initial_state();
    assert(appended(s0, line, marker) =~= line);
    assert(line_body(line) =~= l);
    let em = flush_emissions(decode_utf8(line));
    assert(step_output(s0, line, marker) == Some(Seq::<Seq<char>>::empty() + em));
    assert(Seq::<Seq<char>>::empty() + em =~= em);
    let s1 = step_state(s0, line, marker);
    assert(s1.buffer =~= empty);
    assert(s1.unproductive == 0);
    let rest1 = dump.skip(line.len() as int);
    assert(rest1 =~= nl);
    assert(next_line(rest1) =~= nl);
    assert(appended(s1, nl, marker) =~= nl);
    assert(step_output(s1, nl, marker) == Some(Seq::<Seq<char>>::empty() + Seq::<Seq<char>>::empty()));
    let s2 = step_state(s1, nl, marker);
    assert(s2.buffer =~= empty);
    assert(rest1.skip(1) =~= empty);
    lemma_exhausted_stream_ends(s2, marker);
    assert(Seq::<Seq<char>>::empty() + Seq::<Seq<char>>::empty() + Seq::<Seq<char>>::empty() =~= Seq::<Seq<char>>::empty());
    assert(extraction(s1, rest1, marker) == Some(Seq::<Seq<char>>::empty()));
    assert(em + Seq::<Seq<char>>::empty() =~= em);
}

/// The end of the physical line that starts at `pos`.
fn line_end(dump: &[u8], pos: usize) -> (r: usize)
    requires
        pos <= dump@.len(),
    ensures
        pos <= r <= dump@.len(),
        r - pos == line_len(dump@.skip(pos as int)),
{
    let mut i = pos;
    while i < dump.len() && dump[i] != NEWLINE
        invariant
            pos <= i <= dump@.len(),
            line_len(dump@.skip(pos as int)) == (i - pos) + line_len(dump@.skip(i as int)),
        decreases dump@.len() - i,
    {
        assert(dump@.skip(i as int).drop_first() =~= dump@.skip(i + 1));
        i = i + 1;
    }
    if i < dump.len() {
        i + 1
    } else {
        i
    }
}

/// Extracts the comment lines and statements of a dump, in order.
///
/// Lines are read one by one; a line that starts with `comment_chars` is
/// emitted as it stands, other lines accumulate into the pending statement,
/// which a line ending with the separator or a blank line flushes. Once the
/// bytes are used up, reads come back empty, and extraction ends on the read
/// that makes more than `MAX_UNPRODUCTIVE_READS` unproductive reads in a row.
pub fn list_queries_from_dump_reader(dump: &[u8], comment_chars: &str) -> (r: Result<
    Vec<String>,
    DumpFileError,
>)
    ensures
        r is Ok <==> extraction(initial_state(), dump@, comment_chars.spec_bytes()) is Some,
        r matches Ok(v) ==> texts(v@) == extraction(initial_state(), dump@, comment_chars.spec_bytes())->0,
        r matches Err(e) ==> e is DecodeError,
{
    let ghost marker = comment_chars.spec_bytes();
    let ghost whole = extraction(initial_state(), dump@, marker);
    let mut ex = StatementExtractor::new(comment_chars);
    let mut out: Vec<String> = Vec::new();
    let mut pos: usize = 0;
    assert(dump@.skip(0) =~= dump@);
    loop
        invariant
            pos <= dump@.len(),
            marker == comment_chars.spec_bytes(),
            whole == extraction(initial_state(), dump@, marker),
            ex.marker() == marker,
            !is_exhausted(ex@),
            whole == match extraction(ex@, dump@.skip(pos as int), marker) {
                None => None,
                Some(more) => Some(texts(out@) + more),
            },
        decreases dump@.len() - pos, MAX_UNPRODUCTIVE_READS + 1 - ex.unproductive,
    {
        let ghost s0 = ex@;
        let ghost rest = dump@.skip(pos as int);
        let end = line_end(dump, pos);
        let line = slice_subrange(dump, pos, end);
        assert(line@ =~= next_line(rest));
        assert(dump@.skip(end as int) =~= rest.skip(line@.len() as int));
        let fed = ex.feed_line(line);
        assert(extraction(s0, rest, marker) == match step_output(s0, line@, marker) {
            None => None,
            Some(em) => match extraction(ex@, dump@.skip(end as int), marker) {
                None => None,
                Some(more) => Some(em + more),
            },
        });
        match fed {
            Err(e) => {
                return Err(e);
            },
            Ok(mut em) => {
                let ghost before = texts(out@);
                let ghost emitted = texts(em@);
                out.append(&mut em);
                assert(texts(out@) =~= before + emitted);
                proof {
                    match extraction(ex@, dump@.skip(end as int), marker) {
                        None => {},
                        Some(more) => {
                            assert(before + (emitted + more) =~= texts(out@) + more);
                        },
                    }
                }
            },
        }
        pos = end;
        if ex.is_finished() {
            assert(texts(out@) + Seq::<Seq<char>>::empty() =~= texts(out@));
            return Ok(out);
        }
    }
}

} // verus!
