//! The lexer: turns raw specification bytes into a finite stream of
//! tokens, given a configurable marker syntax.

use vstd::prelude::*;
use vstd::slice::{slice_subrange, slice_to_vec};
use vstd::utf8::{decode_utf8, valid_utf8};
use crate::err::{At, LexError, LexErrorV};
use crate::pos::FilePosition;
use crate::trusted::bytes_to_string;

verus! {

/// Lexing result: a value or a positioned lexical error.
pub type LexResult<T> = Result<T, At<LexError>>;

// ---------------------------------------------------------------------
// Byte-scanning spec functions
// ---------------------------------------------------------------------

/// True when `pat` occurs in `input` starting at index `i`.
pub open spec fn starts_at(input: Seq<u8>, i: int, pat: Seq<u8>) -> bool {
    0 <= i && i + pat.len() <= input.len() && input.subrange(i, i + pat.len()) == pat
}

/// Width of the line terminator at index `i` of `input`: 1 for `\n`,
/// 2 for `\r\n`, 0 when no terminator starts there (or at end of input).
pub open spec fn nl_width_at(input: Seq<u8>, i: int) -> int {
    if starts_at(input, i, seq![10u8]) {
        1
    } else if starts_at(input, i, seq![13u8, 10u8]) {
        2
    } else {
        0
    }
}

/// The first index at or after `i` where a line terminator starts, or
/// the length of `input` when the rest of the input has none.
pub open spec fn line_end_from(input: Seq<u8>, i: int) -> int
    decreases input.len() - i,
{
    if i < 0 || i >= input.len() {
        input.len() as int
    } else if nl_width_at(input, i) > 0 {
        i
    } else {
        line_end_from(input, i + 1)
    }
}

/// Where a scan for the terminator `term` stops: the first index at or
/// after `i` holding a line terminator or an occurrence of `term`, or
/// the length of `input`.  Line terminators take priority over `term`.
pub open spec fn term_stop_from(input: Seq<u8>, i: int, term: Seq<u8>) -> int
    decreases input.len() - i,
{
    if i < 0 || i >= input.len() {
        input.len() as int
    } else if nl_width_at(input, i) > 0 {
        i
    } else if starts_at(input, i, term) {
        i
    } else {
        term_stop_from(input, i + 1, term)
    }
}

/// True when the scan for `term` stops at an occurrence of `term`
/// rather than at a line terminator or the end of input.
pub open spec fn term_found(input: Seq<u8>, i: int, term: Seq<u8>) -> bool {
    let j = term_stop_from(input, i, term);
    j < input.len() && nl_width_at(input, j) == 0
}

/// Basic bounds of `line_end_from`.
pub proof fn lemma_line_end_from(input: Seq<u8>, i: int)
    requires
        0 <= i <= input.len(),
    ensures
        i <= line_end_from(input, i) <= input.len(),
        line_end_from(input, i) < input.len() ==> nl_width_at(input, line_end_from(input, i)) > 0,
        forall|k: int|
            i <= k < line_end_from(input, i) ==> nl_width_at(input, k) == 0,
    decreases input.len() - i,
{
    if i < input.len() && nl_width_at(input, i) == 0 {
        lemma_line_end_from(input, i + 1);
    }
}

/// Basic bounds of `term_stop_from`: the stop index lies between `i`
/// and the end of input, and when the scan stops before a position
/// with no line terminator, `term` occurs there.
pub proof fn lemma_term_stop_from(input: Seq<u8>, i: int, term: Seq<u8>)
    requires
        0 <= i <= input.len(),
    ensures
        i <= term_stop_from(input, i, term) <= input.len(),
        term_found(input, i, term) ==> starts_at(input, term_stop_from(input, i, term), term),
    decreases input.len() - i,
{
    if i < input.len() && nl_width_at(input, i) == 0 && !starts_at(input, i, term) {
        lemma_term_stop_from(input, i + 1, term);
    }
}

/// True for the blank bytes stripped by trimming: space and tab.
pub open spec fn is_blank(b: u8) -> bool {
    b == 32 || b == 9
}

/// Index of the first non-blank byte in `input[lo..hi]`, or `hi`.
pub open spec fn trim_start_from(input: Seq<u8>, lo: int, hi: int) -> int
    decreases hi - lo,
{
    if lo < hi && 0 <= lo < input.len() && is_blank(input[lo]) {
        trim_start_from(input, lo + 1, hi)
    } else {
        lo
    }
}

/// One past the last non-blank byte in `input[lo..hi]`, or `lo`.
pub open spec fn trim_end_from(input: Seq<u8>, lo: int, hi: int) -> int
    decreases hi - lo,
{
    if hi > lo && 0 < hi <= input.len() && is_blank(input[hi - 1]) {
        trim_end_from(input, lo, hi - 1)
    } else {
        hi
    }
}

proof fn lemma_trim_start_bounds(input: Seq<u8>, lo: int, hi: int)
    requires
        0 <= lo <= hi <= input.len(),
    ensures
        lo <= trim_start_from(input, lo, hi) <= hi,
    decreases hi - lo,
{
    if lo < hi && is_blank(input[lo]) {
        lemma_trim_start_bounds(input, lo + 1, hi);
    }
}

proof fn lemma_trim_end_bounds(input: Seq<u8>, lo: int, hi: int)
    requires
        0 <= lo <= hi <= input.len(),
    ensures
        lo <= trim_end_from(input, lo, hi) <= hi,
    decreases hi - lo,
{
    if hi > lo && is_blank(input[hi - 1]) {
        lemma_trim_end_bounds(input, lo, hi - 1);
    }
}

// ---------------------------------------------------------------------
// Executable scanning helpers
// ---------------------------------------------------------------------

/// True when `input` continues with `pat` at offset `i`.
pub(crate) fn starts_with_at(input: &[u8], i: usize, pat: &[u8]) -> (r: bool)
    requires
        i <= input@.len(),
    ensures
        r == starts_at(input@, i as int, pat@),
{
    let n = pat.len();
    let ilen = input.len();
    if n > ilen - i {
        assert(!starts_at(input@, i as int, pat@));
        return false;
    }
    let mut k: usize = 0;
    while k < n
        invariant
            0 <= k <= n,
            i + n <= ilen,
            ilen == input@.len(),
            n == pat@.len(),
            forall|m: int| 0 <= m < k ==> input@[i + m] == pat@[m],
        decreases n - k,
    {
        if input[i + k] != pat[k] {
            assert(input@.subrange(i as int, i + n) != pat@) by {
                assert(input@.subrange(i as int, i + n)[k as int] != pat@[k as int]);
            }
            return false;
        }
        k = k + 1;
    }
    assert(input@.subrange(i as int, i + n) =~= pat@);
    true
}

/// Width of the line terminator at offset `i`, 0 when none starts there.
pub(crate) fn nl_width(input: &[u8], i: usize) -> (r: usize)
    requires
        i <= input@.len(),
    ensures
        r as int == nl_width_at(input@, i as int),
{
    if i < input.len() && input[i] == 10u8 {
        assert(starts_at(input@, i as int, seq![10u8])) by {
            assert(input@.subrange(i as int, i + 1) =~= seq![10u8]);
        }
        1
    } else if i < input.len() && input[i] == 13u8 && i + 1 < input.len() && input[i + 1] == 10u8 {
        assert(!starts_at(input@, i as int, seq![10u8])) by {
            if starts_at(input@, i as int, seq![10u8]) {
                assert(input@.subrange(i as int, i + 1)[0] == 10u8);
            }
        }
        assert(starts_at(input@, i as int, seq![13u8, 10u8])) by {
            assert(input@.subrange(i as int, i + 2) =~= seq![13u8, 10u8]);
        }
        2
    } else {
        proof {
            if starts_at(input@, i as int, seq![10u8]) {
                assert(input@.subrange(i as int, i + 1)[0] == 10u8);
                assert(false);
            }
            if starts_at(input@, i as int, seq![13u8, 10u8]) {
                assert(input@.subrange(i as int, i + 2)[0] == 13u8);
                assert(input@.subrange(i as int, i + 2)[1] == 10u8);
                assert(false);
            }
        }
        0
    }
}

/// If a line terminator starts at the cursor, consume it and report
/// success; otherwise leave the cursor alone.
pub fn check_new_line(cursor: &mut FilePosition, input: &[u8]) -> (r: bool)
    requires
        old(cursor).wf(),
        old(cursor).byte <= input@.len(),
    ensures
        r == (nl_width_at(input@, old(cursor).byte as int) > 0),
        *final(cursor) == old(cursor).spec_next_line(nl_width_at(input@, old(cursor).byte as int)),
        final(cursor).wf(),
        final(cursor).byte <= input@.len(),
    {
    let ilen = input.len();
    let w = nl_width(input, cursor.byte);
    proof {
        if nl_width_at(input@, cursor.byte as int) == 1 {
            assert(input@.subrange(cursor.byte as int, cursor.byte + 1).len() == 1);
        }
        if nl_width_at(input@, cursor.byte as int) == 2 {
            assert(input@.subrange(cursor.byte as int, cursor.byte + 2).len() == 2);
        }
        assert(cursor.byte + w <= ilen);
    }
    if w > 0 {
        cursor.next_line(w);
        true
    } else {
        false
    }
}

/// If `other` occurs at the cursor, consume it and report success;
/// otherwise leave the cursor alone.
pub fn check_exact_bytes(cursor: &mut FilePosition, input: &[u8], other: &[u8]) -> (r: bool)
    requires
        old(cursor).wf(),
        old(cursor).byte <= input@.len(),
    ensures
        r == starts_at(input@, old(cursor).byte as int, other@),
        r ==> *final(cursor) == old(cursor).spec_advanced(other@.len() as int),
        !r ==> *final(cursor) == *old(cursor),
        final(cursor).wf(),
        final(cursor).byte <= input@.len(),
{
    let ilen = input.len();
    if starts_with_at(input, cursor.byte, other) {
        assert(cursor.byte + other@.len() <= ilen);
        cursor.advance(other.len());
        true
    } else {
        false
    }
}

/// True when the cursor has reached the end of the input.
pub fn check_eof(cursor: &mut FilePosition, input: &[u8]) -> (r: bool)
    ensures
        *final(cursor) == *old(cursor),
        r == (old(cursor).byte >= input@.len()),
{
    cursor.byte >= input.len()
}

// ---------------------------------------------------------------------
// Scanned regions
// ---------------------------------------------------------------------

/// A scanned region of the input: the bytes plus the span they occupy.
pub struct Contents<'a> {
    /// The scanned bytes.
    pub slice: &'a [u8],
    /// Position of the first scanned byte.
    pub lo: FilePosition,
    /// One byte past the last scanned byte.
    pub hi: FilePosition,
}

impl<'a> Contents<'a> {
    /// The region of `input` between the byte offsets of `lo` and `hi`.
    pub fn new<'r>(input: &'r [u8], lo: FilePosition, hi: FilePosition) -> (r: Contents<'r>)
        requires
            lo.byte <= hi.byte <= input@.len(),
        ensures
            r.slice@ == input@.subrange(lo.byte as int, hi.byte as int),
            r.lo == lo,
            r.hi == hi,
    {
        Contents { slice: slice_subrange(input, lo.byte, hi.byte), lo, hi }
    }

    /// The same region with blanks (spaces and tabs) stripped from both
    /// ends, its span narrowed accordingly.
    pub fn trimmed(self) -> (r: Contents<'a>)
        requires
            self.lo.wf(),
            self.lo.byte + self.slice@.len() <= usize::MAX,
        ensures
            ({
                let s = trim_start_from(self.slice@, 0, self.slice@.len() as int);
                let e = trim_end_from(self.slice@, s, self.slice@.len() as int);
                r.slice@ == self.slice@.subrange(s, e) && r.lo == self.lo.spec_advanced(s)
                    && r.hi == self.lo.spec_advanced(e)
            }),
    {
        let ghost orig = self.slice@;
        let n = self.slice.len();
        let mut start: usize = 0;
        let mut end: usize = n;
        proof {
            lemma_trim_start_bounds(orig, 0, n as int);
        }
        while start < end && (self.slice[start] == 32u8 || self.slice[start] == 9u8)
            invariant
                0 <= start <= end <= n,
                n == orig.len(),
                end == n,
                self.slice@ == orig,
                trim_start_from(orig, 0, n as int) == trim_start_from(orig, start as int, n as int),
                trim_start_from(orig, 0, n as int) >= start,
            decreases end - start,
        {
            proof {
                assert(trim_start_from(orig, start as int, n as int) == trim_start_from(
                    orig,
                    start + 1,
                    n as int,
                ));
                lemma_trim_start_bounds(orig, start + 1, n as int);
            }
            start = start + 1;
        }
        proof {
            assert(trim_start_from(orig, start as int, n as int) == start);
            lemma_trim_end_bounds(orig, start as int, n as int);
        }
        while end > start && (self.slice[end - 1] == 32u8 || self.slice[end - 1] == 9u8)
            invariant
                0 <= start <= end <= n,
                n == orig.len(),
                self.slice@ == orig,
                trim_end_from(orig, start as int, n as int) == trim_end_from(
                    orig,
                    start as int,
                    end as int,
                ),
                trim_end_from(orig, start as int, n as int) <= end,
            decreases end,
        {
            proof {
                assert(trim_end_from(orig, start as int, end as int) == trim_end_from(
                    orig,
                    start as int,
                    end - 1,
                ));
                lemma_trim_end_bounds(orig, start as int, end - 1);
            }
            end = end - 1;
        }
        proof {
            assert(trim_end_from(orig, start as int, end as int) == end);
        }
        Contents {
            slice: slice_subrange(self.slice, start, end),
            lo: self.lo.advanced(start),
            hi: self.lo.advanced(end),
        }
    }
}

/// How a terminated scan ended.
pub enum TermType {
    /// The terminator sequence was found and consumed.
    Sequence,
    /// The scan stopped at a line terminator or the end of input.
    EolOrEof,
}

/// Scan from the cursor to the end of the current line; the cursor ends
/// on the line terminator (or at end of input).
pub fn expect_text<'a>(cursor: &mut FilePosition, input: &'a [u8]) -> (r: LexResult<Contents<'a>>)
    requires
        old(cursor).wf(),
        old(cursor).byte <= input@.len(),
    ensures
        ({
            let j = line_end_from(input@, old(cursor).byte as int);
            r matches Ok(c) && c.slice@ == input@.subrange(old(cursor).byte as int, j) && c.lo
                == *old(cursor) && c.hi == old(cursor).spec_advanced(j - old(cursor).byte)
                && *final(cursor) == c.hi
        }),
        final(cursor).wf(),
        final(cursor).byte <= input@.len(),
{
    let ghost j = line_end_from(input@, cursor.byte as int);
    proof {
        lemma_line_end_from(input@, cursor.byte as int);
    }
    let start_cursor = *cursor;
    let ilen = input.len();
    let mut end: usize = cursor.byte;
    while end < ilen && nl_width(input, end) == 0
        invariant
            ilen == input@.len(),
            start_cursor.byte <= end <= ilen,
            j == line_end_from(input@, end as int),
            j == line_end_from(input@, start_cursor.byte as int),
            end <= j,
        decreases ilen - end,
    {
        proof {
            lemma_line_end_from(input@, end + 1);
        }
        end = end + 1;
    }
    proof {
        assert(line_end_from(input@, end as int) == end);
    }
    cursor.advance(end - start_cursor.byte);
    Ok(Contents::new(input, start_cursor, *cursor))
}

/// Scan from the cursor until `term_sequence`, a line terminator or the
/// end of input; on finding `term_sequence` the cursor moves past it,
/// otherwise it stops where the scan stopped.
pub fn expect_terminated_text<'a, 'e>(
    cursor: &mut FilePosition,
    input: &'a [u8],
    term_sequence: &'e [u8],
) -> (r: LexResult<(Contents<'a>, TermType)>)
    requires
        old(cursor).wf(),
        old(cursor).byte <= input@.len(),
    ensures
        ({
            let j = term_stop_from(input@, old(cursor).byte as int, term_sequence@);
            let found = term_found(input@, old(cursor).byte as int, term_sequence@);
            r matches Ok(c) && c.0.slice@ == input@.subrange(old(cursor).byte as int, j) && c.0.lo
                == *old(cursor) && c.0.hi == old(cursor).spec_advanced(j - old(cursor).byte) && (
            if found {
                c.1 is Sequence && *final(cursor) == old(cursor).spec_advanced(
                    j - old(cursor).byte + term_sequence@.len(),
                )
            } else {
                c.1 is EolOrEof && *final(cursor) == c.0.hi
            })
        }),
        final(cursor).wf(),
        final(cursor).byte <= input@.len(),
{
    let ghost j = term_stop_from(input@, cursor.byte as int, term_sequence@);
    let ghost found = term_found(input@, cursor.byte as int, term_sequence@);
    proof {
        lemma_term_stop_from(input@, cursor.byte as int, term_sequence@);
    }
    let start_cursor = *cursor;
    let ilen = input.len();
    let mut end: usize = cursor.byte;
    loop
        invariant
            ilen == input@.len(),
            start_cursor.wf(),
            *cursor == start_cursor,
            start_cursor == *old(cursor),
            start_cursor.byte <= end <= ilen,
            j == term_stop_from(input@, end as int, term_sequence@),
            j == term_stop_from(input@, start_cursor.byte as int, term_sequence@),
            found == term_found(input@, start_cursor.byte as int, term_sequence@),
            end <= j,
        ensures
            j == end,
            !found,
            end <= ilen,
            *cursor == start_cursor,
        decreases ilen - end,
    {
        if end >= ilen || nl_width(input, end) > 0 {
            proof {
                assert(term_stop_from(input@, end as int, term_sequence@) == end);
                assert(!found);
            }
            break;
        }
        if starts_with_at(input, end, term_sequence) {
            proof {
                assert(term_stop_from(input@, end as int, term_sequence@) == end);
                assert(j == end && found);
                assert(end + term_sequence@.len() <= ilen);
            }
            let end_cursor = cursor.advanced(end - start_cursor.byte);
            cursor.advance(end - start_cursor.byte + term_sequence.len());
            return Ok((Contents::new(input, start_cursor, end_cursor), TermType::Sequence));
        }
        proof {
            lemma_term_stop_from(input@, end + 1, term_sequence@);
        }
        end = end + 1;
    }
    cursor.advance(end - start_cursor.byte);
    return Ok((Contents::new(input, start_cursor, *cursor), TermType::EolOrEof));
}

} // verus!

verus! {

// ---------------------------------------------------------------------
// Tokens
// ---------------------------------------------------------------------

/// Ghost mirror of `TokenValue`, with character-sequence payloads.
pub ghost enum TokenValueV {
    Key(Seq<char>),
    Value(Seq<char>),
    MatchAnyNumberOfLines,
    MatchNewline,
    MatchText(Seq<char>),
    Var(Seq<char>),
}

/// A lexer token value.
#[derive(Debug, PartialEq, Eq)]
pub enum TokenValue {
    /// A parameter key, from a marker line.
    Key(String),
    /// A parameter value, following a key and a colon.
    Value(String),
    /// The wildcard: match any number of lines.
    MatchAnyNumberOfLines,
    /// A line boundary between two content lines.
    MatchNewline,
    /// A literal text run to match.
    MatchText(String),
    /// A variable reference.
    Var(String),
}

impl View for TokenValue {
    type V = TokenValueV;

    open spec fn view(&self) -> TokenValueV {
        match self {
            TokenValue::Key(s) => TokenValueV::Key(s@),
            TokenValue::Value(s) => TokenValueV::Value(s@),
            TokenValue::MatchAnyNumberOfLines => TokenValueV::MatchAnyNumberOfLines,
            TokenValue::MatchNewline => TokenValueV::MatchNewline,
            TokenValue::MatchText(s) => TokenValueV::MatchText(s@),
            TokenValue::Var(s) => TokenValueV::Var(s@),
        }
    }
}

/// Ghost mirror of `TokenRef`.
pub ghost struct TokenRefV {
    pub value: TokenValueV,
    pub lo: FilePosition,
    pub hi: FilePosition,
}

/// A token together with the span it was produced from.
#[derive(Debug, PartialEq, Eq)]
pub struct TokenRef {
    /// The token value.
    pub value: TokenValue,
    /// The position at which this token starts.
    pub lo: FilePosition,
    /// One byte beyond the last byte of this token.
    pub hi: FilePosition,
}

impl View for TokenRef {
    type V = TokenRefV;

    open spec fn view(&self) -> TokenRefV {
        TokenRefV { value: self.value@, lo: self.lo, hi: self.hi }
    }
}

/// Ghost mirror of `Options`.
pub ghost struct OptionsV {
    pub skip_lines: Seq<u8>,
    pub marker: Seq<u8>,
    pub var_start: Seq<u8>,
    pub var_end: Seq<u8>,
}

impl OptionsV {
    /// All four marker sequences are nonempty; with an empty marker the
    /// lexer could make no progress.
    pub open spec fn wf(self) -> bool {
        self.skip_lines.len() > 0 && self.marker.len() > 0 && self.var_start.len() > 0
            && self.var_end.len() > 0
    }
}

/// Lexer options: the marker byte sequences of the template syntax.
#[derive(Copy, Clone, Debug)]
pub struct Options<'a> {
    /// Content that marks "match any number of lines" when alone on a line.
    pub skip_lines: &'a [u8],
    /// Prefix marking a line as a parameter line.
    pub marker: &'a [u8],
    /// Prefix opening a variable reference.
    pub var_start: &'a [u8],
    /// Suffix closing a variable reference.
    pub var_end: &'a [u8],
}

impl<'a> View for Options<'a> {
    type V = OptionsV;

    open spec fn view(&self) -> OptionsV {
        OptionsV {
            skip_lines: self.skip_lines@,
            marker: self.marker@,
            var_start: self.var_start@,
            var_end: self.var_end@,
        }
    }
}

/// The lexer's per-line state machine states.
#[derive(Copy, Clone, Debug)]
pub enum LexState {
    /// At the start of a line; `content_line_end` holds the span of the
    /// line terminator closing a preceding content line, if any.
    LineStart { content_line_end: Option<(FilePosition, FilePosition)> },
    /// After a parameter marker, scanning the key.
    ParamKey,
    /// After the key's colon, scanning the value.
    ParamValue,
    /// At the start of a line's content.
    ContentStart { content_line_end: Option<(FilePosition, FilePosition)> },
    /// Inside a variable reference, scanning to its closing marker.
    Var,
    /// Scanning content after the start of the line.
    ContentContinued,
    /// At the end of a content line.
    ContentEol,
    /// At the end of a parameter or wildcard line.
    Eol,
}

/// Ranks the states that can follow each other without consuming
/// input, so that lexing terminates.
pub open spec fn rank(st: LexState) -> int {
    match st {
        LexState::LineStart { .. } => 6,
        LexState::ContentStart { .. } => 5,
        LexState::ContentContinued => 4,
        LexState::ContentEol => 3,
        LexState::ParamKey => 3,
        LexState::ParamValue => 2,
        LexState::Eol => 1,
        LexState::Var => 0,
    }
}

/// The token stream a lexer run produces: the tokens up to the first
/// lexical error, and that error if one occurs.
pub type LexStream = (Seq<TokenRefV>, Option<At<LexErrorV>>);

/// The trimmed payload of the region `[cur.byte, j)` of `input`,
/// together with its narrowed span.
pub open spec fn trim_region(input: Seq<u8>, cur: FilePosition, j: int) -> (
    Seq<u8>,
    FilePosition,
    FilePosition,
) {
    let sl = input.subrange(cur.byte as int, j);
    let s = trim_start_from(sl, 0, sl.len() as int);
    let e = trim_end_from(sl, s, sl.len() as int);
    (sl.subrange(s, e), cur.spec_advanced(s), cur.spec_advanced(e))
}

/// Prepend one token to a stream.
pub open spec fn stream_cons(tok: TokenRefV, rest: LexStream) -> LexStream {
    (seq![tok] + rest.0, rest.1)
}

/// The full token stream from lexer state `st` at position `cur`.
///
/// This is the reference semantics of the lexer: one recursive case per
/// state-machine transition, producing the same tokens, spans and
/// errors as the executable lexer.
pub open spec fn spec_lex(o: OptionsV, input: Seq<u8>, st: LexState, cur: FilePosition) -> LexStream
    decreases input.len() - cur.byte, rank(st),
        when cur.byte <= input.len() && input.len() <= usize::MAX && o.var_end.len() > 0
        via spec_lex_dec
{
    match st {
        LexState::LineStart { content_line_end } => {
            if starts_at(input, cur.byte as int, o.marker) {
                spec_lex(o, input, LexState::ParamKey, cur.spec_advanced(o.marker.len() as int))
            } else {
                spec_lex(o, input, LexState::ContentStart { content_line_end }, cur)
            }
        },
        LexState::ParamKey => {
            let j = term_stop_from(input, cur.byte as int, seq![58u8]);
            let found = term_found(input, cur.byte as int, seq![58u8]);
            let t = trim_region(input, cur, j);
            if !valid_utf8(t.0) {
                (seq![], Some(At { lo: t.1, hi: t.2, desc: LexErrorV::Utf8 }))
            } else {
                stream_cons(
                    TokenRefV { value: TokenValueV::Key(decode_utf8(t.0)), lo: t.1, hi: t.2 },
                    if found {
                        spec_lex(
                            o,
                            input,
                            LexState::ParamValue,
                            cur.spec_advanced(j - cur.byte + 1),
                        )
                    } else {
                        spec_lex(o, input, LexState::Eol, cur.spec_advanced(j - cur.byte))
                    },
                )
            }
        },
        LexState::ParamValue => {
            let j = line_end_from(input, cur.byte as int);
            let t = trim_region(input, cur, j);
            if !valid_utf8(t.0) {
                (seq![], Some(At { lo: t.1, hi: t.2, desc: LexErrorV::Utf8 }))
            } else {
                stream_cons(
                    TokenRefV { value: TokenValueV::Value(decode_utf8(t.0)), lo: t.1, hi: t.2 },
                    spec_lex(o, input, LexState::Eol, cur.spec_advanced(j - cur.byte)),
                )
            }
        },
        LexState::ContentStart { content_line_end } => {
            if starts_at(input, cur.byte as int, o.skip_lines) {
                let cur1 = cur.spec_advanced(o.skip_lines.len() as int);
                let w = nl_width_at(input, cur1.byte as int);
                if w > 0 {
                    stream_cons(
                        TokenRefV {
                            value: TokenValueV::MatchAnyNumberOfLines,
                            lo: cur1,
                            hi: cur1,
                        },
                        spec_lex(
                            o,
                            input,
                            LexState::LineStart { content_line_end: None },
                            cur1.spec_next_line(w),
                        ),
                    )
                } else if cur1.byte == input.len() {
                    stream_cons(
                        TokenRefV {
                            value: TokenValueV::MatchAnyNumberOfLines,
                            lo: cur1,
                            hi: cur1,
                        },
                        spec_lex(o, input, LexState::Eol, cur1),
                    )
                } else {
                    (seq![], Some(At { lo: cur1, hi: cur1, desc: LexErrorV::ExpectedNewline }))
                }
            } else {
                if content_line_end matches Some((nl_lo, nl_hi)) && cur.byte < input.len() {
                    stream_cons(
                        TokenRefV {
                            value: TokenValueV::MatchNewline,
                            lo: (content_line_end->0).0,
                            hi: (content_line_end->0).1,
                        },
                        spec_lex(o, input, LexState::ContentContinued, cur),
                    )
                } else {
                    spec_lex(o, input, LexState::ContentContinued, cur)
                }
            }
        },
        LexState::Var => {
            let j = term_stop_from(input, cur.byte as int, o.var_end);
            let found = term_found(input, cur.byte as int, o.var_end);
            if !found {
                let cur2 = cur.spec_advanced(j - cur.byte);
                (
                    seq![],
                    Some(
                        At {
                            lo: cur2,
                            hi: cur2,
                            desc: LexErrorV::ExpectedSequenceFoundNewline { expected: o.var_end },
                        },
                    ),
                )
            } else {
                let t = trim_region(input, cur, j);
                if !valid_utf8(t.0) {
                    (seq![], Some(At { lo: t.1, hi: t.2, desc: LexErrorV::Utf8 }))
                } else {
                    stream_cons(
                        TokenRefV { value: TokenValueV::Var(decode_utf8(t.0)), lo: t.1, hi: t.2 },
                        spec_lex(
                            o,
                            input,
                            LexState::ContentContinued,
                            cur.spec_advanced(j - cur.byte + o.var_end.len()),
                        ),
                    )
                }
            }
        },
        LexState::ContentContinued => {
            let j = term_stop_from(input, cur.byte as int, o.var_start);
            let found = term_found(input, cur.byte as int, o.var_start);
            let sl = input.subrange(cur.byte as int, j);
            let hi = cur.spec_advanced(j - cur.byte);
            let cur2 = if found {
                cur.spec_advanced(j - cur.byte + o.var_start.len())
            } else {
                hi
            };
            let next = if found {
                LexState::Var
            } else {
                LexState::ContentEol
            };
            if j > cur.byte {
                if !valid_utf8(sl) {
                    (seq![], Some(At { lo: cur, hi, desc: LexErrorV::Utf8 }))
                } else {
                    stream_cons(
                        TokenRefV { value: TokenValueV::MatchText(decode_utf8(sl)), lo: cur, hi },
                        spec_lex(o, input, next, cur2),
                    )
                }
            } else {
                spec_lex(o, input, next, cur2)
            }
        },
        LexState::ContentEol => {
            let w = nl_width_at(input, cur.byte as int);
            if w > 0 {
                spec_lex(
                    o,
                    input,
                    LexState::LineStart {
                        content_line_end: Some((cur, cur.spec_next_line(w))),
                    },
                    cur.spec_next_line(w),
                )
            } else {
                (seq![], None)
            }
        },
        LexState::Eol => {
            let w = nl_width_at(input, cur.byte as int);
            if w > 0 {
                spec_lex(o, input, LexState::LineStart { content_line_end: None }, cur.spec_next_line(w))
            } else {
                (seq![], None)
            }
        },
    }
}

#[via_fn]
proof fn spec_lex_dec(o: OptionsV, input: Seq<u8>, st: LexState, cur: FilePosition) {
    match st {
        LexState::ParamKey => {
            lemma_term_stop_from(input, cur.byte as int, seq![58u8]);
        },
        LexState::ParamValue => {
            lemma_line_end_from(input, cur.byte as int);
        },
        LexState::Var => {
            lemma_term_stop_from(input, cur.byte as int, o.var_end);
        },
        LexState::ContentContinued => {
            lemma_term_stop_from(input, cur.byte as int, o.var_start);
        },
        _ => {},
    }
}

} // verus!

verus! {

/// The views of a sequence of tokens.
pub open spec fn toks_view(v: Seq<TokenRef>) -> Seq<TokenRefV> {
    v.map_values(|t: TokenRef| t@)
}

/// The view of an optional positioned lexical error.
pub open spec fn err_view(e: Option<At<LexError>>) -> Option<At<LexErrorV>> {
    match e {
        Some(x) => Some(x@),
        None => None,
    }
}

proof fn lemma_toks_cons(t: TokenRef, rest: Seq<TokenRef>)
    ensures
        toks_view(seq![t] + rest) == seq![t@] + toks_view(rest),
{
    assert(toks_view(seq![t] + rest) =~= seq![t@] + toks_view(rest));
}

/// The single-byte terminator of a parameter key.
fn key_terminator() -> (r: Vec<u8>)
    ensures
        r@ == seq![58u8],
{
    let mut v: Vec<u8> = Vec::new();
    v.push(58u8);
    proof {
        assert(v@ =~= seq![58u8]);
    }
    v
}

/// Produce the whole remaining token stream from lexer state `state`
/// at position `cursor`: the tokens up to the first lexical error, and
/// that error if one occurs.
#[verifier::rlimit(100)]
fn lex_from(options: Options, input: &[u8], state: LexState, cursor: FilePosition) -> (r: (
    Vec<TokenRef>,
    Option<At<LexError>>,
))
    requires
        options@.wf(),
        cursor.wf(),
        cursor.byte <= input@.len(),
    ensures
        (toks_view(r.0@), err_view(r.1)) == spec_lex(options@, input@, state, cursor),
    decreases input@.len() - cursor.byte, rank(state),
{
    let ilen = input.len();
    proof {
        assert(toks_view(Seq::<TokenRef>::empty()) =~= Seq::<TokenRefV>::empty());
    }
    match state {
        LexState::LineStart { content_line_end } => {
            let mut cur = cursor;
            if check_exact_bytes(&mut cur, input, options.marker) {
                lex_from(options, input, LexState::ParamKey, cur)
            } else {
                lex_from(options, input, LexState::ContentStart { content_line_end }, cur)
            }
        },
        LexState::ParamKey => {
            let mut cur = cursor;
            proof {
                lemma_term_stop_from(input@, cursor.byte as int, seq![58u8]);
            }
            let colon_v = key_terminator();
            let (contents, termination) = match expect_terminated_text(
                &mut cur,
                input,
                colon_v.as_slice(),
            ) {
                Ok(x) => x,
                Err(e) => {
                    return (Vec::new(), Some(e));
                },
            };
            let trimmed = contents.trimmed();
            match bytes_to_string(slice_to_vec(trimmed.slice)) {
                None => (Vec::new(), Some(LexError::Utf8.at(trimmed.lo, trimmed.hi))),
                Some(s) => {
                    let tok = TokenRef { value: TokenValue::Key(s), lo: trimmed.lo, hi: trimmed.hi };
                    let next = match termination {
                        TermType::EolOrEof => LexState::Eol,
                        TermType::Sequence => LexState::ParamValue,
                    };
                    let (mut rest, err) = lex_from(options, input, next, cur);
                    proof {
                        lemma_toks_cons(tok, rest@);
                    }
                    let mut v: Vec<TokenRef> = Vec::new();
                    v.push(tok);
                    let ghost one = v@;
                    v.append(&mut rest);
                    proof {
                        assert(one =~= seq![tok]);
                    }
                    (v, err)
                },
            }
        },
        LexState::ParamValue => {
            let mut cur = cursor;
            proof {
                lemma_line_end_from(input@, cursor.byte as int);
            }
            let contents = match expect_text(&mut cur, input) {
                Ok(x) => x,
                Err(e) => {
                    return (Vec::new(), Some(e));
                },
            };
            let trimmed = contents.trimmed();
            match bytes_to_string(slice_to_vec(trimmed.slice)) {
                None => (Vec::new(), Some(LexError::Utf8.at(trimmed.lo, trimmed.hi))),
                Some(s) => {
                    let tok = TokenRef {
                        value: TokenValue::Value(s),
                        lo: trimmed.lo,
                        hi: trimmed.hi,
                    };
                    let (mut rest, err) = lex_from(options, input, LexState::Eol, cur);
                    proof {
                        lemma_toks_cons(tok, rest@);
                    }
                    let mut v: Vec<TokenRef> = Vec::new();
                    v.push(tok);
                    let ghost one = v@;
                    v.append(&mut rest);
                    proof {
                        assert(one =~= seq![tok]);
                    }
                    (v, err)
                },
            }
        },
        LexState::ContentStart { content_line_end } => {
            let mut cur = cursor;
            if check_exact_bytes(&mut cur, input, options.skip_lines) {
                let pos = cur;
                if check_new_line(&mut cur, input) {
                    let tok = TokenRef {
                        value: TokenValue::MatchAnyNumberOfLines,
                        lo: pos,
                        hi: pos,
                    };
                    let (mut rest, err) = lex_from(
                        options,
                        input,
                        LexState::LineStart { content_line_end: None },
                        cur,
                    );
                    proof {
                        lemma_toks_cons(tok, rest@);
                    }
                    let mut v: Vec<TokenRef> = Vec::new();
                    v.push(tok);
                    let ghost one = v@;
                    v.append(&mut rest);
                    proof {
                        assert(one =~= seq![tok]);
                    }
                    (v, err)
                } else {
                    if cur.byte == ilen {
                        let tok = TokenRef {
                            value: TokenValue::MatchAnyNumberOfLines,
                            lo: pos,
                            hi: pos,
                        };
                        let (mut rest, err) = lex_from(options, input, LexState::Eol, cur);
                        proof {
                            lemma_toks_cons(tok, rest@);
                        }
                        let mut v: Vec<TokenRef> = Vec::new();
                        v.push(tok);
                        let ghost one = v@;
                        v.append(&mut rest);
                        proof {
                            assert(one =~= seq![tok]);
                        }
                        (v, err)
                    } else {
                        (Vec::new(), Some(LexError::ExpectedNewline.at(cur, cur)))
                    }
                }
            } else {
                let mut v: Vec<TokenRef> = Vec::new();
                if let Some((nl_lo, nl_hi)) = content_line_end {
                    if cur.byte < ilen {
                        v.push(TokenRef { value: TokenValue::MatchNewline, lo: nl_lo, hi: nl_hi });
                    }
                }
                let ghost front = v@;
                let (mut rest, err) = lex_from(options, input, LexState::ContentContinued, cur);
                proof {
                    if front.len() == 1 {
                        lemma_toks_cons(v@[0], rest@);
                        assert(front =~= seq![v@[0]]);
                    } else {
                        assert(front =~= Seq::<TokenRef>::empty());
                        assert(Seq::<TokenRef>::empty() + rest@ =~= rest@);
                    }
                }
                v.append(&mut rest);
                (v, err)
            }
        },
        LexState::Var => {
            let mut cur = cursor;
            proof {
                lemma_term_stop_from(input@, cursor.byte as int, options.var_end@);
            }
            let (contents, termination) = match expect_terminated_text(
                &mut cur,
                input,
                options.var_end,
            ) {
                Ok(x) => x,
                Err(e) => {
                    return (Vec::new(), Some(e));
                },
            };
            match termination {
                TermType::EolOrEof => {
                    let e = LexError::ExpectedSequenceFoundNewline {
                        expected: slice_to_vec(options.var_end),
                    };
                    (Vec::new(), Some(e.at(cur, cur)))
                },
                TermType::Sequence => {
                    let trimmed = contents.trimmed();
                    match bytes_to_string(slice_to_vec(trimmed.slice)) {
                        None => (Vec::new(), Some(LexError::Utf8.at(trimmed.lo, trimmed.hi))),
                        Some(s) => {
                            let tok = TokenRef {
                                value: TokenValue::Var(s),
                                lo: trimmed.lo,
                                hi: trimmed.hi,
                            };
                            let (mut rest, err) = lex_from(
                                options,
                                input,
                                LexState::ContentContinued,
                                cur,
                            );
                            proof {
                                lemma_toks_cons(tok, rest@);
                            }
                            let mut v: Vec<TokenRef> = Vec::new();
                            v.push(tok);
                            let ghost one = v@;
                            v.append(&mut rest);
                            proof {
                                assert(one =~= seq![tok]);
                            }
                            (v, err)
                        },
                    }
                },
            }
        },
        LexState::ContentContinued => {
            let mut cur = cursor;
            proof {
                lemma_term_stop_from(input@, cursor.byte as int, options.var_start@);
            }
            let (contents, termination) = match expect_terminated_text(
                &mut cur,
                input,
                options.var_start,
            ) {
                Ok(x) => x,
                Err(e) => {
                    return (Vec::new(), Some(e));
                },
            };
            let next = match termination {
                TermType::EolOrEof => LexState::ContentEol,
                TermType::Sequence => LexState::Var,
            };
            if contents.slice.len() > 0 {
                match bytes_to_string(slice_to_vec(contents.slice)) {
                    None => (Vec::new(), Some(LexError::Utf8.at(contents.lo, contents.hi))),
                    Some(s) => {
                        let tok = TokenRef {
                            value: TokenValue::MatchText(s),
                            lo: contents.lo,
                            hi: contents.hi,
                        };
                        let (mut rest, err) = lex_from(options, input, next, cur);
                        proof {
                            lemma_toks_cons(tok, rest@);
                        }
                        let mut v: Vec<TokenRef> = Vec::new();
                        v.push(tok);
                        let ghost one = v@;
                        v.append(&mut rest);
                        proof {
                            assert(one =~= seq![tok]);
                        }
                        (v, err)
                    },
                }
            } else {
                lex_from(options, input, next, cur)
            }
        },
        LexState::ContentEol => {
            let lo = cursor;
            let mut cur = cursor;
            if check_new_line(&mut cur, input) {
                lex_from(
                    options,
                    input,
                    LexState::LineStart { content_line_end: Some((lo, cur)) },
                    cur,
                )
            } else {
                (Vec::new(), None)
            }
        },
        LexState::Eol => {
            let mut cur = cursor;
            if check_new_line(&mut cur, input) {
                lex_from(options, input, LexState::LineStart { content_line_end: None }, cur)
            } else {
                (Vec::new(), None)
            }
        },
    }
}

} // verus!

verus! {

/// The lexer's token stream: yields each token in order, then the
/// lexical error if the input has one, then nothing.
#[derive(Debug)]
pub struct Iter {
    /// Remaining tokens, stored in reverse order.
    rev_tokens: Vec<TokenRef>,
    /// The error that ends the stream, if any.
    error: Option<At<LexError>>,
}

impl View for Iter {
    type V = (Seq<TokenRefV>, Option<At<LexErrorV>>);

    closed spec fn view(&self) -> (Seq<TokenRefV>, Option<At<LexErrorV>>) {
        (toks_view(self.rev_tokens@.reverse()), err_view(self.error))
    }
}

impl Iter {
    /// The next event of the stream: a token while any remain, then
    /// the lexical error once if there is one, then nothing.
    pub fn next(&mut self) -> (r: Option<LexResult<TokenRef>>)
        ensures
            old(self)@.0.len() > 0 ==> (r matches Some(Ok(t)) && t@ == old(self)@.0[0]
                && final(self)@.0 == old(self)@.0.drop_first() && final(self)@.1 == old(self)@.1),
            old(self)@.0.len() == 0 && old(self)@.1 is Some ==> (r matches Some(Err(e)) && e@
                == old(self)@.1->0 && final(self)@.0.len() == 0 && final(self)@.1 is None),
            old(self)@.0.len() == 0 && old(self)@.1 is None ==> (r is None
                && final(self)@ == old(self)@),
    {
        let ghost rt = self.rev_tokens@;
        match self.rev_tokens.pop() {
            Some(t) => {
                proof {
                    assert(toks_view(rt.reverse())[0] == t@);
                    assert(toks_view(self.rev_tokens@.reverse()) =~= toks_view(
                        rt.reverse(),
                    ).drop_first());
                }
                Some(Ok(t))
            },
            None => {
                proof {
                    assert(rt.reverse().len() == 0);
                }
                match self.error.take() {
                    Some(e) => Some(Err(e)),
                    None => None,
                }
            },
        }
    }
}

impl Iter {
    /// Split the stream into its remaining tokens, in reverse order,
    /// and its ending error.
    pub(crate) fn into_parts(self) -> (r: (Vec<TokenRef>, Option<At<LexError>>))
        ensures
            (toks_view(r.0@.reverse()), err_view(r.1)) == self@,
    {
        (self.rev_tokens, self.error)
    }
}

/// Tokenize `input` under the marker syntax of `options`, producing a
/// finite stream holding the tokens up to the first lexical error and
/// then that error, if one occurs.
pub fn tokenize(options: Options, input: &[u8]) -> (r: Iter)
    requires
        options@.wf(),
    ensures
        r@ == spec_lex(
            options@,
            input@,
            LexState::LineStart { content_line_end: None },
            FilePosition { line: 0, col: 0, byte: 0 },
        ),
{
    let start = FilePosition::new();
    let (mut toks, error) = lex_from(
        options,
        input,
        LexState::LineStart { content_line_end: None },
        start,
    );
    let ghost orig = toks@;
    let mut rev_tokens: Vec<TokenRef> = Vec::new();
    while toks.len() > 0
        invariant
            rev_tokens@.len() + toks@.len() == orig.len(),
            toks@ == orig.subrange(0, toks@.len() as int),
            forall|i: int|
                0 <= i < rev_tokens@.len() ==> rev_tokens@[i] == orig[orig.len() - 1 - i],
        decreases toks@.len(),
    {
        let ghost tv = toks@;
        match toks.pop() {
            Some(t) => {
                proof {
                    assert(t == orig[tv.len() - 1]);
                    assert(toks@ =~= orig.subrange(0, toks@.len() as int));
                }
                rev_tokens.push(t);
            },
            None => {
                proof {
                    assert(false);
                }
            },
        }
    }
    proof {
        assert forall|i: int| 0 <= i < orig.len() implies rev_tokens@.reverse()[i] == orig[i] by {
            assert(rev_tokens@.reverse()[i] == rev_tokens@[rev_tokens@.len() - 1 - i]);
        }
        assert(rev_tokens@.reverse() =~= orig);
        assert(toks_view(rev_tokens@.reverse()) =~= toks_view(orig));
    }
    Iter { rev_tokens, error }
}

} // verus!
