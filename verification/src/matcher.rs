//! The line-group matcher: matches an item's template against target
//! contents, reconciling the "match any number of lines" wildcard with
//! literal lines while tracking positions for error reporting.

use vstd::prelude::*;
use vstd::slice::slice_subrange;
use vstd::utf8::encode_utf8;
use crate::ast::{template_view, Match, MatchV};
use crate::err::{At, TemplateMatchError, TemplateMatchErrorV};
use crate::lexer::{lemma_line_end_from, line_end_from, nl_width_at, starts_at};
use crate::pos::FilePosition;
use crate::template::{find_var, var_lookup, Item};
use crate::trusted::{bytes_to_string_lossy, lossy_decoded};

verus! {

// ---------------------------------------------------------------------
// Segmentation: group the template by line
// ---------------------------------------------------------------------

/// Ghost segment of a template: the wildcard, or the tokens of one
/// line.
pub ghost enum SegV {
    MultipleLines,
    Line(Seq<MatchV>),
}

/// The segment closing a pending line group, if one is open.
pub open spec fn close_group(prev: Option<Seq<MatchV>>) -> Seq<SegV> {
    match prev {
        Some(g) => seq![SegV::Line(g)],
        None => seq![],
    }
}

/// The segments of `t[i..]`, with `prev` the line group open so far: a
/// wildcard closes and emits the pending group; a line boundary closes
/// the pending group (an empty one if none is open) and opens a new
/// one; text and variable tokens extend the pending group.
pub open spec fn segs_from(t: Seq<MatchV>, i: int, prev: Option<Seq<MatchV>>) -> Seq<SegV>
    decreases t.len() - i,
{
    if i < 0 || i >= t.len() {
        close_group(prev)
    } else {
        match t[i] {
            MatchV::MultipleLines => close_group(prev) + seq![SegV::MultipleLines] + segs_from(
                t,
                i + 1,
                None,
            ),
            MatchV::NewLine => (match prev {
                Some(g) => seq![SegV::Line(g)],
                None => seq![SegV::Line(seq![])],
            }) + segs_from(t, i + 1, Some(seq![])),
            m => segs_from(
                t,
                i + 1,
                Some(
                    match prev {
                        Some(g) => g.push(m),
                        None => seq![m],
                    },
                ),
            ),
        }
    }
}

/// The line-group segmentation of a whole template.
pub open spec fn segments(t: Seq<MatchV>) -> Seq<SegV> {
    segs_from(t, 0, None)
}

// ---------------------------------------------------------------------
// Matching one line group
// ---------------------------------------------------------------------

/// Width of the line terminator at `i`, where the end of the content
/// counts as a terminator of width zero; `None` at a plain byte.
pub open spec fn match_nl(content: Seq<u8>, i: int) -> Option<int> {
    if i >= content.len() {
        Some(0)
    } else if nl_width_at(content, i) > 0 {
        Some(nl_width_at(content, i))
    } else {
        None
    }
}

/// How matching one line group ends.
pub ghost enum LineResV {
    /// Every token matched; `end` is the position after the consumed
    /// text and `nl` the width of the terminator that follows it.
    Matched { end: FilePosition, nl: int },
    /// The expected text does not occur at `pos`.
    ErrText { pos: FilePosition, expected: Seq<char> },
    /// The variable `key` is absent from the supplied map.
    ErrParam { pos: FilePosition, key: Seq<char> },
    /// The tokens matched but plain content follows at `pos` where the
    /// line should end.
    ErrEol { pos: FilePosition },
}

/// Match the tokens of one line group against `content` at `pos`:
/// each token's bytes (a variable's substituted value for `Var`) must
/// occur verbatim, and a line terminator or the end of content must
/// follow.
pub open spec fn spec_line_match(
    toks: Seq<MatchV>,
    content: Seq<u8>,
    pos: FilePosition,
    params: Seq<(String, String)>,
) -> LineResV
    decreases toks.len(),
{
    if toks.len() == 0 {
        match match_nl(content, pos.byte as int) {
            Some(w) => LineResV::Matched { end: pos, nl: w },
            None => LineResV::ErrEol { pos },
        }
    } else {
        match toks[0] {
            MatchV::Text(s) => {
                if starts_at(content, pos.byte as int, encode_utf8(s)) {
                    spec_line_match(
                        toks.drop_first(),
                        content,
                        pos.spec_advanced(encode_utf8(s).len() as int),
                        params,
                    )
                } else {
                    LineResV::ErrText { pos, expected: s }
                }
            },
            MatchV::Var(k) => {
                match var_lookup(params, k) {
                    Some(v) => {
                        if starts_at(content, pos.byte as int, encode_utf8(v)) {
                            spec_line_match(
                                toks.drop_first(),
                                content,
                                pos.spec_advanced(encode_utf8(v).len() as int),
                                params,
                            )
                        } else {
                            LineResV::ErrText { pos, expected: v }
                        }
                    },
                    None => LineResV::ErrParam { pos, key: k },
                }
            },
            // Wildcards and line boundaries never stand inside a line
            // group; segmentation removes them.
            _ => LineResV::ErrEol { pos },
        }
    }
}

/// Bounds of `spec_line_match`: every position it reports lies between
/// the start of the attempt and the end of the content.
pub proof fn lemma_line_match_bounds(
    toks: Seq<MatchV>,
    content: Seq<u8>,
    pos: FilePosition,
    params: Seq<(String, String)>,
)
    requires
        pos.wf(),
        pos.byte <= content.len(),
        content.len() <= usize::MAX,
    ensures
        match spec_line_match(toks, content, pos, params) {
            LineResV::Matched { end, nl } => end.wf() && pos.byte <= end.byte && end.byte + nl
                <= content.len() && 0 <= nl && end == pos.spec_advanced(end.byte - pos.byte),
            LineResV::ErrText { pos: p, .. } => p.wf() && pos.byte <= p.byte <= content.len(),
            LineResV::ErrParam { pos: p, .. } => p.wf() && pos.byte <= p.byte <= content.len(),
            LineResV::ErrEol { pos: p } => p.wf() && pos.byte <= p.byte <= content.len(),
        },
    decreases toks.len(),
{
    if toks.len() == 0 {
        if match_nl(content, pos.byte as int) matches Some(w) {
            if pos.byte < content.len() && nl_width_at(content, pos.byte as int) == 2 {
                assert(starts_at(content, pos.byte as int, seq![13u8, 10u8]));
            }
        }
    } else {
        match toks[0] {
            MatchV::Text(s) => {
                if starts_at(content, pos.byte as int, encode_utf8(s)) {
                    lemma_line_match_bounds(
                        toks.drop_first(),
                        content,
                        pos.spec_advanced(encode_utf8(s).len() as int),
                        params,
                    );
                }
            },
            MatchV::Var(k) => {
                match var_lookup(params, k) {
                    Some(v) => {
                        if starts_at(content, pos.byte as int, encode_utf8(v)) {
                            lemma_line_match_bounds(
                                toks.drop_first(),
                                content,
                                pos.spec_advanced(encode_utf8(v).len() as int),
                                params,
                            );
                        }
                    },
                    None => {},
                }
            },
            _ => {},
        }
    }
}

// ---------------------------------------------------------------------
// The full matching run
// ---------------------------------------------------------------------

/// The rest of the current target line, decoded for an error message;
/// empty when a matched token already crossed the line's end.
pub open spec fn lossy_range(content: Seq<u8>, lo: int, hi: int) -> Seq<char> {
    if 0 <= lo <= hi <= content.len() {
        lossy_decoded(content.subrange(lo, hi))
    } else {
        Seq::empty()
    }
}

/// The position of the next line terminator (or end of content) after
/// `pos`, on the same line.
pub open spec fn eol_pos_of(content: Seq<u8>, pos: FilePosition) -> FilePosition {
    pos.spec_advanced(line_end_from(content, pos.byte as int) - pos.byte)
}

/// Match the segments `segs[i..]` against `content` from `pos`.
///
/// `skip` records an open wildcard: the next line group may consume
/// any number of target lines before it must match.  `had_nl` records
/// whether the previous group consumed a real line terminator, which
/// decides whether an empty group may match again at the same spot.
/// This is the reference semantics of `match_contents`.
pub open spec fn spec_run(
    segs: Seq<SegV>,
    content: Seq<u8>,
    params: Seq<(String, String)>,
    i: int,
    pos: FilePosition,
    skip: bool,
    had_nl: bool,
) -> Result<(), At<TemplateMatchErrorV>>
    decreases segs.len() - i, content.len() - pos.byte,
        when 0 <= i && pos.wf() && pos.byte <= content.len() && content.len() <= usize::MAX
        via spec_run_dec
{
    if i >= segs.len() {
        if !skip && (pos.byte < content.len() || (had_nl && content.len() > 0)) {
            Err(At { lo: pos, hi: pos, desc: TemplateMatchErrorV::ExpectedEof })
        } else {
            Ok(())
        }
    } else {
        match segs[i] {
            SegV::MultipleLines => spec_run(segs, content, params, i + 1, pos, true, had_nl),
            SegV::Line(toks) => {
                let eolb = line_end_from(content, pos.byte as int);
                let eol_pos = eol_pos_of(content, pos);
                match spec_line_match(toks, content, pos, params) {
                    LineResV::Matched { end, nl } => {
                        if end.byte == pos.byte && !had_nl {
                            Err(At { lo: pos, hi: pos, desc: TemplateMatchErrorV::ExpectedEol })
                        } else {
                            spec_run(
                                segs,
                                content,
                                params,
                                i + 1,
                                end.spec_next_line(nl),
                                false,
                                nl > 0,
                            )
                        }
                    },
                    LineResV::ErrParam { pos: ep, key } => {
                        // A missing variable cannot be healed by skipping
                        // lines: report it at once.
                        Err(At { lo: ep, hi: ep, desc: TemplateMatchErrorV::MissingParam(key) })
                    },
                    LineResV::ErrText { pos: ep, expected } => {
                        if skip {
                            if pos.byte >= content.len() {
                                Err(
                                    At {
                                        lo: ep,
                                        hi: eol_pos,
                                        desc: TemplateMatchErrorV::ExpectedTextFoundEof(expected),
                                    },
                                )
                            } else {
                                spec_run(
                                    segs,
                                    content,
                                    params,
                                    i,
                                    eol_pos.spec_next_line(nl_width_at(content, eolb)),
                                    true,
                                    had_nl,
                                )
                            }
                        } else {
                            Err(
                                At {
                                    lo: ep,
                                    hi: eol_pos,
                                    desc: TemplateMatchErrorV::ExpectedText {
                                        expected,
                                        found: lossy_range(content, ep.byte as int, eolb),
                                    },
                                },
                            )
                        }
                    },
                    LineResV::ErrEol { pos: ep } => {
                        if skip && pos.byte < content.len() {
                            spec_run(
                                segs,
                                content,
                                params,
                                i,
                                eol_pos.spec_next_line(nl_width_at(content, eolb)),
                                true,
                                had_nl,
                            )
                        } else {
                            Err(At { lo: ep, hi: ep, desc: TemplateMatchErrorV::ExpectedEol })
                        }
                    },
                }
            },
        }
    }
}

#[via_fn]
proof fn spec_run_dec(
    segs: Seq<SegV>,
    content: Seq<u8>,
    params: Seq<(String, String)>,
    i: int,
    pos: FilePosition,
    skip: bool,
    had_nl: bool,
) {
    if 0 <= i < segs.len() {
        match segs[i] {
            SegV::Line(toks) => {
                lemma_line_match_bounds(toks, content, pos, params);
                lemma_line_end_from(content, pos.byte as int);
                let eolb = line_end_from(content, pos.byte as int);
                if eolb < content.len() && nl_width_at(content, eolb) == 2 {
                    assert(starts_at(content, eolb, seq![13u8, 10u8]));
                }
            },
            SegV::MultipleLines => {},
        }
    }
}

/// What matching an item's template against `content` under `params`
/// yields.
pub open spec fn spec_match_contents(
    template: Seq<MatchV>,
    content: Seq<u8>,
    params: Seq<(String, String)>,
) -> Result<(), At<TemplateMatchErrorV>> {
    spec_run(
        segments(template),
        content,
        params,
        0,
        FilePosition { line: 0, col: 0, byte: 0 },
        false,
        true,
    )
}

} // verus!

verus! {

/// Width of the line terminator at the given position, where the end
/// of the content counts as a zero-width terminator.
fn matches_newline(pos: &FilePosition, content: &[u8]) -> (r: Option<usize>)
    requires
        pos.byte <= content@.len(),
    ensures
        match match_nl(content@, pos.byte as int) {
            Some(w) => r matches Some(x) && x == w,
            None => r is None,
        },
{
    if pos.byte >= content.len() {
        Some(0)
    } else {
        let w = crate::lexer::nl_width(content, pos.byte);
        if w > 0 {
            Some(w)
        } else {
            None
        }
    }
}

/// If the content at the given position starts with `to_match`, the
/// number of bytes matched.
fn matches_content(pos: &FilePosition, content: &[u8], to_match: &[u8]) -> (r: Option<usize>)
    requires
        pos.byte <= content@.len(),
    ensures
        starts_at(content@, pos.byte as int, to_match@) ==> r == Some(to_match@.len() as usize),
        !starts_at(content@, pos.byte as int, to_match@) ==> r is None,
{
    if crate::lexer::starts_with_at(content, pos.byte, to_match) {
        Some(to_match.len())
    } else {
        None
    }
}

/// Move `eol_pos` to the next line terminator (or end of content)
/// after `pos`.
fn update_eol(pos: &FilePosition, eol_pos: &mut FilePosition, contents: &[u8])
    requires
        pos.wf(),
        pos.byte <= contents@.len(),
    ensures
        *final(eol_pos) == eol_pos_of(contents@, *pos),
        final(eol_pos).wf(),
        final(eol_pos).byte == line_end_from(contents@, pos.byte as int),
{
    proof {
        lemma_line_end_from(contents@, pos.byte as int);
    }
    let clen = contents.len();
    let mut eol: usize = pos.byte;
    while eol < clen && crate::lexer::nl_width(contents, eol) == 0
        invariant
            clen == contents@.len(),
            pos.byte <= eol <= clen,
            line_end_from(contents@, eol as int) == line_end_from(contents@, pos.byte as int),
            eol <= line_end_from(contents@, pos.byte as int),
        decreases clen - eol,
    {
        proof {
            lemma_line_end_from(contents@, eol + 1);
        }
        eol = eol + 1;
    }
    proof {
        assert(line_end_from(contents@, eol as int) == eol);
    }
    *eol_pos = pos.advanced(eol - pos.byte);
}

/// Why one line group failed to match.
enum LineGroupMatchErr {
    /// `text` was expected at `pos`.
    Text { pos: FilePosition, text: String },
    /// The variable `key` has no entry in the supplied map.
    ParamNotFound { pos: FilePosition, key: String },
    /// A line terminator or the end of content was expected at `pos`.
    NewLineOrEof { pos: FilePosition },
}

/// The tokens making up one line of the template.
struct LineGroup {
    tokens: Vec<Match>,
}

impl View for LineGroup {
    type V = Seq<MatchV>;

    closed spec fn view(&self) -> Seq<MatchV> {
        template_view(self.tokens@)
    }
}

impl LineGroup {
    /// A line group over the given tokens.
    fn new(tokens: Vec<Match>) -> (r: LineGroup)
        ensures
            r@ == template_view(tokens@),
    {
        LineGroup { tokens }
    }

    /// Match this group's tokens against the content at `pos`,
    /// yielding the consumed byte count and the width of the line
    /// terminator that follows, or the first mismatch.
    fn matches(&self, pos: FilePosition, content: &[u8], params: &[(String, String)]) -> (r:
        Result<(usize, usize), LineGroupMatchErr>)
        requires
            pos.wf(),
            pos.byte <= content@.len(),
        ensures
            match spec_line_match(self@, content@, pos, params@) {
                LineResV::Matched { end, nl } => r matches Ok((b, w)) && b == end.byte - pos.byte
                    && w == nl,
                LineResV::ErrText { pos: p, expected } => (r matches Err(
                    LineGroupMatchErr::Text { pos: q, text },
                ) && q == p && text@ == expected),
                LineResV::ErrParam { pos: p, key } => (r matches Err(
                    LineGroupMatchErr::ParamNotFound { pos: q, key: k },
                ) && q == p && k@ == key),
                LineResV::ErrEol { pos: p } => (r matches Err(
                    LineGroupMatchErr::NewLineOrEof { pos: q },
                ) && q == p),
            },
    {
        let ghost gv = self@;
        let clen = content.len();
        let n = self.tokens.len();
        let mut cur = pos;
        let mut i: usize = 0;
        proof {
            assert(gv.skip(0) =~= gv);
        }
        while i < n
            invariant
                0 <= i <= n,
                n == self.tokens@.len(),
                gv == self@,
                clen == content@.len(),
                cur.wf(),
                pos.byte <= cur.byte <= clen,
                spec_line_match(gv, content@, pos, params@) == spec_line_match(
                    gv.skip(i as int),
                    content@,
                    cur,
                    params@,
                ),
            decreases n - i,
        {
            let ghost pre = gv.skip(i as int);
            proof {
                assert(pre[0] == gv[i as int]);
                assert(pre.drop_first() =~= gv.skip(i + 1));
            }
            let m = &self.tokens[i];
            match m {
                Match::Text(s) => {
                    match matches_content(&cur, content, s.as_str().as_bytes()) {
                        Some(bytes) => {
                            cur.advance(bytes);
                        },
                        None => {
                            return Err(LineGroupMatchErr::Text { pos: cur, text: s.clone() });
                        },
                    }
                },
                Match::Var(k) => {
                    match find_var(params, k) {
                        Some(vi) => {
                            let v = crate::template::slice_index(params, vi);
                            match matches_content(&cur, content, v.1.as_str().as_bytes()) {
                                Some(bytes) => {
                                    cur.advance(bytes);
                                },
                                None => {
                                    return Err(
                                        LineGroupMatchErr::Text { pos: cur, text: v.1.clone() },
                                    );
                                },
                            }
                        },
                        None => {
                            return Err(
                                LineGroupMatchErr::ParamNotFound { pos: cur, key: k.clone() },
                            );
                        },
                    }
                },
                _ => {
                    return Err(LineGroupMatchErr::NewLineOrEof { pos: cur });
                },
            }
            i = i + 1;
        }
        proof {
            assert(gv.skip(n as int) =~= Seq::<MatchV>::empty());
        }
        match matches_newline(&cur, content) {
            Some(w) => Ok((cur.byte - pos.byte, w)),
            None => Err(LineGroupMatchErr::NewLineOrEof { pos: cur }),
        }
    }
}

} // verus!

verus! {

/// One segment of the grouped template.
enum MultilineMatchState {
    /// The wildcard: any number of target lines may pass.
    MultipleLines,
    /// The tokens of one target line.
    Line(LineGroup),
}

impl View for MultilineMatchState {
    type V = SegV;

    closed spec fn view(&self) -> SegV {
        match self {
            MultilineMatchState::MultipleLines => SegV::MultipleLines,
            MultilineMatchState::Line(g) => SegV::Line(g@),
        }
    }
}

/// The views of a segment vector.
spec fn segs_view(v: Seq<MultilineMatchState>) -> Seq<SegV> {
    v.map_values(|s: MultilineMatchState| s@)
}

/// The view of a pending line group.
spec fn prev_view(p: Option<Vec<Match>>) -> Option<Seq<MatchV>> {
    match p {
        Some(g) => Some(template_view(g@)),
        None => None,
    }
}

impl<'s> Item<'s> {
    /// Separate the template's tokens into groups, one per line, with
    /// wildcard segments between them.
    fn get_multiline_match_groups(&self) -> (r: Vec<MultilineMatchState>)
        ensures
            segs_view(r@) == segments(self@.template),
    {
        let ghost tv = self@.template;
        let mut results: Vec<MultilineMatchState> = Vec::new();
        let mut prev_group: Option<Vec<Match>> = None;
        let n = self.template.len();
        proof {
            assert(segs_view(results@) =~= Seq::<SegV>::empty());
            assert(segs_view(results@) + segs_from(tv, 0, prev_view(prev_group)) =~= segments(
                tv,
            ));
        }
        let mut i: usize = 0;
        while i < n
            invariant
                0 <= i <= n,
                n == self.template@.len(),
                tv == template_view(self.template@),
                segs_view(results@) + segs_from(tv, i as int, prev_view(prev_group)) == segments(
                    tv,
                ),
            decreases n - i,
        {
            let ghost old_results = results@;
            let ghost old_prev = prev_view(prev_group);
            let m = crate::template::slice_index(self.template, i);
            match m {
                Match::MultipleLines => {
                    match prev_group.take() {
                        Some(group) => {
                            let ghost gv = template_view(group@);
                            results.push(MultilineMatchState::Line(LineGroup::new(group)));
                            proof {
                                assert(segs_view(results@) =~= old_results.map_values(
                                    |s: MultilineMatchState| s@,
                                ) + seq![SegV::Line(gv)]);
                            }
                        },
                        None => {},
                    }
                    results.push(MultilineMatchState::MultipleLines);
                    proof {
                        assert(segs_view(results@) =~= segs_view(old_results) + close_group(
                            old_prev,
                        ) + seq![SegV::MultipleLines]);
                        assert(segs_view(results@) + segs_from(tv, i + 1, prev_view(prev_group))
                            =~= segs_view(old_results) + segs_from(tv, i as int, old_prev));
                    }
                },
                Match::NewLine => {
                    match prev_group.take() {
                        Some(group) => {
                            results.push(MultilineMatchState::Line(LineGroup::new(group)));
                        },
                        None => {
                            results.push(MultilineMatchState::Line(LineGroup::new(Vec::new())));
                            proof {
                                assert(template_view(Seq::<Match>::empty()) =~= Seq::<
                                    MatchV,
                                >::empty());
                            }
                        },
                    }
                    prev_group = Some(Vec::new());
                    proof {
                        assert(template_view(Seq::<Match>::empty()) =~= Seq::<MatchV>::empty());
                        assert(segs_view(results@) =~= segs_view(old_results) + (match old_prev {
                            Some(g) => seq![SegV::Line(g)],
                            None => seq![SegV::Line(Seq::<MatchV>::empty())],
                        }));
                        assert(segs_view(results@) + segs_from(tv, i + 1, prev_view(prev_group))
                            =~= segs_view(old_results) + segs_from(tv, i as int, old_prev));
                    }
                },
                other => {
                    let cloned = other.clone();
                    match &mut prev_group {
                        Some(g) => {
                            let ghost gv = template_view(g@);
                            g.push(cloned);
                            proof {
                                assert(template_view(g@) =~= gv.push(other@));
                            }
                        },
                        None => {
                            let mut v: Vec<Match> = Vec::new();
                            v.push(cloned);
                            proof {
                                assert(template_view(v@) =~= seq![other@]);
                            }
                            prev_group = Some(v);
                        },
                    }
                    proof {
                        assert(segs_view(results@) + segs_from(tv, i + 1, prev_view(prev_group))
                            =~= segs_view(old_results) + segs_from(tv, i as int, old_prev));
                    }
                },
            }
            i = i + 1;
        }
        match prev_group.take() {
            Some(group) => {
                let ghost old_results = results@;
                let ghost gv = template_view(group@);
                results.push(MultilineMatchState::Line(LineGroup::new(group)));
                proof {
                    assert(segs_view(results@) =~= segs_view(old_results) + seq![SegV::Line(gv)]);
                }
            },
            None => {},
        }
        proof {
            assert(segs_view(results@) =~= segments(tv));
        }
        results
    }

    /// Match this item's template against target contents.
    ///
    /// The values from `params` are substituted for the template's
    /// variables.  Returns the first mismatch as a positioned error.
    pub fn match_contents(&self, contents: &[u8], params: &[(String, String)]) -> (r: Result<
        (),
        At<TemplateMatchError>,
    >)
        ensures
            match spec_match_contents(self@.template, contents@, params@) {
                Ok(u) => r is Ok,
                Err(ev) => r matches Err(e) && e@ == ev,
            },
    {
        let groups = self.get_multiline_match_groups();
        run_groups(&groups, 0, contents, params, FilePosition::new(), false, true)
    }
}

/// Match the segments `groups[i..]` against the content from `pos`,
/// following the skip-then-retry semantics of the wildcard.
fn run_groups(
    groups: &Vec<MultilineMatchState>,
    i: usize,
    content: &[u8],
    params: &[(String, String)],
    pos: FilePosition,
    skip: bool,
    had_nl: bool,
) -> (r: Result<(), At<TemplateMatchError>>)
    requires
        pos.wf(),
        pos.byte <= content@.len(),
        i <= groups@.len(),
    ensures
        match spec_run(segs_view(groups@), content@, params@, i as int, pos, skip, had_nl) {
            Ok(u) => r is Ok,
            Err(ev) => r matches Err(e) && e@ == ev,
        },
    decreases groups@.len() - i, content@.len() - pos.byte,
{
    let clen = content.len();
    if i >= groups.len() {
        if !skip && (pos.byte < clen || (had_nl && clen > 0)) {
            Err(TemplateMatchError::ExpectedEof.at(pos, pos))
        } else {
            Ok(())
        }
    } else {
        match &groups[i] {
            MultilineMatchState::MultipleLines => {
                run_groups(groups, i + 1, content, params, pos, true, had_nl)
            },
            MultilineMatchState::Line(line) => {
                proof {
                    lemma_line_match_bounds(line@, content@, pos, params@);
                    lemma_line_end_from(content@, pos.byte as int);
                    let eolb = line_end_from(content@, pos.byte as int);
                    if eolb < content@.len() && nl_width_at(content@, eolb) == 2 {
                        assert(starts_at(content@, eolb, seq![13u8, 10u8]));
                    }
                }
                let mut eol_pos = FilePosition::new();
                update_eol(&pos, &mut eol_pos, content);
                match line.matches(pos, content, params) {
                    Ok((bytes, w)) => {
                        if bytes == 0 && !had_nl {
                            Err(TemplateMatchError::ExpectedEol.at(pos, pos))
                        } else {
                            let mut p2 = pos;
                            p2.advance(bytes);
                            p2.next_line(w);
                            run_groups(groups, i + 1, content, params, p2, false, w > 0)
                        }
                    },
                    Err(LineGroupMatchErr::ParamNotFound { pos: ep, key }) => {
                        Err(TemplateMatchError::MissingParam(key).at(ep, ep))
                    },
                    Err(LineGroupMatchErr::Text { pos: ep, text }) => {
                        if skip {
                            if pos.byte >= clen {
                                Err(TemplateMatchError::ExpectedTextFoundEof(text).at(ep, eol_pos))
                            } else {
                                let w2 = match matches_newline(&eol_pos, content) {
                                    Some(w2) => w2,
                                    None => {
                                        proof {
                                            assert(false);
                                        }
                                        0
                                    },
                                };
                                let mut p2 = eol_pos;
                                p2.next_line(w2);
                                run_groups(groups, i, content, params, p2, true, had_nl)
                            }
                        } else {
                            let found = if ep.byte <= eol_pos.byte {
                                bytes_to_string_lossy(
                                    slice_subrange(content, ep.byte, eol_pos.byte),
                                )
                            } else {
                                String::new()
                            };
                            Err(
                                TemplateMatchError::ExpectedText { expected: text, found }.at(
                                    ep,
                                    eol_pos,
                                ),
                            )
                        }
                    },
                    Err(LineGroupMatchErr::NewLineOrEof { pos: ep }) => {
                        if skip && pos.byte < clen {
                            let w2 = match matches_newline(&eol_pos, content) {
                                Some(w2) => w2,
                                None => {
                                    proof {
                                        assert(false);
                                    }
                                    0
                                },
                            };
                            let mut p2 = eol_pos;
                            p2.next_line(w2);
                            run_groups(groups, i, content, params, p2, true, had_nl)
                        } else {
                            Err(TemplateMatchError::ExpectedEol.at(ep, ep))
                        }
                    },
                }
            },
        }
    }
}

} // verus!
