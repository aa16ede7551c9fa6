//! Laws of the library, proved once and for all: how the matcher
//! treats the empty template and the lone wildcard, and that rendering
//! a literal template produces contents its own template matches.

use vstd::prelude::*;
use vstd::utf8::encode_utf8;
use crate::ast::MatchV;
use crate::template::spec_rendered;
use crate::err::{At, TemplateMatchErrorV};
use crate::lexer::starts_at;
use crate::matcher::{
    segments, segs_from, spec_line_match, spec_match_contents, spec_run, LineResV, SegV,
};
use crate::pos::FilePosition;

verus! {

/// An empty template matches empty target content, and nothing else:
/// any non-empty target is rejected with an end-of-file error at the
/// origin.
pub proof fn lemma_empty_template(content: Seq<u8>, params: Seq<(String, String)>)
    requires
        content.len() <= usize::MAX,
    ensures
        content.len() == 0 ==> spec_match_contents(seq![], content, params) is Ok,
        content.len() > 0 ==> spec_match_contents(seq![], content, params) == Err::<
            (),
            At<TemplateMatchErrorV>,
        >(
            At {
                lo: FilePosition { line: 0, col: 0, byte: 0 },
                hi: FilePosition { line: 0, col: 0, byte: 0 },
                desc: TemplateMatchErrorV::ExpectedEof,
            },
        ),
{
    assert(segments(Seq::<MatchV>::empty()) =~= Seq::<SegV>::empty());
}

/// A template holding only the wildcard matches any target content,
/// including empty content.
pub proof fn lemma_wildcard_matches_anything(content: Seq<u8>, params: Seq<(String, String)>)
    requires
        content.len() <= usize::MAX,
    ensures
        spec_match_contents(seq![MatchV::MultipleLines], content, params) is Ok,
{
    let t = seq![MatchV::MultipleLines];
    assert(segs_from(t, 1, None) =~= Seq::<SegV>::empty());
    assert(segments(t) =~= seq![SegV::MultipleLines]);
    let origin = FilePosition { line: 0, col: 0, byte: 0 };
    assert(spec_run(segments(t), content, params, 1, origin, true, true) is Ok);
}

} // verus!

verus! {

/// UTF-8 encoding distributes over concatenation.
pub proof fn lemma_encode_concat(a: Seq<char>, b: Seq<char>)
    ensures
        encode_utf8(a + b) == encode_utf8(a) + encode_utf8(b),
    decreases a.len(),
{
    if a.len() == 0 {
        assert(a + b =~= b);
        assert(encode_utf8(a) + encode_utf8(b) =~= encode_utf8(b));
    } else {
        assert((a + b)[0] == a[0]);
        assert((a + b).drop_first() =~= a.drop_first() + b);
        lemma_encode_concat(a.drop_first(), b);
        assert(encode_utf8(a + b) =~= encode_utf8(a) + encode_utf8(b));
    }
}

/// The newline character encodes to the single line-feed byte.
pub proof fn lemma_encode_newline()
    ensures
        encode_utf8(seq!['\n']) == seq![10u8],
{
    assert(('\n' as u32) == 10);
    assert((10u32 & 0x7F) as u8 == 10u8) by (bit_vector);
    assert(seq!['\n'].drop_first() =~= Seq::<char>::empty());
    assert(encode_utf8(Seq::<char>::empty()) == Seq::<u8>::empty());
    assert(seq!['\n'][0] == '\n');
    assert(vstd::utf8::encode_scalar(10u32) =~= seq![10u8]);
    assert(encode_utf8(seq!['\n']) =~= seq![10u8]);
}

/// True when the template holds only literal tokens: text runs and
/// line boundaries.
pub open spec fn literal_only(t: Seq<MatchV>) -> bool {
    forall|j: int| 0 <= j < t.len() ==> (t[j] is Text || t[j] is NewLine)
}

/// True when a line group holds only text tokens.
pub open spec fn group_is_text(toks: Seq<MatchV>) -> bool {
    forall|j: int| 0 <= j < toks.len() ==> toks[j] is Text
}

/// The bytes a line group of text tokens renders to.
pub open spec fn group_bytes(toks: Seq<MatchV>) -> Seq<u8>
    decreases toks.len(),
{
    if toks.len() == 0 {
        seq![]
    } else {
        (match toks[0] {
            MatchV::Text(s) => encode_utf8(s),
            _ => seq![],
        }) + group_bytes(toks.drop_first())
    }
}

/// The bytes of one segment: a wildcard renders to nothing.
pub open spec fn seg_bytes(seg: SegV) -> Seq<u8> {
    match seg {
        SegV::Line(toks) => group_bytes(toks),
        SegV::MultipleLines => seq![],
    }
}

/// The bytes a segment sequence renders to: the groups' bytes joined
/// by single line-feed separators.
pub open spec fn join_bytes(segs: Seq<SegV>) -> Seq<u8>
    decreases segs.len(),
{
    if segs.len() == 0 {
        seq![]
    } else {
        seg_bytes(segs[0]) + (if segs.len() > 1 {
            seq![10u8] + join_bytes(segs.drop_first())
        } else {
            seq![]
        })
    }
}

/// True when every segment is a line group of text tokens.
pub open spec fn segs_literal(segs: Seq<SegV>) -> bool {
    forall|k: int|
        0 <= k < segs.len() ==> ((#[trigger] segs[k]) matches SegV::Line(toks)
            && group_is_text(toks))
}

/// Appending a text token to a group appends its bytes.
proof fn lemma_group_bytes_push(g: Seq<MatchV>, s: Seq<char>)
    ensures
        group_bytes(g.push(MatchV::Text(s))) == group_bytes(g) + encode_utf8(s),
    decreases g.len(),
{
    if g.len() == 0 {
        assert(g.push(MatchV::Text(s))[0] == MatchV::Text(s));
        assert(g.push(MatchV::Text(s)).drop_first() =~= Seq::<MatchV>::empty());
        assert(group_bytes(Seq::<MatchV>::empty()) == Seq::<u8>::empty());
        assert(group_bytes(g.push(MatchV::Text(s))) =~= group_bytes(g) + encode_utf8(s));
    } else {
        assert(g.push(MatchV::Text(s))[0] == g[0]);
        assert(g.push(MatchV::Text(s)).drop_first() =~= g.drop_first().push(MatchV::Text(s)));
        lemma_group_bytes_push(g.drop_first(), s);
        assert(group_bytes(g.push(MatchV::Text(s))) =~= group_bytes(g) + encode_utf8(s));
    }
}

/// Segmenting a literal-only template yields text-only line groups.
proof fn lemma_segs_from_literal(t: Seq<MatchV>, j: int, prev: Option<Seq<MatchV>>)
    requires
        literal_only(t),
        0 <= j <= t.len(),
        prev matches Some(g) ==> group_is_text(g),
    ensures
        segs_literal(segs_from(t, j, prev)),
    decreases t.len() - j,
{
    if j < t.len() {
        match t[j] {
            MatchV::NewLine => {
                lemma_segs_from_literal(t, j + 1, Some(seq![]));
            },
            MatchV::Text(s) => {
                let g2 = match prev {
                    Some(g) => g.push(MatchV::Text(s)),
                    None => seq![MatchV::Text(s)],
                };
                assert(group_is_text(g2));
                lemma_segs_from_literal(t, j + 1, Some(g2));
            },
            _ => {},
        }
    }
}

/// A segmentation with a pending group is never empty.
proof fn lemma_segs_from_nonempty(t: Seq<MatchV>, j: int, g: Seq<MatchV>)
    requires
        0 <= j <= t.len(),
        literal_only(t),
    ensures
        segs_from(t, j, Some(g)).len() >= 1,
    decreases t.len() - j,
{
    if j < t.len() {
        match t[j] {
            MatchV::NewLine => {},
            MatchV::Text(s) => {
                lemma_segs_from_nonempty(t, j + 1, g.push(MatchV::Text(s)));
            },
            _ => {},
        }
    }
}

/// The bytes of a literal template's segmentation are the bytes of
/// its rendering: the pending group's bytes followed by the rendering
/// of the remaining tokens.
proof fn lemma_join_rendered(
    t: Seq<MatchV>,
    j: int,
    prev: Option<Seq<MatchV>>,
    params: Seq<(String, String)>,
)
    requires
        literal_only(t),
        0 <= j <= t.len(),
    ensures
        join_bytes(segs_from(t, j, prev)) == (match prev {
            Some(g) => group_bytes(g),
            None => Seq::<u8>::empty(),
        }) + encode_utf8(spec_rendered(t.skip(j), params)),
    decreases t.len() - j,
{
    let pending = match prev {
        Some(g) => group_bytes(g),
        None => Seq::<u8>::empty(),
    };
    if j == t.len() {
        assert(t.skip(j) =~= Seq::<MatchV>::empty());
        assert(encode_utf8(spec_rendered(t.skip(j), params)) =~= Seq::<u8>::empty());
        match prev {
            Some(g) => {
                assert(segs_from(t, j, prev) =~= seq![SegV::Line(g)]);
                assert(join_bytes(segs_from(t, j, prev)) =~= group_bytes(g));
                assert(pending + encode_utf8(spec_rendered(t.skip(j), params)) =~= pending);
            },
            None => {
                assert(segs_from(t, j, prev) =~= Seq::<SegV>::empty());
                assert(pending + encode_utf8(spec_rendered(t.skip(j), params)) =~= Seq::<
                    u8,
                >::empty());
            },
        }
    } else {
        assert(t.skip(j)[0] == t[j]);
        assert(t.skip(j).drop_first() =~= t.skip(j + 1));
        match t[j] {
            MatchV::NewLine => {
                lemma_join_rendered(t, j + 1, Some(seq![]), params);
                lemma_segs_from_nonempty(t, j + 1, seq![]);
                let s2 = segs_from(t, j + 1, Some(seq![]));
                let head = match prev {
                    Some(g) => seq![SegV::Line(g)],
                    None => seq![SegV::Line(seq![])],
                };
                assert(segs_from(t, j, prev) == head + s2);
                assert((head + s2)[0] == head[0]);
                assert((head + s2).drop_first() =~= s2);
                assert((head + s2).len() > 1);
                assert(seg_bytes(head[0]) == pending) by {
                    match prev {
                        Some(g) => {},
                        None => {
                            assert(group_bytes(Seq::<MatchV>::empty()) =~= Seq::<u8>::empty());
                        },
                    }
                }
                assert(group_bytes(Seq::<MatchV>::empty()) =~= Seq::<u8>::empty());
                lemma_encode_newline();
                lemma_encode_concat(seq!['\n'], spec_rendered(t.skip(j + 1), params));
                assert(spec_rendered(t.skip(j), params) == seq!['\n'] + spec_rendered(
                    t.skip(j + 1),
                    params,
                ));
                assert(join_bytes(segs_from(t, j, prev)) =~= pending + encode_utf8(
                    spec_rendered(t.skip(j), params),
                ));
            },
            MatchV::Text(s) => {
                let g2 = match prev {
                    Some(g) => g.push(MatchV::Text(s)),
                    None => seq![MatchV::Text(s)],
                };
                lemma_join_rendered(t, j + 1, Some(g2), params);
                match prev {
                    Some(g) => {
                        lemma_group_bytes_push(g, s);
                    },
                    None => {
                        assert(seq![MatchV::Text(s)].drop_first() =~= Seq::<MatchV>::empty());
                        assert(group_bytes(Seq::<MatchV>::empty()) == Seq::<u8>::empty());
                        assert(seq![MatchV::Text(s)][0] == MatchV::Text(s));
                        assert(group_bytes(g2) =~= encode_utf8(s));
                    },
                }
                lemma_encode_concat(s, spec_rendered(t.skip(j + 1), params));
                assert(spec_rendered(t.skip(j), params) == s + spec_rendered(
                    t.skip(j + 1),
                    params,
                ));
                assert(join_bytes(segs_from(t, j, prev)) =~= pending + encode_utf8(
                    spec_rendered(t.skip(j), params),
                ));
            },
            _ => {},
        }
    }
}

} // verus!

verus! {

/// A line group of text tokens matches content that carries exactly
/// its bytes, up to a line feed or the end of the content.
proof fn lemma_text_group_match(
    toks: Seq<MatchV>,
    content: Seq<u8>,
    pos: FilePosition,
    params: Seq<(String, String)>,
)
    requires
        group_is_text(toks),
        pos.wf(),
        content.len() <= usize::MAX,
        pos.byte + group_bytes(toks).len() <= content.len(),
        content.subrange(pos.byte as int, pos.byte + group_bytes(toks).len()) == group_bytes(toks),
        pos.byte + group_bytes(toks).len() == content.len() || content[pos.byte + group_bytes(
            toks,
        ).len()] == 10u8,
    ensures
        spec_line_match(toks, content, pos, params) == (LineResV::Matched {
            end: pos.spec_advanced(group_bytes(toks).len() as int),
            nl: if pos.byte + group_bytes(toks).len() < content.len() {
                1int
            } else {
                0int
            },
        }),
    decreases toks.len(),
{
    let gb = group_bytes(toks);
    let q = pos.byte + gb.len();
    if toks.len() == 0 {
        assert(gb =~= Seq::<u8>::empty());
        assert(pos.spec_advanced(0) == pos);
        if q < content.len() {
            assert(content.subrange(pos.byte as int, pos.byte + 1) =~= seq![10u8]);
            assert(starts_at(content, pos.byte as int, seq![10u8]));
        }
    } else {
        let s = toks[0]->Text_0;
        assert(toks[0] is Text);
        let e = encode_utf8(s);
        let rest = group_bytes(toks.drop_first());
        assert(gb == e + rest);
        assert forall|m: int| 0 <= m < gb.len() implies content[pos.byte + m] == gb[m] by {
            assert(content.subrange(pos.byte as int, pos.byte + gb.len())[m] == content[pos.byte
                + m]);
        }
        assert(content.subrange(pos.byte as int, pos.byte + e.len()) =~= e);
        assert(starts_at(content, pos.byte as int, e));
        let pos2 = pos.spec_advanced(e.len() as int);
        assert(pos2.byte == pos.byte + e.len());
        assert forall|m2: int| 0 <= m2 < rest.len() implies content[pos2.byte + m2] == rest[m2] by {
            assert(content[pos.byte + (e.len() + m2)] == gb[e.len() + m2]);
            assert(gb[e.len() + m2] == rest[m2]);
        }
        assert(content.subrange(pos2.byte as int, pos2.byte + rest.len()) =~= rest);
        lemma_text_group_match(toks.drop_first(), content, pos2, params);
        assert(pos2.spec_advanced(rest.len() as int) == pos.spec_advanced(gb.len() as int));
    }
}

/// Matching literal line groups against exactly their joined bytes
/// succeeds.
proof fn lemma_run_literal(
    segs: Seq<SegV>,
    content: Seq<u8>,
    params: Seq<(String, String)>,
    i: int,
    pos: FilePosition,
    had_nl: bool,
)
    requires
        segs_literal(segs),
        0 <= i <= segs.len(),
        pos.wf(),
        pos.byte <= content.len(),
        content.len() <= usize::MAX,
        content.subrange(pos.byte as int, content.len() as int) == join_bytes(segs.skip(i)),
        i < segs.len() ==> had_nl,
        i == segs.len() ==> (!had_nl || content.len() == 0),
    ensures
        spec_run(segs, content, params, i, pos, false, had_nl) is Ok,
    decreases segs.len() - i,
{
    if i == segs.len() {
        assert(segs.skip(i) =~= Seq::<SegV>::empty());
        assert(join_bytes(segs.skip(i)) == Seq::<u8>::empty());
        assert(content.subrange(pos.byte as int, content.len() as int).len() == 0);
        assert(pos.byte == content.len());
    } else {
        assert(segs[i] matches SegV::Line(g) && group_is_text(g));
        let toks = segs[i]->Line_0;
        let gb = group_bytes(toks);
        let tail = segs.skip(i);
        assert(tail[0] == segs[i]);
        assert(tail.drop_first() =~= segs.skip(i + 1));
        assert(join_bytes(tail) == gb + (if tail.len() > 1 {
            seq![10u8] + join_bytes(segs.skip(i + 1))
        } else {
            Seq::<u8>::empty()
        }));
        let jb = join_bytes(tail);
        assert(content.len() - pos.byte == jb.len());
        assert forall|m: int| 0 <= m < jb.len() implies content[pos.byte + m] == jb[m] by {
            assert(content.subrange(pos.byte as int, content.len() as int)[m] == content[pos.byte
                + m]);
        }
        assert(content.subrange(pos.byte as int, pos.byte + gb.len()) =~= gb);
        let q = pos.byte + gb.len();
        if i < segs.len() - 1 {
            assert(jb[gb.len() as int] == 10u8);
            assert(content[q] == 10u8);
            lemma_text_group_match(toks, content, pos, params);
            let end = pos.spec_advanced(gb.len() as int);
            let p2 = end.spec_next_line(1);
            assert(p2.byte == q + 1);
            let rest = join_bytes(segs.skip(i + 1));
            assert forall|m: int| 0 <= m < rest.len() implies content[p2.byte + m] == rest[m] by {
                assert(content[pos.byte + (gb.len() + 1 + m)] == jb[gb.len() + 1 + m]);
                assert(jb[gb.len() + 1 + m] == (seq![10u8] + rest)[1 + m]);
                assert((seq![10u8] + rest)[1 + m] == rest[m]);
            }
            assert(content.subrange(p2.byte as int, content.len() as int) =~= rest);
            lemma_run_literal(segs, content, params, i + 1, p2, true);
        } else {
            assert(q == content.len());
            lemma_text_group_match(toks, content, pos, params);
            let end = pos.spec_advanced(gb.len() as int);
            let p2 = end.spec_next_line(0);
            assert(p2 == end);
            assert(p2.byte == content.len());
            assert(segs.skip(i + 1) =~= Seq::<SegV>::empty());
            assert(join_bytes(segs.skip(i + 1)) == Seq::<u8>::empty());
            assert(content.subrange(p2.byte as int, content.len() as int).len() == 0);
            assert(content.subrange(p2.byte as int, content.len() as int) =~= Seq::<u8>::empty());
            assert(content.subrange(p2.byte as int, content.len() as int) == join_bytes(
                segs.skip(i + 1),
            ));
            lemma_run_literal(segs, content, params, i + 1, p2, false);
        }
    }
}

/// Rendering a template of literal tokens (text runs and line
/// boundaries only) yields contents that the same template matches:
/// the render/match round trip for literal templates.
pub proof fn lemma_render_match_roundtrip(template: Seq<MatchV>, content: Seq<u8>)
    requires
        literal_only(template),
        content == encode_utf8(spec_rendered(template, Seq::<(String, String)>::empty())),
        content.len() <= usize::MAX,
    ensures
        spec_match_contents(template, content, Seq::<(String, String)>::empty()) is Ok,
{
    let no_vars = Seq::<(String, String)>::empty();
    lemma_join_rendered(template, 0, None, no_vars);
    assert(template.skip(0) =~= template);
    assert(Seq::<u8>::empty() + encode_utf8(spec_rendered(template, no_vars)) =~= content);
    lemma_segs_from_literal(template, 0, None);
    let origin = FilePosition { line: 0, col: 0, byte: 0 };
    let segs = segments(template);
    assert(segs.skip(0) =~= segs);
    assert(content.subrange(0, content.len() as int) =~= content);
    if segs.len() == 0 {
        assert(join_bytes(segs) == Seq::<u8>::empty());
        assert(content.len() == 0);
    }
    lemma_run_literal(segs, content, no_vars, 0, origin, true);
}

} // verus!
