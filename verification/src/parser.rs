//! The parser: consumes the lexer's token stream into a `Spec`, a list
//! of items each holding parameters and a template.

use vstd::prelude::*;
use crate::ast::{Item, ItemV, Match, MatchV, Param, ParamV, Spec, SpecV};
use crate::err::{At, LexError, LexErrorV, ParseError, ParseErrorV};
use crate::lexer::{err_view, toks_view, Iter, TokenRef, TokenRefV, TokenValue, TokenValueV};
use crate::pos::FilePosition;

verus! {

/// Parsing result: a value or a positioned parse error.
pub type ParseResult<T> = Result<T, At<ParseError>>;

/// The remaining token stream, as the parser sees it: the tokens not
/// yet consumed, and the lexical error that ends the stream, if any.
pub type StreamV = (Seq<TokenRefV>, Option<At<LexErrorV>>);

/// The error produced when the stream ends in a lexical error.
pub open spec fn lex_stream_err(lerr: Option<At<LexErrorV>>) -> At<ParseErrorV>
    recommends
        lerr is Some,
{
    At { lo: lerr->0.lo, hi: lerr->0.hi, desc: ParseErrorV::Lex(lerr->0.desc) }
}

/// What parsing a parameter list from the front of `toks` yields: the
/// parameters, the tokens left over, and the parser position after the
/// last consumed token.
pub open spec fn spec_parse_params(
    toks: Seq<TokenRefV>,
    lerr: Option<At<LexErrorV>>,
    pos: FilePosition,
) -> Result<(Seq<ParamV>, Seq<TokenRefV>, FilePosition), At<ParseErrorV>>
    decreases toks.len(),
{
    if toks.len() == 0 {
        if lerr is Some {
            Err(lex_stream_err(lerr))
        } else {
            Ok((seq![], toks, pos))
        }
    } else {
        match toks[0].value {
            TokenValueV::Key(k) => {
                if toks.len() > 1 && toks[1].value is Value {
                    match spec_parse_params(toks.skip(2), lerr, toks[1].hi) {
                        Ok((ps, rest, p)) => {
                            Ok(
                                (
                                    seq![ParamV { key: k, value: Some(toks[1].value->Value_0) }]
                                        + ps,
                                    rest,
                                    p,
                                ),
                            )
                        },
                        Err(e) => Err(e),
                    }
                } else if toks.len() == 1 && lerr is Some {
                    Err(lex_stream_err(lerr))
                } else {
                    match spec_parse_params(toks.skip(1), lerr, toks[0].hi) {
                        Ok((ps, rest, p)) => {
                            Ok((seq![ParamV { key: k, value: None }] + ps, rest, p))
                        },
                        Err(e) => Err(e),
                    }
                }
            },
            TokenValueV::Value(_) => {
                Err(
                    At {
                        lo: toks[0].lo,
                        hi: toks[0].hi,
                        desc: ParseErrorV::ExpectedKeyFoundValue,
                    },
                )
            },
            _ => Ok((seq![], toks, pos)),
        }
    }
}

/// What parsing a template from the front of `toks` yields.
pub open spec fn spec_parse_template(
    toks: Seq<TokenRefV>,
    lerr: Option<At<LexErrorV>>,
    pos: FilePosition,
) -> Result<(Seq<MatchV>, Seq<TokenRefV>, FilePosition), At<ParseErrorV>>
    decreases toks.len(),
{
    if toks.len() == 0 {
        if lerr is Some {
            Err(lex_stream_err(lerr))
        } else {
            Ok((seq![], toks, pos))
        }
    } else {
        let m = match toks[0].value {
            TokenValueV::MatchAnyNumberOfLines => Some(MatchV::MultipleLines),
            TokenValueV::MatchNewline => Some(MatchV::NewLine),
            TokenValueV::MatchText(s) => Some(MatchV::Text(s)),
            TokenValueV::Var(s) => Some(MatchV::Var(s)),
            _ => None,
        };
        match m {
            Some(mv) => {
                match spec_parse_template(toks.skip(1), lerr, toks[0].hi) {
                    Ok((ms, rest, p)) => Ok((seq![mv] + ms, rest, p)),
                    Err(e) => Err(e),
                }
            },
            None => Ok((seq![], toks, pos)),
        }
    }
}

/// Parsing a parameter list consumes a prefix of the tokens, and
/// consumes none exactly when it yields no parameters.
pub proof fn lemma_parse_params_progress(
    toks: Seq<TokenRefV>,
    lerr: Option<At<LexErrorV>>,
    pos: FilePosition,
)
    ensures
        spec_parse_params(toks, lerr, pos) matches Ok((ps, rest, p)) ==> rest.len() <= toks.len()
            && (ps.len() == 0 ==> rest == toks && p == pos) && (ps.len() > 0 ==> rest.len()
            < toks.len()),
    decreases toks.len(),
{
    if toks.len() > 0 && toks[0].value is Key {
        if toks.len() > 1 && toks[1].value is Value {
            lemma_parse_params_progress(toks.skip(2), lerr, toks[1].hi);
        } else if !(toks.len() == 1 && lerr is Some) {
            lemma_parse_params_progress(toks.skip(1), lerr, toks[0].hi);
        }
    }
}

/// Parsing a template consumes a prefix of the tokens, and consumes
/// none exactly when it yields no template tokens.
pub proof fn lemma_parse_template_progress(
    toks: Seq<TokenRefV>,
    lerr: Option<At<LexErrorV>>,
    pos: FilePosition,
)
    ensures
        spec_parse_template(toks, lerr, pos) matches Ok((ms, rest, p)) ==> rest.len() <= toks.len()
            && (ms.len() == 0 ==> rest == toks && p == pos) && (ms.len() > 0 ==> rest.len()
            < toks.len()),
    decreases toks.len(),
{
    if toks.len() > 0 {
        match toks[0].value {
            TokenValueV::MatchAnyNumberOfLines
            | TokenValueV::MatchNewline
            | TokenValueV::MatchText(_)
            | TokenValueV::Var(_) => {
                lemma_parse_template_progress(toks.skip(1), lerr, toks[0].hi);
            },
            _ => {},
        }
    }
}

/// What parsing the remaining items yields: one item per parameter
/// list and template pair, until an empty pair ends the run.
pub open spec fn spec_parse_items(
    toks: Seq<TokenRefV>,
    lerr: Option<At<LexErrorV>>,
    pos: FilePosition,
) -> Result<Seq<ItemV>, At<ParseErrorV>>
    decreases toks.len(),
        via spec_parse_items_dec
{
    match spec_parse_params(toks, lerr, pos) {
        Err(e) => Err(e),
        Ok((ps, t1, p1)) => {
            match spec_parse_template(t1, lerr, p1) {
                Err(e) => Err(e),
                Ok((ms, t2, p2)) => {
                    if ps.len() == 0 && ms.len() == 0 {
                        Ok(seq![])
                    } else {
                        match spec_parse_items(t2, lerr, p2) {
                            Ok(items) => Ok(seq![ItemV { params: ps, template: ms }] + items),
                            Err(e) => Err(e),
                        }
                    }
                },
            }
        },
    }
}

#[via_fn]
proof fn spec_parse_items_dec(toks: Seq<TokenRefV>, lerr: Option<At<LexErrorV>>, pos: FilePosition) {
    lemma_parse_params_progress(toks, lerr, pos);
    match spec_parse_params(toks, lerr, pos) {
        Ok((ps, t1, p1)) => {
            lemma_parse_template_progress(t1, lerr, p1);
        },
        Err(_) => {},
    }
}

/// What parsing the whole stream yields: the reference semantics of
/// the parser.
pub open spec fn spec_parse(toks: Seq<TokenRefV>, lerr: Option<At<LexErrorV>>, pos: FilePosition) -> Result<
    SpecV,
    At<ParseErrorV>,
> {
    match spec_parse_items(toks, lerr, pos) {
        Ok(items) => Ok(SpecV { items }),
        Err(e) => Err(e),
    }
}

proof fn lemma_stream_len(rev: Seq<TokenRef>)
    ensures
        toks_view(rev.reverse()).len() == rev.len(),
{
    if rev.len() == 0 {
        assert(rev.reverse() =~= Seq::<TokenRef>::empty());
    }
}

proof fn lemma_stream_front(rev: Seq<TokenRef>)
    requires
        rev.len() > 0,
    ensures
        toks_view(rev.reverse()).len() == rev.len(),
        toks_view(rev.reverse())[0] == rev[rev.len() - 1]@,
        toks_view(rev.drop_last().reverse()) == toks_view(rev.reverse()).skip(1),
{
    assert(toks_view(rev.drop_last().reverse()) =~= toks_view(rev.reverse()).skip(1));
}

/// The specification parser: consumes a token stream into a `Spec`.
pub struct Parser {
    /// Remaining tokens, stored in reverse order.
    rev_toks: Vec<TokenRef>,
    /// The lexical error ending the stream, if any.
    error: Option<At<LexError>>,
    /// One byte past the last consumed token.
    pos: FilePosition,
}

impl Parser {
    /// The remaining token stream.
    pub closed spec fn stream(&self) -> StreamV {
        (toks_view(self.rev_toks@.reverse()), err_view(self.error))
    }

    /// The position after the last consumed token.
    pub closed spec fn spec_pos(&self) -> FilePosition {
        self.pos
    }

    /// A parser over the given token stream.
    pub fn new(token_iter: Iter) -> (r: Parser)
        ensures
            r.stream() == token_iter@,
            r.spec_pos() == (FilePosition { line: 0, col: 0, byte: 0 }),
    {
        let (rev_toks, error) = token_iter.into_parts();
        Parser { rev_toks, error, pos: FilePosition::new() }
    }

    /// Parse every remaining item of the stream.
    pub fn parse_spec(&mut self) -> (r: ParseResult<Spec>)
        ensures
            match spec_parse(old(self).stream().0, old(self).stream().1, old(self).spec_pos()) {
                Ok(sv) => r matches Ok(s) && s@ == sv,
                Err(ev) => r matches Err(e) && e@ == ev,
            },
    {
        match self.parse_items() {
            Ok(items) => Ok(Spec { items }),
            Err(e) => Err(e),
        }
    }

    /// Consume and return the front token, if any remain.
    fn next_token(&mut self) -> (r: Option<TokenRef>)
        ensures
            old(self).stream().0.len() > 0 ==> (r matches Some(t) && t@ == old(self).stream().0[0]
                && final(self).stream().0 == old(self).stream().0.skip(1) && final(self).stream().1
                == old(self).stream().1 && final(self).spec_pos() == old(self).spec_pos()),
            old(self).stream().0.len() == 0 ==> r is None && final(self).stream() == old(
                self,
            ).stream() && final(self).spec_pos() == old(self).spec_pos(),
    {
        let ghost rt = self.rev_toks@;
        proof {
            lemma_stream_len(rt);
            if rt.len() > 0 {
                lemma_stream_front(rt);
            } else {
                assert(rt.reverse() =~= rt);
            }
        }
        let r = self.rev_toks.pop();
        proof {
            lemma_stream_len(self.rev_toks@);
            if rt.len() == 0 {
                assert(self.rev_toks@ =~= rt);
            }
        }
        r
    }

    /// Parse the remaining items, stopping at an item with no
    /// parameters and no template tokens.
    fn parse_items(&mut self) -> (r: ParseResult<Vec<Item>>)
        ensures
            match spec_parse_items(old(self).stream().0, old(self).stream().1, old(
                self,
            ).spec_pos()) {
                Ok(iv) => r matches Ok(items) && items@.map_values(|i: Item| i@) == iv,
                Err(ev) => r matches Err(e) && e@ == ev,
            },
        decreases self.stream().0.len(),
    {
        let ghost toks0 = self.stream().0;
        let ghost lerr0 = self.stream().1;
        let ghost pos0 = self.spec_pos();
        proof {
            lemma_stream_len(self.rev_toks@);
            lemma_parse_params_progress(toks0, lerr0, pos0);
        }
        let params = match self.parse_params() {
            Ok(ps) => ps,
            Err(e) => {
                return Err(e);
            },
        };
        proof {
            lemma_parse_template_progress(self.stream().0, lerr0, self.spec_pos());
        }
        let template = match self.parse_template() {
            Ok(ms) => ms,
            Err(e) => {
                return Err(e);
            },
        };
        if params.len() == 0 && template.len() == 0 {
            let empty_items: Vec<Item> = Vec::new();
            proof {
                assert(empty_items@.map_values(|i: Item| i@) =~= Seq::<ItemV>::empty());
            }
            return Ok(empty_items);
        }
        let item = Item { params, template };
        match self.parse_items() {
            Ok(mut items) => {
                let ghost tail = items@;
                items.insert(0, item);
                proof {
                    let f = |i: Item| i@;
                    assert(items@ =~= seq![item] + tail);
                    assert(items@.map_values(f) =~= seq![item@] + tail.map_values(f));
                }
                Ok(items)
            },
            Err(e) => Err(e),
        }
    }

    /// Parse the parameter lines at the front of the stream.
    fn parse_params(&mut self) -> (r: ParseResult<Vec<Param>>)
        ensures
            match spec_parse_params(old(self).stream().0, old(self).stream().1, old(
                self,
            ).spec_pos()) {
                Ok((pv, rest, p)) => r matches Ok(ps) && ps@.map_values(|q: Param| q@) == pv
                    && final(self).stream().0 == rest && final(self).stream().1 == old(
                    self,
                ).stream().1 && final(self).spec_pos() == p,
                Err(ev) => r matches Err(e) && e@ == ev,
            },
        decreases self.stream().0.len(),
    {
        let ghost toks0 = self.stream().0;
        proof {
            lemma_stream_len(self.rev_toks@);
        }
        if self.rev_toks.len() == 0 {
            if self.error.is_some() {
                let e = match self.error.take() {
                    Some(e) => e,
                    None => {
                        return Err(ParseError::UnexpectedEndOfTokens.at(self.pos, self.pos));
                    },
                };
                let At { lo, hi, desc } = e;
                return Err(ParseError::Lex(desc).at(lo, hi));
            }
            let empty_params: Vec<Param> = Vec::new();
            proof {
                assert(empty_params@.map_values(|q: Param| q@) =~= Seq::<ParamV>::empty());
            }
            return Ok(empty_params);
        }
        proof {
            lemma_stream_front(self.rev_toks@);
        }
        let is_key = {
            let t = &self.rev_toks[self.rev_toks.len() - 1];
            match &t.value {
                TokenValue::Key(_) => true,
                TokenValue::Value(_) => {
                    return Err(ParseError::ExpectedKeyFoundValue.at(t.lo, t.hi));
                },
                _ => false,
            }
        };
        if !is_key {
            let empty_params: Vec<Param> = Vec::new();
            proof {
                assert(empty_params@.map_values(|q: Param| q@) =~= Seq::<ParamV>::empty());
            }
            return Ok(empty_params);
        }
        let key_tok = match self.next_token() {
            Some(t) => t,
            None => {
                return Err(ParseError::UnexpectedEndOfTokens.at(self.pos, self.pos));
            },
        };
        self.pos = key_tok.hi;
        let key = match key_tok.value {
            TokenValue::Key(s) => s,
            _ => {
                return Err(ParseError::UnexpectedEndOfTokens.at(self.pos, self.pos));
            },
        };
        // Is the next token a value?
        proof {
            lemma_stream_len(self.rev_toks@);
        }
        let has_value = if self.rev_toks.len() == 0 {
            if self.error.is_some() {
                let e = match self.error.take() {
                    Some(e) => e,
                    None => {
                        return Err(ParseError::UnexpectedEndOfTokens.at(self.pos, self.pos));
                    },
                };
                let At { lo, hi, desc } = e;
                return Err(ParseError::Lex(desc).at(lo, hi));
            }
            false
        } else {
            proof {
                lemma_stream_front(self.rev_toks@);
            }
            let t = &self.rev_toks[self.rev_toks.len() - 1];
            matches!(&t.value, TokenValue::Value(_))
        };
        let value = if has_value {
            let val_tok = match self.next_token() {
                Some(t) => t,
                None => {
                    return Err(ParseError::UnexpectedEndOfTokens.at(self.pos, self.pos));
                },
            };
            self.pos = val_tok.hi;
            match val_tok.value {
                TokenValue::Value(s) => Some(s),
                _ => {
                    return Err(ParseError::UnexpectedEndOfTokens.at(self.pos, self.pos));
                },
            }
        } else {
            None
        };
        let param = Param { key, value };
        proof {
            if has_value {
                assert(toks0.skip(1).skip(1) =~= toks0.skip(2));
            }
        }
        match self.parse_params() {
            Ok(mut ps) => {
                let ghost tail = ps@;
                ps.insert(0, param);
                proof {
                    let f = |q: Param| q@;
                    assert(ps@ =~= seq![param] + tail);
                    assert(ps@.map_values(f) =~= seq![param@] + tail.map_values(f));
                }
                Ok(ps)
            },
            Err(e) => Err(e),
        }
    }

    /// Parse the template tokens at the front of the stream.
    fn parse_template(&mut self) -> (r: ParseResult<Vec<Match>>)
        ensures
            match spec_parse_template(old(self).stream().0, old(self).stream().1, old(
                self,
            ).spec_pos()) {
                Ok((mv, rest, p)) => r matches Ok(ms) && ms@.map_values(|m: Match| m@) == mv
                    && final(self).stream().0 == rest && final(self).stream().1 == old(
                    self,
                ).stream().1 && final(self).spec_pos() == p,
                Err(ev) => r matches Err(e) && e@ == ev,
            },
        decreases self.stream().0.len(),
    {
        let ghost toks0 = self.stream().0;
        proof {
            lemma_stream_len(self.rev_toks@);
        }
        if self.rev_toks.len() == 0 {
            if self.error.is_some() {
                let e = match self.error.take() {
                    Some(e) => e,
                    None => {
                        return Err(ParseError::UnexpectedEndOfTokens.at(self.pos, self.pos));
                    },
                };
                let At { lo, hi, desc } = e;
                return Err(ParseError::Lex(desc).at(lo, hi));
            }
            let empty_ms: Vec<Match> = Vec::new();
            proof {
                assert(empty_ms@.map_values(|m: Match| m@) =~= Seq::<MatchV>::empty());
            }
            return Ok(empty_ms);
        }
        proof {
            lemma_stream_front(self.rev_toks@);
        }
        let is_template = {
            let t = &self.rev_toks[self.rev_toks.len() - 1];
            match &t.value {
                TokenValue::MatchAnyNumberOfLines
                | TokenValue::MatchNewline
                | TokenValue::MatchText(_)
                | TokenValue::Var(_) => true,
                _ => false,
            }
        };
        if !is_template {
            let empty_ms: Vec<Match> = Vec::new();
            proof {
                assert(empty_ms@.map_values(|m: Match| m@) =~= Seq::<MatchV>::empty());
            }
            return Ok(empty_ms);
        }
        let tok = match self.next_token() {
            Some(t) => t,
            None => {
                return Err(ParseError::UnexpectedEndOfTokens.at(self.pos, self.pos));
            },
        };
        self.pos = tok.hi;
        let m = match tok.value {
            TokenValue::MatchAnyNumberOfLines => Match::MultipleLines,
            TokenValue::MatchNewline => Match::NewLine,
            TokenValue::MatchText(s) => Match::Text(s),
            TokenValue::Var(s) => Match::Var(s),
            _ => {
                return Err(ParseError::UnexpectedEndOfTokens.at(self.pos, self.pos));
            },
        };
        match self.parse_template() {
            Ok(mut ms) => {
                let ghost tail = ms@;
                ms.insert(0, m);
                proof {
                    let f = |x: Match| x@;
                    assert(ms@ =~= seq![m] + tail);
                    assert(ms@.map_values(f) =~= seq![m@] + tail.map_values(f));
                }
                Ok(ms)
            },
            Err(e) => Err(e),
        }
    }
}

} // verus!
