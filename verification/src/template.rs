//! The public face of the library: parsing a specification, walking
//! its items, and rendering an item's template into concrete contents.

use vstd::prelude::*;
use vstd::slice::slice_to_vec;
use vstd::string::{StringExecFns, StringSliceAdditionalSpecFns};
use vstd::utf8::encode_utf8;
use crate::ast;
use crate::ast::{params_view, template_view, ItemV, Match, MatchV, Param, ParamV, SpecV};
use crate::err::{At, ParseError, TemplateWriteError, TemplateWriteErrorV};
use crate::lexer;
use crate::lexer::{spec_lex, LexState, OptionsV};
use crate::parser::{spec_parse, Parser};
use crate::pos::FilePosition;

verus! {

/// Specification parser options: the marker strings of the template
/// syntax.
#[derive(Copy, Clone, Debug)]
pub struct Options<'a> {
    /// String that marks multiple lines to be skipped.
    pub skip_lines: &'a str,
    /// Prefix that marks the line as containing a parameter.
    pub marker: &'a str,
    /// Variable start prefix.
    pub var_start: &'a str,
    /// Variable end suffix.
    pub var_end: &'a str,
}

impl<'a> View for Options<'a> {
    type V = OptionsV;

    open spec fn view(&self) -> OptionsV {
        OptionsV {
            skip_lines: self.skip_lines.spec_bytes(),
            marker: self.marker.spec_bytes(),
            var_start: self.var_start.spec_bytes(),
            var_end: self.var_end.spec_bytes(),
        }
    }
}

/// What parsing `contents` under `options` yields: the token stream of
/// the lexer, parsed into a specification.
pub open spec fn spec_parse_spec(o: OptionsV, contents: Seq<u8>) -> Result<
    SpecV,
    At<crate::err::ParseErrorV>,
> {
    let origin = FilePosition { line: 0, col: 0, byte: 0 };
    let stream = spec_lex(o, contents, LexState::LineStart { content_line_end: None }, origin);
    spec_parse(stream.0, stream.1, origin)
}

/// A parsed specification.
#[derive(Debug)]
pub struct Spec {
    ast: ast::Spec,
}

impl View for Spec {
    type V = SpecV;

    closed spec fn view(&self) -> SpecV {
        self.ast@
    }
}

impl Spec {
    /// Parse a specification from in-memory contents.
    pub fn parse<'a>(options: Options<'a>, contents: &'a [u8]) -> (r: Result<
        Spec,
        At<ParseError>,
    >)
        requires
            options@.wf(),
        ensures
            match spec_parse_spec(options@, contents@) {
                Ok(sv) => r matches Ok(s) && s@ == sv,
                Err(ev) => r matches Err(e) && e@ == ev,
            },
    {
        let lex_options = lexer::Options {
            skip_lines: options.skip_lines.as_bytes(),
            marker: options.marker.as_bytes(),
            var_start: options.var_start.as_bytes(),
            var_end: options.var_end.as_bytes(),
        };
        let iter = lexer::tokenize(lex_options, contents);
        let mut parser = Parser::new(iter);
        match parser.parse_spec() {
            Ok(spec_ast) => Ok(Spec { ast: spec_ast }),
            Err(e) => Err(e),
        }
    }

    /// An iterator over the specification's items.
    pub fn iter<'r>(&'r self) -> (r: ItemIter<'r>)
        ensures
            r.remaining() == self@.items,
    {
        let it = ItemIter { items: self.ast.items.as_slice(), idx: 0 };
        proof {
            assert(it.remaining() =~= self@.items);
        }
        it
    }

    /// An iterator over the items that carry a value for `key`, paired
    /// with that value.
    pub fn iter_item_values<'r, 'p>(&'r self, key: &'p str) -> (r: ItemValuesByKeyIter<'r, 'p>)
        ensures
            r.remaining() == self@.items,
            r.spec_key() == key@,
    {
        ItemValuesByKeyIter { inner: self.iter(), key }
    }
}

/// First value for `key` among `params`: the first parameter with that
/// key and a value wins; key-only parameters are passed over.
pub open spec fn spec_get_param(params: Seq<ParamV>, key: Seq<char>) -> Option<Seq<char>>
    decreases params.len(),
{
    if params.len() == 0 {
        None
    } else if params[0].key == key && params[0].value is Some {
        Some(params[0].value->0)
    } else {
        spec_get_param(params.drop_first(), key)
    }
}

/// A specification item: parameters and the template to match a file
/// against, borrowed from its `Spec`.
#[derive(Debug)]
pub struct Item<'s> {
    /// The item's parameters, used to tell items apart.
    pub params: &'s [Param],
    /// The item's template.
    pub template: &'s [Match],
}

impl<'s> View for Item<'s> {
    type V = ItemV;

    open spec fn view(&self) -> ItemV {
        ItemV { params: params_view(self.params@), template: template_view(self.template@) }
    }
}

impl<'s> Item<'s> {
    /// The value of the first parameter with the given key that has
    /// one, if any.
    pub fn get_param(&self, key: &str) -> (r: Option<&'s str>)
        ensures
            match spec_get_param(self@.params, key@) {
                Some(v) => r matches Some(s) && s@ == v,
                None => r is None,
            },
    {
        let key_string = key.to_owned();
        let n = self.params.len();
        proof {
            assert(self@.params.skip(0) =~= self@.params);
        }
        let mut i: usize = 0;
        while i < n
            invariant
                0 <= i <= n,
                n == self.params@.len(),
                key_string@ == key@,
                spec_get_param(self@.params, key@) == spec_get_param(
                    self@.params.skip(i as int),
                    key@,
                ),
            decreases n - i,
        {
            let ghost pre = self@.params.skip(i as int);
            let p = slice_index(self.params, i);
            proof {
                assert(pre[0] == self@.params[i as int]);
                assert(pre.drop_first() =~= self@.params.skip(i + 1));
            }
            if p.key == key_string {
                match &p.value {
                    Some(v) => {
                        return Some(v.as_str());
                    },
                    None => {},
                }
            }
            i = i + 1;
        }
        proof {
            assert(self@.params.skip(n as int) =~= Seq::<ParamV>::empty());
        }
        None
    }
}

/// Element `i` of a slice.
pub(crate) fn slice_index<'a, T>(s: &'a [T], i: usize) -> (r: &'a T)
    requires
        i < s@.len(),
    ensures
        *r == s@[i as int],
{
    &s[i]
}

/// First value for `key` among a variable map's entries: the first
/// pair with that key wins.
pub open spec fn var_lookup(params: Seq<(String, String)>, key: Seq<char>) -> Option<Seq<char>>
    decreases params.len(),
{
    if params.len() == 0 {
        None
    } else if params[0].0@ == key {
        Some(params[0].1@)
    } else {
        var_lookup(params.drop_first(), key)
    }
}

/// Index of the first variable-map entry for `key`, if any.
pub(crate) fn find_var(params: &[(String, String)], key: &String) -> (r: Option<usize>)
    ensures
        match r {
            Some(i) => 0 <= i < params@.len() && var_lookup(params@, key@) == Some(
                params@[i as int].1@,
            ),
            None => var_lookup(params@, key@) is None,
        },
{
    let n = params.len();
    proof {
        assert(params@.skip(0) =~= params@);
    }
    let mut i: usize = 0;
    while i < n
        invariant
            0 <= i <= n,
            n == params@.len(),
            var_lookup(params@, key@) == var_lookup(params@.skip(i as int), key@),
        decreases n - i,
    {
        let ghost pre = params@.skip(i as int);
        let p = slice_index(params, i);
        proof {
            assert(pre[0] == params@[i as int]);
            assert(pre.drop_first() =~= params@.skip(i + 1));
        }
        if p.0 == *key {
            return Some(i);
        }
        i = i + 1;
    }
    proof {
        assert(params@.skip(n as int) =~= Seq::<(String, String)>::empty());
    }
    None
}

/// The first rendering fault in `template` under `params`, if any: a
/// wildcard cannot be rendered, and every referenced variable must be
/// present.
pub open spec fn spec_render_err(template: Seq<MatchV>, params: Seq<(String, String)>) -> Option<
    TemplateWriteErrorV,
>
    decreases template.len(),
{
    if template.len() == 0 {
        None
    } else {
        match template[0] {
            MatchV::MultipleLines => Some(TemplateWriteErrorV::CanNotWriteMatchAnySymbols),
            MatchV::Var(k) => if var_lookup(params, k) is None {
                Some(TemplateWriteErrorV::MissingParam(k))
            } else {
                spec_render_err(template.drop_first(), params)
            },
            _ => spec_render_err(template.drop_first(), params),
        }
    }
}

/// The characters `template` renders to under `params`: a newline for
/// each line boundary, text runs verbatim, variables substituted.
pub open spec fn spec_rendered(template: Seq<MatchV>, params: Seq<(String, String)>) -> Seq<char>
    decreases template.len(),
{
    if template.len() == 0 {
        seq![]
    } else {
        (match template[0] {
            MatchV::NewLine => seq!['\n'],
            MatchV::Text(s) => s,
            MatchV::Var(k) => match var_lookup(params, k) {
                Some(v) => v,
                None => seq![],
            },
            MatchV::MultipleLines => seq![],
        }) + spec_rendered(template.drop_first(), params)
    }
}

impl<'s> Item<'s> {
    /// Render the template into a string under the given variable map;
    /// validates the whole template before emitting anything.
    fn render_string(&self, params: &[(String, String)]) -> (r: Result<
        String,
        TemplateWriteError,
    >)
        ensures
            match r {
                Ok(s) => spec_render_err(self@.template, params@) is None && s@ == spec_rendered(
                    self@.template,
                    params@,
                ),
                Err(e) => spec_render_err(self@.template, params@) == Some(e@),
            },
    {
        let ghost tv = self@.template;
        let n = self.template.len();
        proof {
            assert(tv.skip(0) =~= tv);
        }
        // Validation pass: report the first fault, in template order.
        let mut i: usize = 0;
        while i < n
            invariant
                0 <= i <= n,
                n == self.template@.len(),
                tv == template_view(self.template@),
                spec_render_err(tv, params@) == spec_render_err(tv.skip(i as int), params@),
            decreases n - i,
        {
            let ghost pre = tv.skip(i as int);
            proof {
                assert(pre[0] == tv[i as int]);
                assert(pre.drop_first() =~= tv.skip(i + 1));
            }
            let m = slice_index(self.template, i);
            match m {
                Match::MultipleLines => {
                    return Err(TemplateWriteError::CanNotWriteMatchAnySymbols);
                },
                Match::Var(k) => {
                    if find_var(params, k).is_none() {
                        return Err(TemplateWriteError::MissingParam(k.clone()));
                    }
                },
                _ => {},
            }
            i = i + 1;
        }
        proof {
            assert(tv.skip(n as int) =~= Seq::<MatchV>::empty());
        }
        // Emission pass.
        let mut out = String::new();
        proof {
            assert(tv.skip(0) =~= tv);
            assert(spec_rendered(tv, params@) =~= out@ + spec_rendered(tv, params@));
        }
        let mut i: usize = 0;
        while i < n
            invariant
                0 <= i <= n,
                n == self.template@.len(),
                tv == template_view(self.template@),
                spec_render_err(tv.skip(i as int), params@) is None,
                spec_rendered(tv, params@) == out@ + spec_rendered(tv.skip(i as int), params@),
            decreases n - i,
        {
            let ghost pre = tv.skip(i as int);
            proof {
                assert(pre[0] == tv[i as int]);
                assert(pre.drop_first() =~= tv.skip(i + 1));
            }
            let m = slice_index(self.template, i);
            match m {
                Match::NewLine => {
                    out.append("\n");
                    proof {
                        reveal_strlit("\n");
                        assert("\n"@ =~= seq!['\n']);
                    }
                },
                Match::Text(s) => {
                    out.append(s.as_str());
                },
                Match::Var(k) => {
                    match find_var(params, k) {
                        Some(vi) => {
                            let v = slice_index(params, vi);
                            out.append(v.1.as_str());
                        },
                        None => {
                            proof {
                                assert(false);
                            }
                        },
                    }
                },
                Match::MultipleLines => {
                    proof {
                        assert(false);
                    }
                },
            }
            i = i + 1;
        }
        proof {
            assert(tv.skip(n as int) =~= Seq::<MatchV>::empty());
            assert(out@ + spec_rendered(tv.skip(n as int), params@) =~= out@);
        }
        Ok(out)
    }

    /// Render the template into bytes under the given variable map.
    pub fn write_contents(&self, params: &[(String, String)]) -> (r: Result<
        Vec<u8>,
        TemplateWriteError,
    >)
        ensures
            match r {
                Ok(bytes) => spec_render_err(self@.template, params@) is None && bytes@
                    == encode_utf8(spec_rendered(self@.template, params@)),
                Err(e) => spec_render_err(self@.template, params@) == Some(e@),
            },
    {
        match self.render_string(params) {
            Ok(s) => Ok(slice_to_vec(s.as_str().as_bytes())),
            Err(e) => Err(e),
        }
    }

    /// Render the template with no variables into a string.
    pub fn to_string(&self) -> (r: Result<String, TemplateWriteError>)
        ensures
            ({
                let no_vars = Seq::<(String, String)>::empty();
                match r {
                    Ok(s) => spec_render_err(self@.template, no_vars) is None && s@
                        == spec_rendered(self@.template, no_vars),
                    Err(e) => spec_render_err(self@.template, no_vars) == Some(e@),
                }
            }),
    {
        let empty: Vec<(String, String)> = Vec::new();
        self.render_string(empty.as_slice())
    }
}

/// Iterator over a specification's items.
pub struct ItemIter<'a> {
    items: &'a [ast::Item],
    idx: usize,
}

impl<'a> ItemIter<'a> {
    /// The items not yet yielded.
    pub closed spec fn remaining(&self) -> Seq<ItemV> {
        let all = self.items@.map_values(|i: ast::Item| i@);
        if self.idx <= all.len() {
            all.skip(self.idx as int)
        } else {
            Seq::empty()
        }
    }

    /// The next item, if any remain.
    pub fn next(&mut self) -> (r: Option<Item<'a>>)
        ensures
            old(self).remaining().len() > 0 ==> (r matches Some(item) && item@ == old(
                self,
            ).remaining()[0] && final(self).remaining() == old(self).remaining().drop_first()),
            old(self).remaining().len() == 0 ==> (r is None && final(self).remaining() == old(
                self,
            ).remaining()),
    {
        if self.idx < self.items.len() {
            let it = slice_index(self.items, self.idx);
            self.idx = self.idx + 1;
            let item = Item { params: it.params.as_slice(), template: it.template.as_slice() };
            proof {
                assert(old(self).remaining()[0] == self.items@.map_values(|i: ast::Item| i@)[old(
                    self,
                ).idx as int]);
                assert(final(self).remaining() =~= old(self).remaining().drop_first());
            }
            Some(item)
        } else {
            proof {
                assert(old(self).remaining().len() == 0);
            }
            None
        }
    }
}

/// The first remaining item carrying a value for `key`, with that
/// value and the items left after it.
pub open spec fn spec_find_with_key(items: Seq<ItemV>, key: Seq<char>) -> Option<
    (ItemV, Seq<char>, Seq<ItemV>),
>
    decreases items.len(),
{
    if items.len() == 0 {
        None
    } else {
        match spec_get_param(items[0].params, key) {
            Some(v) => Some((items[0], v, items.drop_first())),
            None => spec_find_with_key(items.drop_first(), key),
        }
    }
}

/// Iterator over the items that carry a value for a given key.
pub struct ItemValuesByKeyIter<'a, 'p> {
    inner: ItemIter<'a>,
    key: &'p str,
}

impl<'a, 'p> ItemValuesByKeyIter<'a, 'p> {
    /// The items not yet considered.
    pub closed spec fn remaining(&self) -> Seq<ItemV> {
        self.inner.remaining()
    }

    /// The key filtered for.
    pub closed spec fn spec_key(&self) -> Seq<char> {
        self.key@
    }

    /// The next item holding a value for the key, with that value.
    pub fn next(&mut self) -> (r: Option<(Item<'a>, &'a str)>)
        ensures
            final(self).spec_key() == old(self).spec_key(),
            match spec_find_with_key(old(self).remaining(), old(self).spec_key()) {
                Some((iv, v, rest)) => r matches Some((item, val)) && item@ == iv && val@ == v
                    && final(self).remaining() == rest,
                None => r is None,
            },
        decreases self.remaining().len(),
    {
        match self.inner.next() {
            Some(item) => {
                match item.get_param(self.key) {
                    Some(value) => Some((item, value)),
                    None => self.next(),
                }
            },
            None => None,
        }
    }
}

} // verus!
