//! The specification AST: items holding parameters and a template of
//! match tokens.

use vstd::prelude::*;

verus! {

/// Ghost mirror of `Match`.
pub ghost enum MatchV {
    MultipleLines,
    NewLine,
    Text(Seq<char>),
    Var(Seq<char>),
}

/// One template token.
#[derive(Debug, PartialEq, Eq)]
pub enum Match {
    /// Match any number of lines containing anything.
    MultipleLines,
    /// Match a line boundary.
    NewLine,
    /// Match this text exactly.
    Text(String),
    /// Match the value of a variable from the map supplied at match time.
    Var(String),
}

impl View for Match {
    type V = MatchV;

    open spec fn view(&self) -> MatchV {
        match self {
            Match::MultipleLines => MatchV::MultipleLines,
            Match::NewLine => MatchV::NewLine,
            Match::Text(s) => MatchV::Text(s@),
            Match::Var(s) => MatchV::Var(s@),
        }
    }
}

impl Clone for Match {
    fn clone(&self) -> (res: Self)
        ensures
            res == *self,
    {
        match self {
            Match::MultipleLines => Match::MultipleLines,
            Match::NewLine => Match::NewLine,
            Match::Text(s) => Match::Text(s.clone()),
            Match::Var(s) => Match::Var(s.clone()),
        }
    }
}

/// Ghost mirror of `Param`.
pub ghost struct ParamV {
    pub key: Seq<char>,
    pub value: Option<Seq<char>>,
}

/// A specification item parameter, parsed from a marker line.
#[derive(Debug, PartialEq, Eq)]
pub struct Param {
    /// Parameter key.
    pub key: String,
    /// Parameter value, absent for key-only parameters.
    pub value: Option<String>,
}

impl View for Param {
    type V = ParamV;

    open spec fn view(&self) -> ParamV {
        ParamV {
            key: self.key@,
            value: match &self.value {
                Some(v) => Some(v@),
                None => None,
            },
        }
    }
}

/// Ghost mirror of `Item`.
pub ghost struct ItemV {
    pub params: Seq<ParamV>,
    pub template: Seq<MatchV>,
}

/// One specification item: its parameters and its template.
#[derive(Debug, PartialEq, Eq)]
pub struct Item {
    /// Parameters that distinguish this item.
    pub params: Vec<Param>,
    /// The template the item matches or renders.
    pub template: Vec<Match>,
}

/// The views of a sequence of parameters.
pub open spec fn params_view(v: Seq<Param>) -> Seq<ParamV> {
    v.map_values(|p: Param| p@)
}

/// The views of a template.
pub open spec fn template_view(v: Seq<Match>) -> Seq<MatchV> {
    v.map_values(|m: Match| m@)
}

impl View for Item {
    type V = ItemV;

    open spec fn view(&self) -> ItemV {
        ItemV { params: params_view(self.params@), template: template_view(self.template@) }
    }
}

/// Ghost mirror of `Spec`.
pub ghost struct SpecV {
    pub items: Seq<ItemV>,
}

/// The full parse of one specification file.
#[derive(Debug, PartialEq, Eq)]
pub struct Spec {
    /// The specification items, in file order.
    pub items: Vec<Item>,
}

impl View for Spec {
    type V = SpecV;

    open spec fn view(&self) -> SpecV {
        SpecV { items: self.items@.map_values(|i: Item| i@) }
    }
}

} // verus!
