//! Error types for lexing, parsing, matching and rendering, and the
//! `At<T>` wrapper that attaches a source span to an error.

use vstd::prelude::*;
use crate::lexer::{TokenValue, TokenValueV};
use crate::pos::FilePosition;

verus! {

/// A value together with the span it points at: `lo` is the first byte
/// of the region, `hi` is one byte past its end.
#[derive(Debug)]
pub struct At<T> {
    /// The low position this error points at.
    pub lo: FilePosition,
    /// One byte beyond the last position this error points at.
    pub hi: FilePosition,
    /// The inner error.
    pub desc: T,
}

impl<T: View> View for At<T> {
    type V = At<<T as View>::V>;

    open spec fn view(&self) -> At<<T as View>::V> {
        At { lo: self.lo, hi: self.hi, desc: self.desc@ }
    }
}

/// Ghost mirror of `LexError`, with sequence payloads.
pub ghost enum LexErrorV {
    ExpectedSequenceFoundNewline { expected: Seq<u8> },
    ExpectedNewline,
    Utf8,
}

/// An error found while turning raw bytes into tokens.
#[derive(Debug, PartialEq, Eq)]
pub enum LexError {
    /// A terminator sequence (such as a variable-end marker) was
    /// expected before the end of the line, but the line ended first.
    ExpectedSequenceFoundNewline { expected: Vec<u8> },
    /// A line terminator was expected at this position.
    ExpectedNewline,
    /// A scanned text region is not valid UTF-8.
    Utf8,
}

impl View for LexError {
    type V = LexErrorV;

    open spec fn view(&self) -> LexErrorV {
        match self {
            LexError::ExpectedSequenceFoundNewline { expected } => {
                LexErrorV::ExpectedSequenceFoundNewline { expected: expected@ }
            },
            LexError::ExpectedNewline => LexErrorV::ExpectedNewline,
            LexError::Utf8 => LexErrorV::Utf8,
        }
    }
}

impl LexError {
    /// Attach a span to this error.
    pub fn at(self, lo: FilePosition, hi: FilePosition) -> (r: At<LexError>)
        ensures
            r@ == (At { lo, hi, desc: self@ }),
    {
        At { lo, hi, desc: self }
    }
}

/// Ghost mirror of `ParseError`.
pub ghost enum ParseErrorV {
    Lex(LexErrorV),
    ExpectedKeyFoundValue,
    UnexpectedEndOfTokens,
    ExpectedDifferentToken { expected: Seq<TokenValueV>, found: TokenValueV },
}

/// An error found while parsing the token stream into items.
#[derive(Debug, PartialEq, Eq)]
pub enum ParseError {
    /// A lexical error in the underlying token stream.
    Lex(LexError),
    /// A parameter value token appeared where a key was expected.
    ExpectedKeyFoundValue,
    /// The token stream ended in the middle of a construct.
    UnexpectedEndOfTokens,
    /// Another kind of token stood where one of `expected` was needed.
    ExpectedDifferentToken { expected: Vec<TokenValue>, found: TokenValue },
}

impl View for ParseError {
    type V = ParseErrorV;

    open spec fn view(&self) -> ParseErrorV {
        match self {
            ParseError::Lex(e) => ParseErrorV::Lex(e@),
            ParseError::ExpectedKeyFoundValue => ParseErrorV::ExpectedKeyFoundValue,
            ParseError::UnexpectedEndOfTokens => ParseErrorV::UnexpectedEndOfTokens,
            ParseError::ExpectedDifferentToken { expected, found } => {
                ParseErrorV::ExpectedDifferentToken {
                    expected: expected@.map_values(|t: TokenValue| t@),
                    found: found@,
                }
            },
        }
    }
}

impl ParseError {
    /// Attach a span to this error.
    pub fn at(self, lo: FilePosition, hi: FilePosition) -> (r: At<ParseError>)
        ensures
            r@ == (At { lo, hi, desc: self@ }),
    {
        At { lo, hi, desc: self }
    }
}

/// Ghost mirror of `TemplateMatchError`.
pub ghost enum TemplateMatchErrorV {
    ExpectedEof,
    ExpectedText { expected: Seq<char>, found: Seq<char> },
    ExpectedEol,
    ExpectedTextFoundEof(Seq<char>),
    MissingParam(Seq<char>),
}

/// An error found while matching a template against target contents.
#[derive(Debug, PartialEq, Eq)]
pub enum TemplateMatchError {
    /// The template is exhausted but target content remains.
    ExpectedEof,
    /// A literal or substituted text run does not appear at the
    /// current position; `found` holds the rest of the target line.
    ExpectedText { expected: String, found: String },
    /// A line terminator (or end of input) was expected at this
    /// position, but plain content follows.
    ExpectedEol,
    /// A text run was still expected when the target ended.
    ExpectedTextFoundEof(String),
    /// The template refers to a variable absent from the supplied map.
    MissingParam(String),
}

impl View for TemplateMatchError {
    type V = TemplateMatchErrorV;

    open spec fn view(&self) -> TemplateMatchErrorV {
        match self {
            TemplateMatchError::ExpectedEof => TemplateMatchErrorV::ExpectedEof,
            TemplateMatchError::ExpectedText { expected, found } => {
                TemplateMatchErrorV::ExpectedText { expected: expected@, found: found@ }
            },
            TemplateMatchError::ExpectedEol => TemplateMatchErrorV::ExpectedEol,
            TemplateMatchError::ExpectedTextFoundEof(t) => {
                TemplateMatchErrorV::ExpectedTextFoundEof(t@)
            },
            TemplateMatchError::MissingParam(k) => TemplateMatchErrorV::MissingParam(k@),
        }
    }
}

impl TemplateMatchError {
    /// Attach a span to this error.
    pub fn at(self, lo: FilePosition, hi: FilePosition) -> (r: At<TemplateMatchError>)
        ensures
            r@ == (At { lo, hi, desc: self@ }),
    {
        At { lo, hi, desc: self }
    }

    /// True when both errors describe the same mismatch.
    fn same_desc(&self, other: &TemplateMatchError) -> (r: bool)
        ensures
            r == (self@ == other@),
    {
        match self {
            TemplateMatchError::ExpectedEof => matches!(other, TemplateMatchError::ExpectedEof),
            TemplateMatchError::ExpectedText { expected: ea, found: fa } => match other {
                TemplateMatchError::ExpectedText { expected: eb, found: fb } => {
                    *ea == *eb && *fa == *fb
                },
                _ => false,
            },
            TemplateMatchError::ExpectedEol => {
                matches!(other, TemplateMatchError::ExpectedEol)
            },
            TemplateMatchError::ExpectedTextFoundEof(a) => match other {
                TemplateMatchError::ExpectedTextFoundEof(b) => *a == *b,
                _ => false,
            },
            TemplateMatchError::MissingParam(a) => match other {
                TemplateMatchError::MissingParam(b) => *a == *b,
                _ => false,
            },
        }
    }
}

impl At<TemplateMatchError> {
    /// Check that this positioned error holds the given mismatch, with
    /// `lo` and `hi` as `(line, col)` pairs; describes the first
    /// difference found otherwise.
    pub fn assert_matches(
        &self,
        other_err: &TemplateMatchError,
        lo: (usize, usize),
        hi: (usize, usize),
    ) -> (r: Result<(), String>)
        ensures
            r is Ok <==> (self@.desc == other_err@ && self.lo.line == lo.0 && self.hi.line == hi.0
                && self.lo.col == lo.1 && self.hi.col == hi.1),
    {
        if !self.desc.same_desc(other_err) {
            return Err(String::from_str("error description does not match"));
        }
        if self.lo.line != lo.0 {
            return Err(String::from_str("error start line does not match"));
        }
        if self.hi.line != hi.0 {
            return Err(String::from_str("error end line does not match"));
        }
        if self.lo.col != lo.1 {
            return Err(String::from_str("error start col does not match"));
        }
        if self.hi.col != hi.1 {
            return Err(String::from_str("error end col does not match"));
        }
        Ok(())
    }
}

/// Ghost mirror of `TemplateWriteError`.
pub ghost enum TemplateWriteErrorV {
    CanNotWriteMatchAnySymbols,
    MissingParam(Seq<char>),
}

/// An error found while rendering a template into concrete contents.
#[derive(Debug, PartialEq, Eq)]
pub enum TemplateWriteError {
    /// The template holds a match-any-lines wildcard, which has no
    /// concrete rendering.
    CanNotWriteMatchAnySymbols,
    /// The template refers to a variable absent from the supplied map.
    MissingParam(String),
}

impl View for TemplateWriteError {
    type V = TemplateWriteErrorV;

    open spec fn view(&self) -> TemplateWriteErrorV {
        match self {
            TemplateWriteError::CanNotWriteMatchAnySymbols => {
                TemplateWriteErrorV::CanNotWriteMatchAnySymbols
            },
            TemplateWriteError::MissingParam(k) => TemplateWriteErrorV::MissingParam(k@),
        }
    }
}

} // verus!
