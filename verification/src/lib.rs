//! Checks whether files match a small template specification language.
//!
//! A specification file is parsed into a list of items, each holding
//! parameters (`## key: value` lines) and a template: literal text runs,
//! explicit newline markers, variable placeholders and a wildcard that
//! matches any number of lines.  An item's template can then be matched
//! against the byte contents of a target file, yielding a positioned
//! error on mismatch, or rendered into concrete contents given a set of
//! variable values.

pub mod ast;
pub mod err;
pub mod laws;
pub mod lexer;
pub mod matcher;
pub mod parser;
pub mod pos;
pub mod template;
mod trusted;

pub use ast::{Match, Param};
pub use err::{At, LexError, ParseError, TemplateMatchError, TemplateWriteError};
pub use lexer::{tokenize, Iter, TokenRef, TokenValue};
pub use parser::Parser;
pub use pos::FilePosition;
pub use template::{Item, ItemIter, ItemValuesByKeyIter, Options, Spec};
