//! Incremental, line-oriented lexical scanner for syntax highlighting.
//!
//! The scanner carves each logical line of a document into classified spans
//! (tokens), driven by an ordered table of transition rules rather than a
//! hand-written per-language parser.  Lexical state is carried across line
//! boundaries so that multi-line constructs such as block comments are
//! classified correctly without rescanning the whole document.

pub mod document;
pub mod grammar;
pub mod parser;
pub mod scan;
pub mod tokens;
