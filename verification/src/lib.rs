//! Front end for a small language: a source registry, a lexer that turns a
//! file's raw bytes into a span-annotated token sequence, and a recursive
//! descent parser that builds a span-annotated abstract syntax tree from
//! those tokens.  Lexing is total: unrecognized input degrades to garbage
//! tokens, and the token sequence always ends with exactly one end-of-input
//! marker.  Syntax violations surface as error values carrying a message and
//! the offending span.

use vstd::prelude::*;

pub mod compiler;
pub mod error;
pub mod lexer;
pub mod parsed_types;
pub mod parser;

verus! {

} // verus!
