//! Front end of the NX language: source text to tokens, tokens to declarations.
//!
//! - `token`: tokens and their classes
//! - `lexer`: source text to tokens, by an ordered table of lexical rules
//! - `ast`: the syntax tree and its model
//! - `grammar`: what a token sequence parses to
//! - `parser`: the parser, proved against the grammar
//! - `window`: the grammar reads only the tokens of what it parses
//! - `laws`: the empty input, the order of declarations, failing fast
//! - `text`: character classes, string equality, integer literals, numerals

pub mod ast;
pub mod grammar;
pub mod laws;
pub mod lexer;
pub mod parser;
pub mod text;
pub mod token;
pub mod window;
