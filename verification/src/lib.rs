//! A lexical scanner and statement grouper for a small line-oriented
//! scripting notation.
//!
//! The scanner walks raw source text once, left to right, and produces an
//! ordered sequence of classified tokens with line and column positions.
//! The grouper partitions that token sequence into statements delimited by
//! the terminator token, classifies each statement by its first token, and
//! renders it to an output string.

pub mod lexer;
pub mod parser;
pub mod text;
pub mod token;
