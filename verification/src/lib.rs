//! A front end for the Type Language (TL): a lexer, a token stream and a
//! grammar that turn schema text into a syntax tree of the declared types,
//! constructors and functions.

pub mod ast;
pub mod lexer;
pub mod lexical;
pub mod numbers;
pub mod grammar;
pub mod rules;
pub mod parser;
pub mod laws;
pub mod bounds;
pub mod barrier;
