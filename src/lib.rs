//! Lexical analysis for a small programming language: source text in,
//! a sequence of typed tokens out, or the first lexical error.
//!
//! `grammar` states what the tokens of a text are, over sequences of
//! characters; `lexer` scans a text and is proved to agree with it;
//! `laws` proves general facts about the grammar.

pub mod chars;
pub mod grammar;
pub mod laws;
pub mod lexer;
pub mod token;

pub use lexer::{tokenize, Lexer};
pub use token::{Lexeme, Token};
