//! Lexical analysis: source bytes to tokens with their leading trivia.

pub mod token;
pub mod scan;
pub mod lex;
