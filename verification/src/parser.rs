//! Parsing: tokens to items, by recursive descent.

pub mod arity;
pub mod grammar;
pub mod parse;
pub mod trivia;
