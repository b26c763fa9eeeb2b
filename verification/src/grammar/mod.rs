//! Grammars describing sets of strings, the syntax trees they produce, a backtracking
//! parser from strings to syntax trees, and the conversion of regular expressions
//! into grammars.

pub mod ast;
pub mod grammar;
pub mod language;
pub mod parser;
pub mod regex;
pub mod termination;
pub mod order;
