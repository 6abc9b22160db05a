//! Evaluation of compact date-math expressions such as `now-1d/d` against a
//! reference date-time.
pub mod datetime;
pub mod token;
pub mod operation;
pub mod lexer;
pub mod parser;
pub mod eval;
