//! Arithmetic expressions over decimal literals: whitespace stripping, character
//! validation and a recursive-descent parser for `+ - * / % ^` and parentheses.
//! The parser yields an expression tree; numeric evaluation of the tree is left to
//! the caller.
pub mod syntax;
pub mod text;
pub mod grammar;
pub mod parser;
pub mod laws;
