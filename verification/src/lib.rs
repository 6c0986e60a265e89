//! A small arithmetic expression processor.
//!
//! A line of text containing signed integer arithmetic (`+ - * /`, unary
//! `+`/`-`, parentheses) is turned into a sequence of positioned tokens,
//! parsed into an abstract syntax tree by recursive descent, and then either
//! evaluated to a 64-bit integer or compiled to a postfix (reverse-Polish)
//! token stream. Every stage is a pure function that either succeeds or
//! returns a structured error carrying the source span it concerns.

pub mod error;
pub mod interpreter;
pub mod lexer;
pub mod parser;
pub mod reverse_polish;
pub mod utils;
