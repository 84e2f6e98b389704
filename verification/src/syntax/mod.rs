//! Syntax: source spans, tokens and the lexer.

pub mod span;
pub mod token;
pub mod lexer;
pub mod ast;
pub mod parser;

pub use span::{Span, Spanned};
