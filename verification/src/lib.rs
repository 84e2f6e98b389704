//! Neap: a statically-typed, ML-inspired language for shell scripting.
//!
//! This crate holds the verified core of the language: the lexer and the
//! parser, Hindley-Milner type inference (types, substitutions, unification,
//! environments, the checker), lowering to an A-Normal Form IR, the IR's
//! optimizer, zsh code generation, and the REPL's commands, session state and
//! responses.

pub mod syntax;
pub mod types;
pub mod ir;
pub mod repl;
pub mod vm;
pub mod codegen;
pub mod text;
