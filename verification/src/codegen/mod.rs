//! Code generation for Neap
//!
//! This module provides transpilation from Neap IR to target languages.
//! Currently supports zsh output.

pub mod runtime;
pub mod zsh;

pub use zsh::ZshCodegen;
pub mod check;
