//! Runtime errors for the Neap VM

use vstd::prelude::*;
use crate::ir::base::{VarId, var_id_text};
use crate::text::{decimal, push_decimal, push_str};

verus! {

/// Errors that can occur during program execution.
#[derive(Debug)]
pub enum RuntimeError {
    /// Division by zero
    DivisionByZero,
    /// Unbound variable
    UnboundVariable { var: VarId },
    /// Unbound global variable
    UnboundGlobal { name: String },
    /// Type error at runtime (shouldn't happen with type checking)
    TypeError { expected: String, got: String },
    /// Pattern match failure (non-exhaustive patterns)
    MatchFailure,
    /// Index out of bounds (tuple projection)
    IndexOutOfBounds { index: usize, len: usize },
    /// Unknown field in record
    UnknownField { field: String },
    /// IO error
    IoError { message: String },
    /// Assertion failure
    AssertionFailed { message: String },
    /// Stack overflow (too deep recursion)
    StackOverflow,
    /// User-defined error (from Result::Err)
    UserError { message: String },
    /// A shell command could not be run
    CommandError { message: String },
}

/// The message shown for a runtime error.
pub open spec fn runtime_error_text(e: RuntimeError) -> Seq<char> {
    match e {
        RuntimeError::DivisionByZero => "division by zero"@,
        RuntimeError::UnboundVariable { var } => "unbound variable: "@ + var_id_text(var.id()),
        RuntimeError::UnboundGlobal { name } => "unbound global: "@ + name@,
        RuntimeError::TypeError { expected, got } => "type error: expected "@ + expected@ + ", got "@ + got@,
        RuntimeError::MatchFailure => "pattern match failure"@,
        RuntimeError::IndexOutOfBounds { index, len } =>
            "index "@ + decimal(index as nat) + " out of bounds (length "@ + decimal(len as nat) + ")"@,
        RuntimeError::UnknownField { field } => "unknown field: "@ + field@,
        RuntimeError::IoError { message } => "IO error: "@ + message@,
        RuntimeError::AssertionFailed { message } => "assertion failed: "@ + message@,
        RuntimeError::StackOverflow => "stack overflow"@,
        RuntimeError::UserError { message } => "error: "@ + message@,
        RuntimeError::CommandError { message } => "command error: "@ + message@,
    }
}

impl RuntimeError {
    /// The message for this error.
    pub fn to_string(&self) -> (s: String)
        ensures
            s@ == runtime_error_text(*self),
    {
        let mut s = String::new();
        match self {
            RuntimeError::DivisionByZero => push_str(&mut s, "division by zero"),
            RuntimeError::UnboundVariable { var } => {
                push_str(&mut s, "unbound variable: ");
                let v = var.to_string();
                push_str(&mut s, v.as_str());
            },
            RuntimeError::UnboundGlobal { name } => {
                push_str(&mut s, "unbound global: ");
                push_str(&mut s, name.as_str());
            },
            RuntimeError::TypeError { expected, got } => {
                push_str(&mut s, "type error: expected ");
                push_str(&mut s, expected.as_str());
                push_str(&mut s, ", got ");
                push_str(&mut s, got.as_str());
            },
            RuntimeError::MatchFailure => push_str(&mut s, "pattern match failure"),
            RuntimeError::IndexOutOfBounds { index, len } => {
                push_str(&mut s, "index ");
                push_decimal(&mut s, *index as u64);
                push_str(&mut s, " out of bounds (length ");
                push_decimal(&mut s, *len as u64);
                push_str(&mut s, ")");
            },
            RuntimeError::UnknownField { field } => {
                push_str(&mut s, "unknown field: ");
                push_str(&mut s, field.as_str());
            },
            RuntimeError::IoError { message } => {
                push_str(&mut s, "IO error: ");
                push_str(&mut s, message.as_str());
            },
            RuntimeError::AssertionFailed { message } => {
                push_str(&mut s, "assertion failed: ");
                push_str(&mut s, message.as_str());
            },
            RuntimeError::StackOverflow => push_str(&mut s, "stack overflow"),
            RuntimeError::UserError { message } => {
                push_str(&mut s, "error: ");
                push_str(&mut s, message.as_str());
            },
            RuntimeError::CommandError { message } => {
                push_str(&mut s, "command error: ");
                push_str(&mut s, message.as_str());
            },
        }
        s
    }
}

} // verus!
