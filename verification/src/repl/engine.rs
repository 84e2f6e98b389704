//! Results of the REPL's commands.

use vstd::prelude::*;
use crate::types::repr::Type;

verus! {

/// Result of a REPL command.
#[derive(Debug)]
pub enum CommandResult {
    /// :type command result
    TypeOf { ty: Type },
    /// :clear command executed
    Cleared,
    /// :help command (text to display)
    Help(String),
    /// :quit command
    Quit,
    /// Unknown command
    Unknown { cmd: String },
}

} // verus!
