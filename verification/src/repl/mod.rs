//! The REPL: its commands, the state of a session, the results of commands and
//! the responses it shows for them.

pub mod engine;
pub mod response;
pub mod command;
pub mod session;
