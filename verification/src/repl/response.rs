//! Response types for REPL evaluation.
//!
//! This module provides structured response types that make it easy to
//! inspect evaluation results in tests.

use vstd::prelude::*;
use super::engine::CommandResult;
use crate::text::push_str;
use crate::types::model::TypeV;
use crate::types::repr::{Type, show};

verus! {

/// A structured response from REPL evaluation.
///
/// This type provides convenient accessors for testing and inspection.
#[derive(Debug)]
pub struct Response {
    /// The formatted text output
    text: String,
    /// The structured response kind
    kind: ResponseKind,
}

/// The kind of response.
#[derive(Debug)]
pub enum ResponseKind {
    /// A value was bound: `val <name> : <type> = <value>`
    Value { name: String, ty: String, value: String },
    /// A function was defined: `<name>: <type>`
    Function { name: String, ty: String },
    /// A type was defined: `type <name>` or `datatype <name>`
    TypeDef { name: String, kind: TypeDefKind },
    /// A type query result: `:type <expr>` -> `<type>`
    TypeQuery { ty: String },
    /// An error occurred
    Error { message: String },
    /// Empty input or acknowledgement
    Empty,
}

/// Kind of type definition.
#[derive(Debug, Clone, Copy, PartialEq, Eq, Structural)]
pub enum TypeDefKind {
    /// A type alias
    Type,
    /// A datatype definition
    Datatype,
}

/// The keyword that introduces a type definition of that kind.
pub open spec fn type_def_keyword(kind: TypeDefKind) -> Seq<char> {
    match kind {
        TypeDefKind::Type => "type"@,
        TypeDefKind::Datatype => "datatype"@,
    }
}

/// `val <name> : <type> = <value>`
pub open spec fn value_text(name: Seq<char>, ty: Seq<char>, value: Seq<char>) -> Seq<char> {
    "val "@ + name + " : "@ + ty + " = "@ + value
}

/// `<name>: <type>`
pub open spec fn function_text(name: Seq<char>, ty: Seq<char>) -> Seq<char> {
    name + ": "@ + ty
}

/// `Error: <message>`
pub open spec fn error_text(message: Seq<char>) -> Seq<char> {
    "Error: "@ + message
}

impl Response {
    /// The formatted text output.
    pub closed spec fn shown(&self) -> Seq<char> {
        self.text@
    }

    /// The structured response kind.
    pub closed spec fn kind(&self) -> ResponseKind {
        self.kind
    }

    /// An error response shows its message after `Error: `.
    pub closed spec fn wf(&self) -> bool {
        self.kind matches ResponseKind::Error { message } ==> self.text@ == error_text(message@)
    }

    /// Create a response from a command result.
    pub fn from_command_result(result: CommandResult) -> (r: Self)
        ensures
            r.wf(),
            match result {
                CommandResult::TypeOf { ty } => r.shown() == show(ty@)
                    && (r.kind() matches ResponseKind::TypeQuery { ty: t } && t@ == show(ty@)),
                CommandResult::Cleared => r.shown() == "Environment cleared."@ && r.kind() is Empty,
                CommandResult::Help(text) => r.shown() == text@ && r.kind() is Empty,
                CommandResult::Quit => r.shown() == "Bye!"@ && r.kind() is Empty,
                CommandResult::Unknown { cmd } => r.shown() == error_text(cmd@)
                    && (r.kind() matches ResponseKind::Error { message } && message@ == cmd@),
            },
    {
        match result {
            CommandResult::TypeOf { ty } => Self {
                text: ty.to_string(),
                kind: ResponseKind::TypeQuery { ty: ty.to_string() },
            },
            CommandResult::Cleared => Self {
                text: "Environment cleared.".to_owned(),
                kind: ResponseKind::Empty,
            },
            CommandResult::Help(text) => Self { text, kind: ResponseKind::Empty },
            CommandResult::Quit => Self { text: "Bye!".to_owned(), kind: ResponseKind::Empty },
            CommandResult::Unknown { cmd } => Self::error(cmd.as_str()),
        }
    }

    /// Create an error response.
    pub fn error(message: &str) -> (r: Self)
        ensures
            r.wf(),
            r.shown() == error_text(message@),
            r.kind() matches ResponseKind::Error { message: m } && m@ == message@,
    {
        let mut text = String::new();
        push_str(&mut text, "Error: ");
        push_str(&mut text, message);
        Self { text, kind: ResponseKind::Error { message: message.to_owned() } }
    }

    /// Create a value response from the bound name, its type and the text of its value.
    pub fn value(name: &str, ty: Type, value: String) -> (r: Self)
        ensures
            r.wf(),
            r.shown() == value_text(name@, show(ty@), value@),
            r.kind() matches ResponseKind::Value { name: n, ty: t, value: v }
                && n@ == name@ && t@ == show(ty@) && v@ == value@,
    {
        let ty_str = ty.to_string();
        let mut text = String::new();
        push_str(&mut text, "val ");
        push_str(&mut text, name);
        push_str(&mut text, " : ");
        push_str(&mut text, ty_str.as_str());
        push_str(&mut text, " = ");
        push_str(&mut text, value.as_str());
        Self { text, kind: ResponseKind::Value { name: name.to_owned(), ty: ty_str, value } }
    }

    /// Create a function response.
    pub fn function(name: &str, ty: Type) -> (r: Self)
        ensures
            r.wf(),
            r.shown() == function_text(name@, show(ty@)),
            r.kind() matches ResponseKind::Function { name: n, ty: t } && n@ == name@ && t@ == show(ty@),
    {
        let ty_str = ty.to_string();
        let mut text = String::new();
        push_str(&mut text, name);
        push_str(&mut text, ": ");
        push_str(&mut text, ty_str.as_str());
        Self { text, kind: ResponseKind::Function { name: name.to_owned(), ty: ty_str } }
    }

    /// Create a type definition response.
    pub fn type_def(name: &str, kind: TypeDefKind) -> (r: Self)
        ensures
            r.wf(),
            r.shown() == type_def_keyword(kind) + " "@ + name@,
            r.kind() matches ResponseKind::TypeDef { name: n, kind: k } && n@ == name@ && k == kind,
    {
        let keyword = match kind {
            TypeDefKind::Type => "type",
            TypeDefKind::Datatype => "datatype",
        };
        let mut text = String::new();
        push_str(&mut text, keyword);
        push_str(&mut text, " ");
        push_str(&mut text, name);
        Self { text, kind: ResponseKind::TypeDef { name: name.to_owned(), kind } }
    }

    /// Create an empty response.
    pub fn empty() -> (r: Self)
        ensures
            r.wf(),
            r.shown() == Seq::<char>::empty(),
            r.kind() is Empty,
    {
        Self { text: String::new(), kind: ResponseKind::Empty }
    }

    // ========== Accessor Methods ==========

    /// Get the formatted text output.
    pub fn text(&self) -> (s: &str)
        ensures
            s@ == self.shown(),
    {
        self.text.as_str()
    }

    /// Check if this is an error response.
    pub fn is_error(&self) -> (b: bool)
        ensures
            b == (self.kind() is Error),
    {
        match self.kind {
            ResponseKind::Error { .. } => true,
            _ => false,
        }
    }

    /// Get the error message, if this is an error.
    pub fn error_message(&self) -> (r: Option<&str>)
        ensures
            match self.kind() {
                ResponseKind::Error { message } => r matches Some(s) && s@ == message@,
                _ => r is None,
            },
    {
        match &self.kind {
            ResponseKind::Error { message } => Some(message.as_str()),
            _ => None,
        }
    }

    /// Get the binding name (e.g., "it", "x", "double").
    pub fn binding_name(&self) -> (r: Option<&str>)
        ensures
            match self.kind() {
                ResponseKind::Value { name, .. } => r matches Some(s) && s@ == name@,
                ResponseKind::Function { name, .. } => r matches Some(s) && s@ == name@,
                ResponseKind::TypeDef { name, .. } => r matches Some(s) && s@ == name@,
                _ => r is None,
            },
    {
        match &self.kind {
            ResponseKind::Value { name, .. } => Some(name.as_str()),
            ResponseKind::Function { name, .. } => Some(name.as_str()),
            ResponseKind::TypeDef { name, .. } => Some(name.as_str()),
            _ => None,
        }
    }

    /// Get the type as a string.
    pub fn type_str(&self) -> (r: Option<&str>)
        ensures
            match self.kind() {
                ResponseKind::Value { ty, .. } => r matches Some(s) && s@ == ty@,
                ResponseKind::Function { ty, .. } => r matches Some(s) && s@ == ty@,
                ResponseKind::TypeQuery { ty } => r matches Some(s) && s@ == ty@,
                _ => r is None,
            },
    {
        match &self.kind {
            ResponseKind::Value { ty, .. } => Some(ty.as_str()),
            ResponseKind::Function { ty, .. } => Some(ty.as_str()),
            ResponseKind::TypeQuery { ty } => Some(ty.as_str()),
            _ => None,
        }
    }

    /// Get the value as a string.
    pub fn value_str(&self) -> (r: Option<&str>)
        ensures
            match self.kind() {
                ResponseKind::Value { value, .. } => r matches Some(s) && s@ == value@,
                _ => r is None,
            },
    {
        match &self.kind {
            ResponseKind::Value { value, .. } => Some(value.as_str()),
            _ => None,
        }
    }

    /// Check if this is a function definition.
    pub fn is_function(&self) -> (b: bool)
        ensures
            b == (self.kind() is Function),
    {
        match self.kind {
            ResponseKind::Function { .. } => true,
            _ => false,
        }
    }

    /// Check if this is a type definition.
    pub fn is_type_def(&self) -> (b: bool)
        ensures
            b == (self.kind() is TypeDef),
    {
        match self.kind {
            ResponseKind::TypeDef { .. } => true,
            _ => false,
        }
    }

    /// Check if this is empty (no output).
    pub fn is_empty(&self) -> (b: bool)
        ensures
            b == (self.kind() is Empty),
    {
        match self.kind {
            ResponseKind::Empty => true,
            _ => false,
        }
    }

    /// The formatted text output, as an owned string.
    pub fn to_string(&self) -> (s: String)
        ensures
            s@ == self.shown(),
    {
        self.text.clone()
    }
}

/// Law: the text of an error response (one for which `is_error` holds and `error_message`
/// gives the message) is `Error: ` followed by that message.
pub proof fn law_error_response_text(r: Response)
    requires
        r.wf(),
    ensures
        r.kind() matches ResponseKind::Error { message } ==> r.shown() == error_text(message@),
{
}

} // verus!
