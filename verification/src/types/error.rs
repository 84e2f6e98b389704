//! Type errors reported by unification and type checking.

use vstd::prelude::*;
use crate::syntax::span::Span;
use crate::text::{decimal, push_decimal, push_str};
use super::repr::{Type, TypeVar, show, var_name};

verus! {

/// Errors that can occur during type checking.
#[derive(Debug, PartialEq)]
pub enum TypeError {
    /// Type mismatch: expected one type, got another
    TypeMismatch { expected: Type, actual: Type },
    /// Infinite type detected (occurs check failure)
    InfiniteType { var: TypeVar, ty: Type },
    /// Unbound variable
    UnboundVariable { name: String, span: Span },
    /// Unbound type variable
    UnboundTypeVariable { name: String, span: Span },
    /// Unbound constructor
    UnboundConstructor { name: String, span: Span },
    /// Unknown type constructor
    UnknownType { name: String, span: Span },
    /// Wrong number of type arguments
    WrongTypeArity { name: String, expected: usize, actual: usize, span: Span },
    /// Pattern type mismatch
    PatternTypeMismatch { pattern_ty: Type, scrutinee_ty: Type, span: Span },
    /// Non-exhaustive pattern match
    NonExhaustiveMatch { span: Span },
    /// Duplicate field in record
    DuplicateField { name: String, span: Span },
    /// Missing field in record
    MissingField { name: String, record_ty: Type, span: Span },
    /// Extra field in record
    ExtraField { name: String, span: Span },
    /// Not a function type
    NotAFunction { ty: Type, span: Span },
    /// Not a record type
    NotARecord { ty: Type, span: Span },
    /// Recursive binding without rec keyword
    RecursiveBindingWithoutRec { name: String, span: Span },
    /// Duplicate definition
    DuplicateDefinition { name: String, span: Span },
    /// Type annotation mismatch
    AnnotationMismatch { annotation: Type, inferred: Type, span: Span },
    /// Invalid pattern for this context
    InvalidPattern { span: Span },
    /// A type class constraint on a concrete type without an instance
    MissingInstance { class_name: String, ty: Type, span: Span },
}

/// The source location an error carries, if any.
pub open spec fn error_span(e: TypeError) -> Option<Span> {
    match e {
        TypeError::TypeMismatch { .. } | TypeError::InfiniteType { .. } => None,
        TypeError::UnboundVariable { span, .. } => Some(span),
        TypeError::UnboundTypeVariable { span, .. } => Some(span),
        TypeError::UnboundConstructor { span, .. } => Some(span),
        TypeError::UnknownType { span, .. } => Some(span),
        TypeError::WrongTypeArity { span, .. } => Some(span),
        TypeError::PatternTypeMismatch { span, .. } => Some(span),
        TypeError::NonExhaustiveMatch { span } => Some(span),
        TypeError::DuplicateField { span, .. } => Some(span),
        TypeError::MissingField { span, .. } => Some(span),
        TypeError::ExtraField { span, .. } => Some(span),
        TypeError::NotAFunction { span, .. } => Some(span),
        TypeError::NotARecord { span, .. } => Some(span),
        TypeError::RecursiveBindingWithoutRec { span, .. } => Some(span),
        TypeError::DuplicateDefinition { span, .. } => Some(span),
        TypeError::AnnotationMismatch { span, .. } => Some(span),
        TypeError::InvalidPattern { span } => Some(span),
        TypeError::MissingInstance { span, .. } => Some(span),
    }
}

/// The message of an error.
pub open spec fn error_message(e: TypeError) -> Seq<char> {
    match e {
        TypeError::TypeMismatch { expected, actual } =>
            "type mismatch: expected "@ + show(expected@) + ", got "@ + show(actual@),
        TypeError::InfiniteType { var, ty } => "infinite type: "@ + var_name(var.0) + " occurs in "@ + show(ty@),
        TypeError::UnboundVariable { name, .. } => "unbound variable: "@ + name@,
        TypeError::UnboundTypeVariable { name, .. } => "unbound type variable: "@ + name@,
        TypeError::UnboundConstructor { name, .. } => "unbound constructor: "@ + name@,
        TypeError::UnknownType { name, .. } => "unknown type: "@ + name@,
        TypeError::WrongTypeArity { name, expected, actual, .. } =>
            "type "@ + name@ + " expects "@ + decimal(expected as nat) + " argument(s), got "@ + decimal(actual as nat),
        TypeError::PatternTypeMismatch { pattern_ty, scrutinee_ty, .. } =>
            "pattern has type "@ + show(pattern_ty@) + ", but is matched against "@ + show(scrutinee_ty@),
        TypeError::NonExhaustiveMatch { .. } => "non-exhaustive pattern match"@,
        TypeError::DuplicateField { name, .. } => "duplicate field '"@ + name@ + "' in record"@,
        TypeError::MissingField { name, .. } => "missing field '"@ + name@ + "' in record"@,
        TypeError::ExtraField { name, .. } => "extra field '"@ + name@ + "' in record"@,
        TypeError::NotAFunction { ty, .. } => "expected function type, got "@ + show(ty@),
        TypeError::NotARecord { ty, .. } => "expected record type, got "@ + show(ty@),
        TypeError::RecursiveBindingWithoutRec { .. } => "recursive binding requires 'rec' keyword"@,
        TypeError::DuplicateDefinition { name, .. } => "duplicate definition: "@ + name@,
        TypeError::AnnotationMismatch { annotation, inferred, .. } =>
            "type annotation "@ + show(annotation@) + " doesn't match inferred type "@ + show(inferred@),
        TypeError::InvalidPattern { .. } => "invalid pattern"@,
        TypeError::MissingInstance { class_name, ty, .. } =>
            "no instance of "@ + class_name@ + " for type "@ + show(ty@),
    }
}

impl TypeError {
    /// Get the span associated with this error, if any.
    pub fn span(&self) -> (r: Option<Span>)
        ensures
            r == error_span(*self),
    {
        match self {
            TypeError::TypeMismatch { .. } | TypeError::InfiniteType { .. } => None,
            TypeError::UnboundVariable { span, .. }
            | TypeError::UnboundTypeVariable { span, .. }
            | TypeError::UnboundConstructor { span, .. }
            | TypeError::UnknownType { span, .. }
            | TypeError::WrongTypeArity { span, .. }
            | TypeError::PatternTypeMismatch { span, .. }
            | TypeError::NonExhaustiveMatch { span, .. }
            | TypeError::DuplicateField { span, .. }
            | TypeError::MissingField { span, .. }
            | TypeError::ExtraField { span, .. }
            | TypeError::NotAFunction { span, .. }
            | TypeError::NotARecord { span, .. }
            | TypeError::RecursiveBindingWithoutRec { span, .. }
            | TypeError::DuplicateDefinition { span, .. }
            | TypeError::AnnotationMismatch { span, .. }
            | TypeError::InvalidPattern { span, .. }
            | TypeError::MissingInstance { span, .. } => Some(*span),
        }
    }

    /// The error message, e.g. `type mismatch: expected int, got string`.
    pub fn to_string(&self) -> (s: String)
        ensures
            s@ == error_message(*self),
    {
        let mut s = String::new();
        match self {
            TypeError::TypeMismatch { expected, actual } => {
                push_str(&mut s, "type mismatch: expected ");
                push_str(&mut s, expected.to_string().as_str());
                push_str(&mut s, ", got ");
                push_str(&mut s, actual.to_string().as_str());
            },
            TypeError::InfiniteType { var, ty } => {
                push_str(&mut s, "infinite type: ");
                push_str(&mut s, var.to_string().as_str());
                push_str(&mut s, " occurs in ");
                push_str(&mut s, ty.to_string().as_str());
            },
            TypeError::UnboundVariable { name, .. } => {
                push_str(&mut s, "unbound variable: ");
                push_str(&mut s, name.as_str());
            },
            TypeError::UnboundTypeVariable { name, .. } => {
                push_str(&mut s, "unbound type variable: ");
                push_str(&mut s, name.as_str());
            },
            TypeError::UnboundConstructor { name, .. } => {
                push_str(&mut s, "unbound constructor: ");
                push_str(&mut s, name.as_str());
            },
            TypeError::UnknownType { name, .. } => {
                push_str(&mut s, "unknown type: ");
                push_str(&mut s, name.as_str());
            },
            TypeError::WrongTypeArity { name, expected, actual, .. } => {
                push_str(&mut s, "type ");
                push_str(&mut s, name.as_str());
                push_str(&mut s, " expects ");
                push_decimal(&mut s, *expected as u64);
                push_str(&mut s, " argument(s), got ");
                push_decimal(&mut s, *actual as u64);
            },
            TypeError::PatternTypeMismatch { pattern_ty, scrutinee_ty, .. } => {
                push_str(&mut s, "pattern has type ");
                push_str(&mut s, pattern_ty.to_string().as_str());
                push_str(&mut s, ", but is matched against ");
                push_str(&mut s, scrutinee_ty.to_string().as_str());
            },
            TypeError::NonExhaustiveMatch { .. } => {
                push_str(&mut s, "non-exhaustive pattern match");
            },
            TypeError::DuplicateField { name, .. } => {
                push_str(&mut s, "duplicate field '");
                push_str(&mut s, name.as_str());
                push_str(&mut s, "' in record");
            },
            TypeError::MissingField { name, .. } => {
                push_str(&mut s, "missing field '");
                push_str(&mut s, name.as_str());
                push_str(&mut s, "' in record");
            },
            TypeError::ExtraField { name, .. } => {
                push_str(&mut s, "extra field '");
                push_str(&mut s, name.as_str());
                push_str(&mut s, "' in record");
            },
            TypeError::NotAFunction { ty, .. } => {
                push_str(&mut s, "expected function type, got ");
                push_str(&mut s, ty.to_string().as_str());
            },
            TypeError::NotARecord { ty, .. } => {
                push_str(&mut s, "expected record type, got ");
                push_str(&mut s, ty.to_string().as_str());
            },
            TypeError::RecursiveBindingWithoutRec { .. } => {
                push_str(&mut s, "recursive binding requires 'rec' keyword");
            },
            TypeError::DuplicateDefinition { name, .. } => {
                push_str(&mut s, "duplicate definition: ");
                push_str(&mut s, name.as_str());
            },
            TypeError::AnnotationMismatch { annotation, inferred, .. } => {
                push_str(&mut s, "type annotation ");
                push_str(&mut s, annotation.to_string().as_str());
                push_str(&mut s, " doesn't match inferred type ");
                push_str(&mut s, inferred.to_string().as_str());
            },
            TypeError::InvalidPattern { .. } => {
                push_str(&mut s, "invalid pattern");
            },
            TypeError::MissingInstance { class_name, ty, .. } => {
                push_str(&mut s, "no instance of ");
                push_str(&mut s, class_name.as_str());
                push_str(&mut s, " for type ");
                push_str(&mut s, ty.to_string().as_str());
            },
        }
        assert(s@ =~= error_message(*self));
        s
    }
}

} // verus!
