use neap::ir::base::VarId;
use neap::syntax::span::Span;
use neap::types::error::TypeError;
use neap::types::repr::{Type, TypeVar};
use neap::vm::error::RuntimeError;

#[test]
fn type_error_messages() {
    let e = TypeError::TypeMismatch { expected: Type::int_type(), actual: Type::bool() };
    assert_eq!(e.to_string(), "type mismatch: expected int, got bool");
    assert_eq!(e.span(), None);
    let e = TypeError::InfiniteType { var: TypeVar(0), ty: Type::list(Type::Var(TypeVar(0))) };
    assert_eq!(e.to_string(), "infinite type: 'a occurs in 'a list");
    let e = TypeError::WrongTypeArity { name: "list".to_string(), expected: 1, actual: 2, span: Span::new(3, 9) };
    assert_eq!(e.to_string(), "type list expects 1 argument(s), got 2");
    assert_eq!(e.span(), Some(Span::new(3, 9)));
    let e = TypeError::DuplicateField { name: "x".to_string(), span: Span::new(0, 1) };
    assert_eq!(e.to_string(), "duplicate field 'x' in record");
    let e = TypeError::RecursiveBindingWithoutRec { name: "f".to_string(), span: Span::new(2, 4) };
    assert_eq!(e.to_string(), "recursive binding requires 'rec' keyword");
    let e = TypeError::InvalidPattern { span: Span::new(5, 6) };
    assert_eq!(e.to_string(), "invalid pattern");
    assert_eq!(e.span(), Some(Span::new(5, 6)));
}

#[test]
fn runtime_error_messages() {
    assert_eq!(RuntimeError::DivisionByZero.to_string(), "division by zero");
    assert_eq!(
        RuntimeError::UnboundVariable { var: VarId::from_raw(3) }.to_string(),
        "unbound variable: _3"
    );
    assert_eq!(
        RuntimeError::TypeError { expected: "int".to_string(), got: "bool".to_string() }.to_string(),
        "type error: expected int, got bool"
    );
    assert_eq!(
        RuntimeError::IndexOutOfBounds { index: 5, len: 2 }.to_string(),
        "index 5 out of bounds (length 2)"
    );
    assert_eq!(RuntimeError::StackOverflow.to_string(), "stack overflow");
    assert_eq!(
        RuntimeError::UserError { message: "boom".to_string() }.to_string(),
        "error: boom"
    );
    assert_eq!(
        RuntimeError::IoError { message: "closed".to_string() }.to_string(),
        "IO error: closed"
    );
}
