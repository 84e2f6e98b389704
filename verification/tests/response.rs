use neap::repl::engine::CommandResult;
use neap::repl::response::{Response, TypeDefKind};
use neap::types::repr::Type;

#[test]
fn test_error_response() {
    let response = Response::error("unbound variable: x");
    assert!(response.is_error());
    assert_eq!(response.error_message(), Some("unbound variable: x"));
    assert_eq!(response.text(), "Error: unbound variable: x");
}

#[test]
fn test_function_response() {
    let ty = Type::arrow(Type::int_type(), Type::int_type());
    let response = Response::function("double", ty);
    assert!(response.is_function());
    assert_eq!(response.binding_name(), Some("double"));
    assert_eq!(response.type_str(), Some("int -> int"));
    assert_eq!(response.value_str(), None);
}

#[test]
fn test_empty_response() {
    let response = Response::empty();
    assert!(response.is_empty());
    assert!(!response.is_error());
    assert_eq!(response.text(), "");
}

// ----- further cases -----

#[test]
fn test_value_response_from_value_text() {
    let response = Response::value("it", Type::int_type(), "42".to_string());
    assert!(!response.is_error());
    assert_eq!(response.binding_name(), Some("it"));
    assert_eq!(response.type_str(), Some("int"));
    assert_eq!(response.value_str(), Some("42"));
    assert_eq!(response.text(), "val it : int = 42");
}

#[test]
fn test_type_def_responses() {
    let t = Response::type_def("point", TypeDefKind::Type);
    assert!(t.is_type_def());
    assert_eq!(t.text(), "type point");
    assert_eq!(t.binding_name(), Some("point"));
    let d = Response::type_def("shape", TypeDefKind::Datatype);
    assert_eq!(d.text(), "datatype shape");
    assert_eq!(d.type_str(), None);
}

#[test]
fn test_command_results() {
    let r = Response::from_command_result(CommandResult::TypeOf { ty: Type::list(Type::bool()) });
    assert_eq!(r.text(), "bool list");
    assert_eq!(r.type_str(), Some("bool list"));
    assert!(!r.is_empty());

    let r = Response::from_command_result(CommandResult::Cleared);
    assert_eq!(r.text(), "Environment cleared.");
    assert!(r.is_empty());

    let r = Response::from_command_result(CommandResult::Help("usage".to_string()));
    assert_eq!(r.text(), "usage");
    assert!(r.is_empty());

    let r = Response::from_command_result(CommandResult::Quit);
    assert_eq!(r.to_string(), "Bye!");

    let r = Response::from_command_result(CommandResult::Unknown { cmd: ":frob".to_string() });
    assert!(r.is_error());
    assert_eq!(r.error_message(), Some(":frob"));
    assert_eq!(r.text(), "Error: :frob");
}

#[test]
fn function_response_text_shows_name_and_type() {
    let ty = Type::arrow(Type::int_type(), Type::int_type());
    let response = Response::function("double", ty);
    assert_eq!(response.text(), "double: int -> int");
}

#[test]
fn test_value_response() {
    let response = Response::value("it", Type::int_type(), "42".to_string());
    assert!(!response.is_error());
    assert_eq!(response.binding_name(), Some("it"));
    assert_eq!(response.type_str(), Some("int"));
    assert_eq!(response.value_str(), Some("42"));
    assert_eq!(response.text(), "val it : int = 42");
}
