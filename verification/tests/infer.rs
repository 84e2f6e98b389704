use neap::syntax::parser::Parser;
use neap::types::error::TypeError;
use neap::types::infer::TypeChecker;
use neap::types::repr::Type;

fn infer(source: &str) -> Result<Type, TypeError> {
    let mut parser = Parser::new(source).unwrap();
    let expr = parser.parse_expr().unwrap();
    let mut checker = TypeChecker::new();
    checker.infer_expr(&expr)
}

fn check(source: &str) -> Result<(), Vec<TypeError>> {
    let mut parser = Parser::new(source).unwrap();
    let program = parser.parse_program().unwrap();
    let mut checker = TypeChecker::new();
    checker.check_program(&program)
}

// ========== Literal Tests ==========

#[test]
fn infer_int() {
    let ty = infer("42").unwrap();
    assert_eq!(ty, Type::int_type());
}

#[test]
fn infer_float() {
    let ty = infer("3.14").unwrap();
    assert_eq!(ty, Type::float());
}

#[test]
fn infer_string() {
    let ty = infer(r#""hello""#).unwrap();
    assert_eq!(ty, Type::string());
}

#[test]
fn infer_bool() {
    assert_eq!(infer("true").unwrap(), Type::bool());
    assert_eq!(infer("false").unwrap(), Type::bool());
}

#[test]
fn infer_unit() {
    let ty = infer("()").unwrap();
    assert_eq!(ty, Type::unit());
}

// ========== Operator Tests ==========

#[test]
fn infer_addition() {
    let ty = infer("1 + 2").unwrap();
    assert_eq!(ty, Type::int_type());
}

#[test]
fn infer_comparison() {
    let ty = infer("1 < 2").unwrap();
    assert_eq!(ty, Type::bool());
}

#[test]
fn infer_logical() {
    let ty = infer("true && false").unwrap();
    assert_eq!(ty, Type::bool());
}

#[test]
fn infer_concat() {
    let ty = infer(r#""hello" ++ " world""#).unwrap();
    assert_eq!(ty, Type::string());
}

#[test]
fn infer_negation() {
    let ty = infer("-42").unwrap();
    assert_eq!(ty, Type::int_type());
}

#[test]
fn infer_not() {
    let ty = infer("!true").unwrap();
    assert_eq!(ty, Type::bool());
}

// ========== Tuple and List Tests ==========

#[test]
fn infer_tuple() {
    let ty = infer("(1, true, \"hi\")").unwrap();
    assert_eq!(ty, Type::Tuple(vec![Type::int_type(), Type::bool(), Type::string()]));
}

#[test]
fn infer_empty_list() {
    let ty = infer("[]").unwrap();
    assert!(matches!(ty, Type::Con(name, _) if name == "list"));
}

#[test]
fn infer_list() {
    let ty = infer("[1, 2, 3]").unwrap();
    assert_eq!(ty, Type::list(Type::int_type()));
}

#[test]
fn infer_cons() {
    let ty = infer("1 :: [2, 3]").unwrap();
    assert_eq!(ty, Type::list(Type::int_type()));
}

// ========== Lambda Tests ==========

#[test]
fn infer_identity() {
    let ty = infer("fn x => x").unwrap();
    // Should be 'a -> 'a
    let (args, ret) = ty.collect_arrow_args();
    assert_eq!(args.len(), 1);
    assert_eq!(args[0], ret);
}

#[test]
fn infer_const() {
    let ty = infer("fn x y => x").unwrap();
    // Should be 'a -> 'b -> 'a
    let (args, ret) = ty.collect_arrow_args();
    assert_eq!(args.len(), 2);
    assert_eq!(args[0], ret);
}

#[test]
fn infer_lambda_typed() {
    let ty = infer("fn x => x + 1").unwrap();
    assert_eq!(ty, Type::arrow(Type::int_type(), Type::int_type()));
}

// ========== If Tests ==========

#[test]
fn infer_if() {
    let ty = infer("if true then 1 else 2").unwrap();
    assert_eq!(ty, Type::int_type());
}

#[test]
fn infer_if_mismatch() {
    let result = infer("if true then 1 else \"hi\"");
    assert!(result.is_err());
}

// ========== Match Tests ==========

#[test]
fn infer_match_bool() {
    let ty = infer("match true with | true -> 1 | false -> 0").unwrap();
    assert_eq!(ty, Type::int_type());
}

// ========== Application Tests ==========

#[test]
fn infer_app() {
    let ty = infer("(fn x => x + 1) 5").unwrap();
    assert_eq!(ty, Type::int_type());
}

// ========== Record Tests ==========

#[test]
fn infer_record() {
    let ty = infer("{ x = 1, y = true }").unwrap();
    assert_eq!(
        ty,
        Type::Record(vec![
            ("x".to_string(), Type::int_type()),
            ("y".to_string(), Type::bool()),
        ])
    );
}

#[test]
fn infer_field() {
    let ty = infer("{ x = 1, y = true }.x").unwrap();
    assert_eq!(ty, Type::int_type());
}

// ========== Pipe Tests ==========

#[test]
fn infer_pipe() {
    let ty = infer("1 |> (fn x => x + 1)").unwrap();
    assert_eq!(ty, Type::int_type());
}

// ========== Declaration Tests ==========

#[test]
fn check_let_decl() {
    let result = check("let x = 1");
    assert!(result.is_ok());
}

#[test]
fn check_fun() {
    let result = check("fun add x y = x + y");
    assert!(result.is_ok());
}

#[test]
fn check_fun_recursive() {
    let result = check("fun fact n = if n = 0 then 1 else n * fact (n - 1)");
    assert!(result.is_ok());
}

#[test]
fn check_multiple() {
    let result = check(
        r#"
        let x = 1
        let y = x + 1
        fun double n = n * 2
    "#,
    );
    assert!(result.is_ok());
}

// ========== Command Tests ==========

#[test]
fn infer_command() {
    let ty = infer("`ls -la`").unwrap();
    // Command returns CommandResult record
    assert!(matches!(ty, Type::Record(fields) if fields.len() == 3));
}

#[test]
fn infer_command_with_interpolation() {
    // Interpolation with string value
    let result = check(
        r#"
        let file = "README.md"
        let result = `cat {file}`
    "#,
    );
    assert!(result.is_ok());
}

// ========== Type Class Tests ==========

#[test]
fn infer_show_int() {
    // show 5 should type check and return string
    let ty = infer("show 5").unwrap();
    assert_eq!(ty, Type::string());
}

#[test]
fn infer_show_float() {
    // show 3.14 should type check and return string
    let ty = infer("show 3.14").unwrap();
    assert_eq!(ty, Type::string());
}

#[test]
fn infer_show_bool() {
    // show true should type check and return string
    let ty = infer("show true").unwrap();
    assert_eq!(ty, Type::string());
}

#[test]
fn infer_show_string() {
    // show "hello" should type check and return string
    let ty = infer("show \"hello\"").unwrap();
    assert_eq!(ty, Type::string());
}

#[test]
fn check_show_in_let() {
    // Using show in a let binding
    let result = check("let s = show 42");
    assert!(result.is_ok());
}

#[test]
fn infer_eq_int() {
    // eq 1 2 should type check and return bool
    let ty = infer("eq 1 2").unwrap();
    assert_eq!(ty, Type::bool());
}

// ========== Further cases ==========

#[test]
fn infer_unbound_variable_is_an_error() {
    let result = infer("nope");
    assert!(matches!(result, Err(TypeError::UnboundVariable { name, .. }) if name == "nope"));
}

#[test]
fn infer_char_literal() {
    assert_eq!(infer("#\"c\"").unwrap(), Type::char());
}

#[test]
fn check_missing_instance_is_reported() {
    // There is no `Show` instance for functions.
    let result = check("let s = show (fn x => x + 1)");
    match result {
        Err(errors) => {
            assert_eq!(errors.len(), 1);
            assert!(matches!(&errors[0], TypeError::MissingInstance { class_name, .. } if class_name == "Show"));
        }
        Ok(()) => panic!("expected a missing instance"),
    }
}

#[test]
fn check_program_collects_every_error() {
    let result = check("let a = nope\nlet b = 1 + true");
    assert_eq!(result.unwrap_err().len(), 2);
}

#[test]
fn lookup_type_sees_registered_global() {
    let mut checker = TypeChecker::new();
    checker.register_global("answer", neap::types::repr::TypeScheme::mono(Type::int_type()));
    assert_eq!(checker.lookup_type("answer"), Some(Type::int_type()));
    assert_eq!(checker.lookup_type("missing"), None);
}

#[test]
fn check_program_rejects_applying_a_literal() {
    let result = check("let x = 1 2");
    assert!(result.is_err());
    assert!(matches!(result.unwrap_err()[0], TypeError::NotAFunction { .. }));
}

#[test]
fn check_program_accepts_type_declarations() {
    assert!(check("datatype color = Red | Green").is_ok());
}
