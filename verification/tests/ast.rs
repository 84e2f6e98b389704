use neap::syntax::ast::{Expr, Literal, Pattern, Program};

#[test]
fn create_program() {
    let program = Program::new();
    assert!(program.decls.is_empty());
}

#[test]
fn expr_constructors() {
    let var = Expr::var("x");
    assert!(matches!(var, Expr::Var(name) if name == "x"));

    let int = Expr::int_lit(42);
    assert!(matches!(int, Expr::Lit(Literal::Int(42))));

    let s = Expr::string("hello");
    assert!(matches!(s, Expr::Lit(Literal::String(ref val)) if val == "hello"));

    let b = Expr::bool(true);
    assert!(matches!(b, Expr::Lit(Literal::Bool(true))));
}

#[test]
fn pattern_constructors() {
    let var = Pattern::var("x");
    assert!(matches!(var, Pattern::Var(name) if name == "x"));
}

// ----- further cases -----

#[test]
fn program_with_decls_and_default() {
    let program = Program::with_decls(Vec::new());
    assert!(program.decls.is_empty());
    assert_eq!(Program::default(), Program::new());
}
