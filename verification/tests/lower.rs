use neap::ir::base::Primitive;
use neap::ir::lower::{Lower, LowerError};
use neap::ir::tree::{IRDecl, IRExpr, IRLiteral, IRProgram};
use neap::syntax::parser::Parser;
use neap::types::repr::Type;

fn lower_program(source: &str) -> Result<IRProgram, LowerError> {
    let mut parser = Parser::new(source).expect("lexer error");
    let program = parser.parse_program().expect("parse error");
    let mut lower = Lower::new();
    lower.lower_program(&program)
}

#[test]
fn lower_val_int() {
    let ir = lower_program("let x = 42").expect("lower error");
    assert_eq!(ir.decls.len(), 1);

    match &ir.decls[0] {
        IRDecl::Val { name, ty, value } => {
            assert_eq!(name, "x");
            assert_eq!(*ty, Type::int_type());
            assert!(matches!(value, IRExpr::Lit(IRLiteral::Int(42), _)));
        }
        _ => panic!("expected val decl"),
    }
}

#[test]
fn lower_val_string() {
    let ir = lower_program("let s = \"hello\"").expect("lower error");

    match &ir.decls[0] {
        IRDecl::Val { name, ty, value } => {
            assert_eq!(name, "s");
            assert_eq!(*ty, Type::string());
            assert!(matches!(value, IRExpr::Lit(IRLiteral::String(s), _) if s == "hello"));
        }
        _ => panic!("expected val decl"),
    }
}

#[test]
fn lower_val_bool() {
    let ir = lower_program("let b = true").expect("lower error");

    match &ir.decls[0] {
        IRDecl::Val { name, ty, value } => {
            assert_eq!(name, "b");
            assert_eq!(*ty, Type::bool());
            assert!(matches!(value, IRExpr::Lit(IRLiteral::Bool(true), _)));
        }
        _ => panic!("expected val decl"),
    }
}

#[test]
fn lower_arithmetic() {
    let ir = lower_program("let x = 1 + 2").expect("lower error");

    match &ir.decls[0] {
        IRDecl::Val { value, .. } => {
            assert!(matches!(value, IRExpr::Prim { op: Primitive::AddInt, .. }));
        }
        _ => panic!("expected val decl"),
    }
}

#[test]
fn lower_float_arithmetic() {
    let ir = lower_program("let x = 1.0 + 2.0").expect("lower error");

    match &ir.decls[0] {
        IRDecl::Val { value, .. } => {
            assert!(matches!(value, IRExpr::Prim { op: Primitive::AddFloat, .. }));
        }
        _ => panic!("expected val decl"),
    }
}

#[test]
fn lower_comparison() {
    let ir = lower_program("let b = 1 < 2").expect("lower error");

    match &ir.decls[0] {
        IRDecl::Val { ty, value, .. } => {
            assert_eq!(*ty, Type::bool());
            assert!(matches!(value, IRExpr::Prim { op: Primitive::LtInt, .. }));
        }
        _ => panic!("expected val decl"),
    }
}

#[test]
fn lower_if() {
    let ir = lower_program("let x = if true then 1 else 2").expect("lower error");

    match &ir.decls[0] {
        IRDecl::Val { value, .. } => {
            assert!(matches!(value, IRExpr::If { .. }));
        }
        _ => panic!("expected val decl"),
    }
}

#[test]
fn lower_tuple() {
    let ir = lower_program("let t = (1, \"a\", true)").expect("lower error");

    match &ir.decls[0] {
        IRDecl::Val { ty, value, .. } => {
            assert!(matches!(ty, Type::Tuple(_)));
            assert!(matches!(value, IRExpr::Tuple { .. }));
        }
        _ => panic!("expected val decl"),
    }
}

#[test]
fn lower_list() {
    let ir = lower_program("let xs = [1, 2, 3]").expect("lower error");

    match &ir.decls[0] {
        IRDecl::Val { value, .. } => {
            // List should be desugared to Cons chain
            assert!(matches!(value, IRExpr::Prim { op: Primitive::Cons, .. }));
        }
        _ => panic!("expected val decl"),
    }
}

#[test]
fn lower_record() {
    let ir = lower_program("let r = {x = 1, y = 2}").expect("lower error");

    match &ir.decls[0] {
        IRDecl::Val { value, .. } => {
            assert!(matches!(value, IRExpr::Record { .. }));
        }
        _ => panic!("expected val decl"),
    }
}

#[test]
fn lower_short_circuit_and() {
    let ir = lower_program("let b = true && false").expect("lower error");

    match &ir.decls[0] {
        IRDecl::Val { value, .. } => {
            // && should become if-then-else
            assert!(matches!(value, IRExpr::If { .. }));
        }
        _ => panic!("expected val decl"),
    }
}

#[test]
fn lower_negation() {
    let ir = lower_program("let x = -42").expect("lower error");

    match &ir.decls[0] {
        IRDecl::Val { value, .. } => {
            assert!(matches!(value, IRExpr::Prim { op: Primitive::NegInt, .. }));
        }
        _ => panic!("expected val decl"),
    }
}

#[test]
fn lower_not() {
    let ir = lower_program("let b = !true").expect("lower error");

    match &ir.decls[0] {
        IRDecl::Val { value, .. } => {
            assert!(matches!(value, IRExpr::Prim { op: Primitive::Not, .. }));
        }
        _ => panic!("expected val decl"),
    }
}

// ========== Type Class Tests ==========

#[test]
fn lower_show_int() {
    let ir = lower_program("let s = show 42").expect("lower error");

    match &ir.decls[0] {
        IRDecl::Val { name, value, .. } => {
            assert_eq!(name, "s");
            // show 42 should become intToString 42
            assert!(matches!(value, IRExpr::Prim { op: Primitive::IntToString, .. }));
        }
        _ => panic!("expected val decl"),
    }
}

#[test]
fn lower_show_float() {
    let ir = lower_program("let s = show 3.14").expect("lower error");

    match &ir.decls[0] {
        IRDecl::Val { value, .. } => {
            // show 3.14 should become floatToString 3.14
            assert!(matches!(value, IRExpr::Prim { op: Primitive::FloatToString, .. }));
        }
        _ => panic!("expected val decl"),
    }
}

#[test]
fn lower_show_bool() {
    let ir = lower_program("let s = show true").expect("lower error");

    match &ir.decls[0] {
        IRDecl::Val { value, .. } => {
            // show true should become __bool_to_string true
            assert!(matches!(value, IRExpr::Prim { op: Primitive::BoolToString, .. }));
        }
        _ => panic!("expected val decl"),
    }
}

#[test]
fn lower_show_string() {
    let ir = lower_program("let s = show \"hello\"").expect("lower error");

    match &ir.decls[0] {
        IRDecl::Val { value, .. } => {
            // show "hello" should become __string_identity "hello"
            assert!(matches!(value, IRExpr::Prim { op: Primitive::StringIdentity, .. }));
        }
        _ => panic!("expected val decl"),
    }
}


// ========== Further cases ==========

fn parse_expr(source: &str) -> neap::syntax::span::Spanned<neap::syntax::ast::Expr> {
    let mut parser = Parser::new(source).expect("lexer error");
    parser.parse_expr().expect("parse error")
}

#[test]
fn lower_fun_decl_with_parameter() {
    let ir = lower_program("fun inc x = x + 1").expect("lower error");
    match &ir.decls[0] {
        IRDecl::Fun { name, ty, params, body } => {
            assert_eq!(name, "inc");
            assert_eq!(*ty, Type::arrow(Type::int_type(), Type::int_type()));
            assert_eq!(params.len(), 1);
            assert_eq!(params[0].1, Type::int_type());
            assert!(matches!(body, IRExpr::Prim { op: Primitive::AddInt, .. }));
        }
        _ => panic!("expected fun decl"),
    }
}

#[test]
fn lower_if_with_computed_condition_binds_it() {
    let ir = lower_program("let x = if 1 < 2 then 1 else 2").expect("lower error");
    match &ir.decls[0] {
        IRDecl::Val { value, .. } => match value {
            IRExpr::Let { ty, value, body, .. } => {
                assert_eq!(*ty, Type::bool());
                assert!(matches!(**value, IRExpr::Prim { op: Primitive::LtInt, .. }));
                assert!(matches!(**body, IRExpr::If { .. }));
            }
            _ => panic!("expected a let binding the condition"),
        },
        _ => panic!("expected val decl"),
    }
}

#[test]
fn lower_application_of_values_is_direct() {
    let ir = lower_program("fun id x = x\nlet y = id 1").expect("lower error");
    match &ir.decls[1] {
        IRDecl::Val { ty, value, .. } => {
            assert_eq!(*ty, Type::int_type());
            match value {
                IRExpr::App { func, arg, result_ty } => {
                    assert!(matches!(**func, IRExpr::Global(ref n, _) if n == "id"));
                    assert!(matches!(**arg, IRExpr::Lit(IRLiteral::Int(1), _)));
                    assert_eq!(*result_ty, Type::int_type());
                }
                _ => panic!("expected an application"),
            }
        }
        _ => panic!("expected val decl"),
    }
}

#[test]
fn lower_type_error_is_reported() {
    match lower_program("let x = 1 + true") {
        Err(LowerError::TypeError(errors)) => assert!(!errors.is_empty()),
        other => panic!("expected a type error, got {:?}", other),
    }
}

#[test]
fn lower_val_with_tuple_pattern_is_unsupported() {
    match lower_program("let (a, b) = (1, 2)") {
        Err(LowerError::Unsupported(msg)) => assert_eq!(msg, "complex patterns in val declarations"),
        other => panic!("expected unsupported, got {:?}", other),
    }
}

#[test]
fn lower_expr_with_type_keeps_the_type() {
    let mut lower = Lower::new();
    lower.register_global("answer", Type::int_type());
    let ir = lower.lower_expr_with_type(&parse_expr("answer"), &Type::int_type()).unwrap();
    assert!(matches!(ir, IRExpr::Global(ref n, ref t) if n == "answer" && *t == Type::int_type()));
    let unit = lower.lower_expr_with_type(&parse_expr("()"), &Type::int_type()).unwrap();
    assert!(matches!(unit, IRExpr::Unit));
}

#[test]
fn lower_error_text() {
    assert_eq!(LowerError::Unsupported("match guards".to_string()).to_string(), "unsupported: match guards");
    assert_eq!(LowerError::Internal("oops".to_string()).to_string(), "internal error: oops");
    assert_eq!(LowerError::TypeError(vec![]).to_string(), "type errors: ");
}

#[test]
fn lower_match_expression() {
    let ir = lower_program("fun pick b = match b with | true -> 1 | false -> 0").expect("lower error");
    match &ir.decls[0] {
        IRDecl::Fun { body, .. } => match body {
            IRExpr::Match { arms, ty, .. } => {
                assert_eq!(arms.len(), 2);
                assert_eq!(*ty, Type::int_type());
            }
            _ => panic!("expected a match"),
        },
        _ => panic!("expected fun decl"),
    }
}

#[test]
fn lower_program_keeps_declarations_in_order() {
    let ir = lower_program("datatype color = Red | Green of int\ntype n = int\nlet x = 1").expect("lower error");
    assert_eq!(ir.decls.len(), 2);
    match &ir.decls[0] {
        IRDecl::Data { name, constructors, .. } => {
            assert_eq!(name, "color");
            assert_eq!(constructors.len(), 2);
            assert_eq!(constructors[0].0, "Red");
            assert!(constructors[0].1.is_none());
            assert!(constructors[1].1.is_some());
        }
        _ => panic!("expected data decl"),
    }
    assert!(matches!(&ir.decls[1], IRDecl::Val { name, .. } if name == "x"));
}

#[test]
fn lower_program_reports_type_errors() {
    assert!(matches!(lower_program("let x = 1 2"), Err(LowerError::TypeError(_))));
}

#[test]
fn lower_function_with_literal_body() {
    let ir = lower_program("fun answer x = 42\nlet u = ()").expect("lower error");
    match &ir.decls[0] {
        IRDecl::Fun { name, params, body, .. } => {
            assert_eq!(name, "answer");
            assert_eq!(params.len(), 1);
            assert!(matches!(body, IRExpr::Lit(IRLiteral::Int(42), _)));
        }
        _ => panic!("expected fun decl"),
    }
    match &ir.decls[1] {
        IRDecl::Val { value, .. } => assert!(matches!(value, IRExpr::Unit)),
        _ => panic!("expected val decl"),
    }
}
