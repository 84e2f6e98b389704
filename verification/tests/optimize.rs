use neap::ir::base::{Primitive, VarId};
use neap::ir::optimize::{Optimizer, free_vars};
use neap::ir::tree::{Binding, IRDecl, IRExpr, IRLiteral, IRPattern, IRProgram};
use neap::types::repr::Type;

fn lit_int(n: i64) -> IRExpr {
    IRExpr::Lit(IRLiteral::Int(n), Type::int_type())
}

fn boolean(b: bool) -> IRExpr {
    IRExpr::Lit(IRLiteral::Bool(b), Type::bool())
}

fn string(s: &str) -> IRExpr {
    IRExpr::Lit(IRLiteral::String(s.to_string()), Type::string())
}

fn prim(op: Primitive, args: Vec<IRExpr>, ty: Type) -> IRExpr {
    IRExpr::Prim { op, args, ty }
}

fn var(n: u64) -> IRExpr {
    IRExpr::Var(VarId::from_raw(n), Type::int_type())
}

fn val(name: &str, value: IRExpr) -> IRDecl {
    IRDecl::Val { name: name.to_string(), ty: Type::int_type(), value }
}

/// Optimize a program of value declarations, as the pipeline does.
fn optimize_vals(decls: Vec<IRDecl>) -> IRProgram {
    Optimizer::new().optimize(IRProgram::new(decls))
}

fn first_value(ir: &IRProgram) -> &IRExpr {
    match &ir.decls[0] {
        IRDecl::Val { value, .. } => value,
        _ => panic!("expected val decl"),
    }
}

// let x = 1 + 2
#[test]
fn optimize_constant_add() {
    let ir = optimize_vals(vec![val("x", prim(Primitive::AddInt, vec![lit_int(1), lit_int(2)], Type::int_type()))]);
    assert!(matches!(first_value(&ir), IRExpr::Lit(IRLiteral::Int(3), _)));
}

// let x = 3 * 4
#[test]
fn optimize_constant_mul() {
    let ir = optimize_vals(vec![val("x", prim(Primitive::MulInt, vec![lit_int(3), lit_int(4)], Type::int_type()))]);
    assert!(matches!(first_value(&ir), IRExpr::Lit(IRLiteral::Int(12), _)));
}

// let x = 10 - 3
#[test]
fn optimize_constant_sub() {
    let ir = optimize_vals(vec![val("x", prim(Primitive::SubInt, vec![lit_int(10), lit_int(3)], Type::int_type()))]);
    assert!(matches!(first_value(&ir), IRExpr::Lit(IRLiteral::Int(7), _)));
}

// let x = 10 / 2
#[test]
fn optimize_constant_div() {
    let ir = optimize_vals(vec![val("x", prim(Primitive::DivInt, vec![lit_int(10), lit_int(2)], Type::int_type()))]);
    assert!(matches!(first_value(&ir), IRExpr::Lit(IRLiteral::Int(5), _)));
}

// let b = 1 < 2
#[test]
fn optimize_constant_comparison() {
    let ir = optimize_vals(vec![val("b", prim(Primitive::LtInt, vec![lit_int(1), lit_int(2)], Type::bool()))]);
    assert!(matches!(first_value(&ir), IRExpr::Lit(IRLiteral::Bool(true), _)));
}

// let x = -42
#[test]
fn optimize_constant_negation() {
    let ir = optimize_vals(vec![val("x", prim(Primitive::NegInt, vec![lit_int(42)], Type::int_type()))]);
    assert!(matches!(first_value(&ir), IRExpr::Lit(IRLiteral::Int(-42), _)));
}

// let b = not true
#[test]
fn optimize_constant_not() {
    let ir = optimize_vals(vec![val("b", prim(Primitive::Not, vec![boolean(true)], Type::bool()))]);
    assert!(matches!(first_value(&ir), IRExpr::Lit(IRLiteral::Bool(false), _)));
}

fn if_expr(c: bool) -> IRExpr {
    IRExpr::If {
        cond: Box::new(boolean(c)),
        then_branch: Box::new(lit_int(1)),
        else_branch: Box::new(lit_int(2)),
        ty: Type::int_type(),
    }
}

// let x = if true then 1 else 2
#[test]
fn optimize_if_true() {
    let ir = optimize_vals(vec![val("x", if_expr(true))]);
    assert!(matches!(first_value(&ir), IRExpr::Lit(IRLiteral::Int(1), _)));
}

// let x = if false then 1 else 2
#[test]
fn optimize_if_false() {
    let ir = optimize_vals(vec![val("x", if_expr(false))]);
    assert!(matches!(first_value(&ir), IRExpr::Lit(IRLiteral::Int(2), _)));
}

// let x = (1 + 2) * (3 + 4), in A-normal form
#[test]
fn optimize_nested_constant() {
    let t1 = VarId::from_raw(1);
    let t2 = VarId::from_raw(2);
    let value = IRExpr::Let {
        var: t1,
        ty: Type::int_type(),
        value: Box::new(prim(Primitive::AddInt, vec![lit_int(1), lit_int(2)], Type::int_type())),
        body: Box::new(IRExpr::Let {
            var: t2,
            ty: Type::int_type(),
            value: Box::new(prim(Primitive::AddInt, vec![lit_int(3), lit_int(4)], Type::int_type())),
            body: Box::new(prim(Primitive::MulInt, vec![var(1), var(2)], Type::int_type())),
        }),
    };
    let ir = optimize_vals(vec![val("x", value)]);
    assert!(matches!(first_value(&ir), IRExpr::Lit(IRLiteral::Int(21), _)));
}

// let s = "hello" ++ " world"
#[test]
fn optimize_constant_string_concat() {
    let ir = optimize_vals(vec![val("s", prim(Primitive::Concat, vec![string("hello"), string(" world")], Type::string()))]);
    assert!(matches!(first_value(&ir), IRExpr::Lit(IRLiteral::String(s), _) if s == "hello world"));
}

// let x = 1
// let y = x + 1
#[test]
fn no_optimize_variable() {
    let x = IRExpr::Global("x".to_string(), Type::int_type());
    let ir = optimize_vals(vec![
        val("x", lit_int(1)),
        val("y", prim(Primitive::AddInt, vec![x, lit_int(1)], Type::int_type())),
    ]);
    match &ir.decls[1] {
        IRDecl::Val { value, .. } => assert!(matches!(value, IRExpr::Prim { .. })),
        _ => panic!("expected val decl"),
    }
}

// ----- further cases -----

#[test]
fn optimize_wrapping_and_guarded_division() {
    let opt = Optimizer::new();
    let wrapped = opt.optimize_expr(prim(Primitive::AddInt, vec![lit_int(i64::MAX), lit_int(1)], Type::int_type()));
    assert!(matches!(wrapped, IRExpr::Lit(IRLiteral::Int(i64::MIN), _)));
    let by_zero = opt.optimize_expr(prim(Primitive::DivInt, vec![lit_int(1), lit_int(0)], Type::int_type()));
    assert!(matches!(by_zero, IRExpr::Prim { op: Primitive::DivInt, .. }));
    let rem = opt.optimize_expr(prim(Primitive::ModInt, vec![lit_int(-7), lit_int(2)], Type::int_type()));
    assert!(matches!(rem, IRExpr::Lit(IRLiteral::Int(-1), _)));
    let quot = opt.optimize_expr(prim(Primitive::DivInt, vec![lit_int(-7), lit_int(2)], Type::int_type()));
    assert!(matches!(quot, IRExpr::Lit(IRLiteral::Int(-3), _)));
}

#[test]
fn optimize_bool_comparisons() {
    let opt = Optimizer::default();
    let e = opt.optimize_expr(prim(Primitive::EqBool, vec![boolean(true), boolean(false)], Type::bool()));
    assert!(matches!(e, IRExpr::Lit(IRLiteral::Bool(false), _)));
    let e = opt.optimize_expr(prim(Primitive::GeInt, vec![lit_int(3), lit_int(3)], Type::bool()));
    assert!(matches!(e, IRExpr::Lit(IRLiteral::Bool(true), _)));
}

#[test]
fn optimize_dead_let_is_removed() {
    // let _1 = f 0 in 5: the value is no literal, the binding is unused
    let app = IRExpr::App {
        func: Box::new(IRExpr::Global("f".to_string(), Type::int_type())),
        arg: Box::new(lit_int(0)),
        result_ty: Type::int_type(),
    };
    let e = IRExpr::Let { var: VarId::from_raw(1), ty: Type::int_type(), value: Box::new(app), body: Box::new(lit_int(5)) };
    let r = Optimizer::new().optimize_expr(e);
    assert!(matches!(r, IRExpr::Lit(IRLiteral::Int(5), _)));
}

#[test]
fn optimize_keeps_let_used_twice() {
    // let _1 = f 0 in _1 + _1
    let app = IRExpr::App {
        func: Box::new(IRExpr::Global("f".to_string(), Type::int_type())),
        arg: Box::new(lit_int(0)),
        result_ty: Type::int_type(),
    };
    let e = IRExpr::Let {
        var: VarId::from_raw(1),
        ty: Type::int_type(),
        value: Box::new(app),
        body: Box::new(prim(Primitive::AddInt, vec![var(1), var(1)], Type::int_type())),
    };
    let r = Optimizer::new().optimize_expr(e);
    assert!(matches!(r, IRExpr::Let { .. }));
}

#[test]
fn optimize_with_zero_passes_changes_nothing() {
    let ir = Optimizer::with_max_passes(0)
        .optimize(IRProgram::new(vec![val("x", prim(Primitive::AddInt, vec![lit_int(1), lit_int(2)], Type::int_type()))]));
    assert!(matches!(first_value(&ir), IRExpr::Prim { .. }));
}

#[test]
fn optimize_leaves_data_declarations() {
    let ir = optimize_vals(vec![IRDecl::Data {
        name: "T".to_string(),
        params: vec![],
        constructors: vec![("A".to_string(), None)],
    }]);
    assert!(matches!(&ir.decls[0], IRDecl::Data { name, .. } if name == "T"));
}

#[test]
fn free_vars_skip_bound_ones() {
    // fn _1 -> _1 + _2, and a letrec binding _3 used in its own value
    let lam = IRExpr::Lambda {
        param: VarId::from_raw(1),
        param_ty: Type::int_type(),
        body: Box::new(prim(Primitive::AddInt, vec![var(1), var(2)], Type::int_type())),
        result_ty: Type::int_type(),
    };
    let fv = free_vars(&lam);
    assert_eq!(fv.len(), 1);
    assert_eq!(fv[0].raw(), 2);

    let letrec = IRExpr::LetRec {
        bindings: vec![Binding { var: VarId::from_raw(3), ty: Type::int_type(), value: var(3) }],
        body: Box::new(IRExpr::Match {
            scrutinee: Box::new(var(4)),
            arms: vec![(IRPattern::Var(VarId::from_raw(5), Type::int_type()), var(5))],
            ty: Type::int_type(),
        }),
    };
    let fv = free_vars(&letrec);
    assert_eq!(fv.len(), 1);
    assert_eq!(fv[0].raw(), 4);
}

#[test]
fn beta_inlines_single_use() {
    // let _1 = 7 in _1 * 2  ==>  14
    let e = IRExpr::Let {
        var: VarId::from_raw(1),
        ty: Type::int_type(),
        value: Box::new(lit_int(7)),
        body: Box::new(prim(Primitive::MulInt, vec![var(1), lit_int(2)], Type::int_type())),
    };
    let ir = optimize_vals(vec![val("x", e)]);
    assert!(matches!(first_value(&ir), IRExpr::Lit(IRLiteral::Int(14), _)));
}
