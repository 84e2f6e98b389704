use neap::ir::base::{Primitive, VarId, VarIdSupply};
use neap::ir::tree::{IRExpr, IRLiteral};
use neap::types::repr::Type;

#[test]
fn var_id_fresh() {
    let mut supply = VarIdSupply::new();
    VarId::reset_counter(&mut supply);
    let v1 = VarId::fresh(&mut supply);
    let v2 = VarId::fresh(&mut supply);
    assert_ne!(v1, v2);
    assert_eq!(v1.raw(), 0);
    assert_eq!(v2.raw(), 1);
}

#[test]
fn var_id_display() {
    let v = VarId::from_raw(42);
    assert_eq!(v.to_string(), "_42");
}

#[test]
fn primitive_names() {
    assert_eq!(Primitive::AddInt.name(), "__add_int");
    assert_eq!(Primitive::Concat.name(), "__concat");
    assert_eq!(Primitive::Print.name(), "print");
}

#[test]
fn primitive_arity() {
    assert_eq!(Primitive::AddInt.arity(), 2);
    assert_eq!(Primitive::NegInt.arity(), 1);
    assert_eq!(Primitive::Not.arity(), 1);
    assert_eq!(Primitive::WriteFile.arity(), 2);
}

// ----- further cases -----

#[test]
fn primitive_more_names_and_arities() {
    assert_eq!(Primitive::PrintNoNewline.name(), "__print_no_newline");
    assert_eq!(Primitive::GeChar.name(), "__ge_char");
    assert_eq!(Primitive::ReadLine.name(), "readLine");
    assert_eq!(Primitive::Assert.name(), "__assert");
    assert_eq!(Primitive::Substring.arity(), 3);
    assert_eq!(Primitive::CharAt.arity(), 2);
    assert_eq!(Primitive::Panic.arity(), 1);
    assert_eq!(Primitive::ReadLine.arity(), 1);
    assert_eq!(Primitive::Append.arity(), 2);
    assert_eq!(Primitive::EqString.to_string(), "__eq_string");
}

#[test]
fn var_id_raw_round_trip_and_wrap() {
    assert_eq!(VarId::from_raw(7).raw(), 7);
    assert_eq!(VarId::from_raw(0).to_string(), "_0");
    assert_eq!(VarId::from_raw(u64::MAX).to_string(), "_18446744073709551615");
}

#[test]
fn expr_is_value() {
    let lit = IRExpr::Lit(IRLiteral::Int(42), Type::int_type());
    assert!(lit.is_value());

    let mut supply = VarIdSupply::new();
    let var = IRExpr::Var(VarId::fresh(&mut supply), Type::int_type());
    assert!(var.is_value());

    let unit = IRExpr::Unit;
    assert!(unit.is_value());
}

#[test]
fn expr_type() {
    let lit = IRExpr::Lit(IRLiteral::Int(42), Type::int_type());
    assert_eq!(lit.ty(), Type::int_type());

    let unit = IRExpr::Unit;
    assert_eq!(unit.ty(), Type::unit());
}
