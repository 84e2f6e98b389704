use neap::types::error::TypeError;
use neap::types::repr::{Type, TypeVar, TypeVarSupply};
use neap::types::unify::unify;

#[test]
fn unify_same_type() {
    let result = unify(&Type::int_type(), &Type::int_type());
    assert!(result.is_ok());
    assert!(result.unwrap().is_empty());
}

#[test]
fn unify_different_types() {
    let result = unify(&Type::int_type(), &Type::string());
    assert!(result.is_err());
}

#[test]
fn unify_var_with_type() {
    let mut supply = TypeVarSupply::new();
    TypeVar::reset_counter(&mut supply);
    let v = TypeVar::fresh(&mut supply);
    let result = unify(&Type::Var(v), &Type::int_type());

    assert!(result.is_ok());
    let subst = result.unwrap();
    assert_eq!(subst.apply(&Type::Var(v)), Type::int_type());
}

#[test]
fn unify_type_with_var() {
    let mut supply = TypeVarSupply::new();
    TypeVar::reset_counter(&mut supply);
    let v = TypeVar::fresh(&mut supply);
    let result = unify(&Type::int_type(), &Type::Var(v));

    assert!(result.is_ok());
    let subst = result.unwrap();
    assert_eq!(subst.apply(&Type::Var(v)), Type::int_type());
}

#[test]
fn unify_same_var() {
    let mut supply = TypeVarSupply::new();
    TypeVar::reset_counter(&mut supply);
    let v = TypeVar::fresh(&mut supply);
    let result = unify(&Type::Var(v), &Type::Var(v));

    assert!(result.is_ok());
    assert!(result.unwrap().is_empty());
}

#[test]
fn unify_different_vars() {
    let mut supply = TypeVarSupply::new();
    TypeVar::reset_counter(&mut supply);
    let v1 = TypeVar::fresh(&mut supply);
    let v2 = TypeVar::fresh(&mut supply);
    let result = unify(&Type::Var(v1), &Type::Var(v2));

    assert!(result.is_ok());
    let subst = result.unwrap();

    // One should map to the other
    let applied1 = subst.apply(&Type::Var(v1));
    let applied2 = subst.apply(&Type::Var(v2));
    assert_eq!(applied1, applied2);
}

#[test]
fn unify_arrow_types() {
    let mut supply = TypeVarSupply::new();
    TypeVar::reset_counter(&mut supply);
    let v = TypeVar::fresh(&mut supply);

    // 'a -> int  ≈  string -> 'a
    let t1 = Type::arrow(Type::Var(v), Type::int_type());
    let t2 = Type::arrow(Type::string(), Type::Var(v));

    let result = unify(&t1, &t2);
    // Should fail: 'a must be both string (from arg) and int (from ret)
    assert!(result.is_err());
}

#[test]
fn unify_arrow_types_success() {
    let mut supply = TypeVarSupply::new();
    TypeVar::reset_counter(&mut supply);
    let v1 = TypeVar::fresh(&mut supply);
    let v2 = TypeVar::fresh(&mut supply);

    // 'a -> 'b  ≈  int -> string
    let t1 = Type::arrow(Type::Var(v1), Type::Var(v2));
    let t2 = Type::arrow(Type::int_type(), Type::string());

    let result = unify(&t1, &t2);
    assert!(result.is_ok());

    let subst = result.unwrap();
    assert_eq!(subst.apply(&Type::Var(v1)), Type::int_type());
    assert_eq!(subst.apply(&Type::Var(v2)), Type::string());
}

#[test]
fn unify_occurs_check() {
    let mut supply = TypeVarSupply::new();
    TypeVar::reset_counter(&mut supply);
    let v = TypeVar::fresh(&mut supply);

    // 'a ≈ 'a -> int  should fail (infinite type)
    let t1 = Type::Var(v);
    let t2 = Type::arrow(Type::Var(v), Type::int_type());

    let result = unify(&t1, &t2);
    assert!(matches!(result, Err(TypeError::InfiniteType { .. })));
}

#[test]
fn unify_list_types() {
    let mut supply = TypeVarSupply::new();
    TypeVar::reset_counter(&mut supply);
    let v = TypeVar::fresh(&mut supply);

    // 'a list ≈ int list
    let t1 = Type::list(Type::Var(v));
    let t2 = Type::list(Type::int_type());

    let result = unify(&t1, &t2);
    assert!(result.is_ok());

    let subst = result.unwrap();
    assert_eq!(subst.apply(&Type::Var(v)), Type::int_type());
}

#[test]
fn unify_tuple_types() {
    let mut supply = TypeVarSupply::new();
    TypeVar::reset_counter(&mut supply);
    let v = TypeVar::fresh(&mut supply);

    // ('a, string) ≈ (int, string)
    let t1 = Type::Tuple(vec![Type::Var(v), Type::string()]);
    let t2 = Type::Tuple(vec![Type::int_type(), Type::string()]);

    let result = unify(&t1, &t2);
    assert!(result.is_ok());

    let subst = result.unwrap();
    assert_eq!(subst.apply(&Type::Var(v)), Type::int_type());
}

#[test]
fn unify_tuple_different_lengths() {
    // (int, string) ≈ (int, string, bool) should fail
    let t1 = Type::Tuple(vec![Type::int_type(), Type::string()]);
    let t2 = Type::Tuple(vec![Type::int_type(), Type::string(), Type::bool()]);

    let result = unify(&t1, &t2);
    assert!(result.is_err());
}

#[test]
fn unify_record_types() {
    let mut supply = TypeVarSupply::new();
    TypeVar::reset_counter(&mut supply);
    let v = TypeVar::fresh(&mut supply);

    // {x: 'a, y: string} ≈ {x: int, y: string}
    let t1 = Type::Record(vec![
        ("x".to_string(), Type::Var(v)),
        ("y".to_string(), Type::string()),
    ]);
    let t2 = Type::Record(vec![
        ("x".to_string(), Type::int_type()),
        ("y".to_string(), Type::string()),
    ]);

    let result = unify(&t1, &t2);
    assert!(result.is_ok());

    let subst = result.unwrap();
    assert_eq!(subst.apply(&Type::Var(v)), Type::int_type());
}

#[test]
fn unify_record_different_order() {
    // {x: int, y: string} ≈ {y: string, x: int} should succeed
    let t1 = Type::Record(vec![
        ("x".to_string(), Type::int_type()),
        ("y".to_string(), Type::string()),
    ]);
    let t2 = Type::Record(vec![
        ("y".to_string(), Type::string()),
        ("x".to_string(), Type::int_type()),
    ]);

    let result = unify(&t1, &t2);
    assert!(result.is_ok());
}

#[test]
fn unify_record_different_fields() {
    // {x: int} ≈ {y: int} should fail
    let t1 = Type::Record(vec![("x".to_string(), Type::int_type())]);
    let t2 = Type::Record(vec![("y".to_string(), Type::int_type())]);

    let result = unify(&t1, &t2);
    assert!(result.is_err());
}

#[test]
fn unify_complex_type() {
    let mut supply = TypeVarSupply::new();
    TypeVar::reset_counter(&mut supply);
    let v1 = TypeVar::fresh(&mut supply);
    let v2 = TypeVar::fresh(&mut supply);

    // ('a -> 'b) list ≈ (int -> string) list
    let t1 = Type::list(Type::arrow(Type::Var(v1), Type::Var(v2)));
    let t2 = Type::list(Type::arrow(Type::int_type(), Type::string()));

    let result = unify(&t1, &t2);
    assert!(result.is_ok());

    let subst = result.unwrap();
    assert_eq!(subst.apply(&Type::Var(v1)), Type::int_type());
    assert_eq!(subst.apply(&Type::Var(v2)), Type::string());
}

// ----- further cases -----

#[test]
fn unify_mismatch_reports_both_types() {
    let result = unify(&Type::int_type(), &Type::list(Type::int_type()));
    match result {
        Err(TypeError::TypeMismatch { expected, actual }) => {
            assert_eq!(expected, Type::int_type());
            assert_eq!(actual, Type::list(Type::int_type()));
        },
        _ => panic!("expected a type mismatch"),
    }
}

#[test]
fn unify_occurs_check_names_variable_and_type() {
    let t = Type::list(Type::Var(TypeVar(3)));
    match unify(&t, &Type::Var(TypeVar(3))) {
        Err(TypeError::InfiniteType { var, ty }) => {
            assert_eq!(var, TypeVar(3));
            assert_eq!(ty, t);
        },
        _ => panic!("expected an infinite type"),
    }
}

#[test]
fn unify_solution_makes_both_sides_equal() {
    // ('a * 'b) -> 'a  ≈  (int * 'c) -> 'c
    let a = Type::Var(TypeVar(0));
    let b = Type::Var(TypeVar(1));
    let c = Type::Var(TypeVar(2));
    let t1 = Type::arrow(Type::Tuple(vec![a.clone(), b.clone()]), a.clone());
    let t2 = Type::arrow(Type::Tuple(vec![Type::int_type(), c.clone()]), c.clone());
    let s = unify(&t1, &t2).unwrap();
    assert_eq!(s.apply(&t1), s.apply(&t2));
    assert_eq!(s.apply(&a), Type::int_type());
    assert_eq!(s.apply(&c), Type::int_type());
}

#[test]
fn unify_constructor_arity_mismatch() {
    let t1 = Type::result(Type::int_type(), Type::string());
    let t2 = Type::list(Type::int_type());
    assert!(matches!(unify(&t1, &t2), Err(TypeError::TypeMismatch { .. })));
}

#[test]
fn unify_record_fields_unified_by_name() {
    let t1 = Type::Record(vec![
        ("b".to_string(), Type::Var(TypeVar(0))),
        ("a".to_string(), Type::bool()),
    ]);
    let t2 = Type::Record(vec![
        ("a".to_string(), Type::Var(TypeVar(1))),
        ("b".to_string(), Type::char()),
    ]);
    let s = unify(&t1, &t2).unwrap();
    assert_eq!(s.apply(&Type::Var(TypeVar(0))), Type::char());
    assert_eq!(s.apply(&Type::Var(TypeVar(1))), Type::bool());
}

#[test]
fn unify_arrows_with_variables_on_both_sides() {
    let mut supply = TypeVarSupply::new();
    let a = TypeVar::fresh(&mut supply);
    let b = TypeVar::fresh(&mut supply);
    let t1 = Type::arrow(Type::Var(a), Type::int_type());
    let t2 = Type::arrow(Type::bool(), Type::Var(b));
    let s = unify(&t1, &t2).expect("unifiable");
    assert_eq!(s.apply(&t1), s.apply(&t2));
    assert_eq!(s.apply(&Type::Var(a)), Type::bool());
    assert_eq!(s.apply(&Type::Var(b)), Type::int_type());
}
