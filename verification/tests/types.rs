use neap::types::repr::{Type, TypeScheme, TypeVar, TypeVarSupply};

#[test]
fn type_var_fresh() {
    let mut supply = TypeVarSupply::new();
    TypeVar::reset_counter(&mut supply);
    let v1 = TypeVar::fresh(&mut supply);
    let v2 = TypeVar::fresh(&mut supply);
    assert_ne!(v1, v2);
    assert_eq!(v1.0 + 1, v2.0);
}

#[test]
fn type_var_display() {
    let mut supply = TypeVarSupply::new();
    TypeVar::reset_counter(&mut supply);
    let v = TypeVar::fresh(&mut supply);
    assert_eq!(v.to_string(), "'a");
}

#[test]
fn type_constructors() {
    assert_eq!(Type::int_type().to_string(), "int");
    assert_eq!(Type::bool().to_string(), "bool");
    assert_eq!(Type::string().to_string(), "string");
    assert_eq!(Type::unit().to_string(), "unit");
}

#[test]
fn type_list() {
    let list_int = Type::list(Type::int_type());
    assert_eq!(list_int.to_string(), "int list");
}

#[test]
fn type_arrow() {
    let arrow = Type::arrow(Type::int_type(), Type::bool());
    assert_eq!(arrow.to_string(), "int -> bool");
}

#[test]
fn type_arrow_nested() {
    // int -> int -> int
    let arrow = Type::arrow(Type::int_type(), Type::arrow(Type::int_type(), Type::int_type()));
    assert_eq!(arrow.to_string(), "int -> int -> int");
}

#[test]
fn type_arrow_left_nested() {
    // (int -> int) -> int
    let arrow = Type::arrow(Type::arrow(Type::int_type(), Type::int_type()), Type::int_type());
    assert_eq!(arrow.to_string(), "(int -> int) -> int");
}

#[test]
fn type_tuple() {
    let tuple = Type::Tuple(vec![Type::int_type(), Type::string(), Type::bool()]);
    assert_eq!(tuple.to_string(), "int * string * bool");
}

#[test]
fn type_record() {
    let record = Type::Record(vec![
        ("x".to_string(), Type::int_type()),
        ("y".to_string(), Type::int_type()),
    ]);
    assert_eq!(record.to_string(), "{x: int, y: int}");
}

#[test]
fn type_free_vars() {
    let mut supply = TypeVarSupply::new();
    TypeVar::reset_counter(&mut supply);
    let v1 = TypeVar::fresh(&mut supply);
    let v2 = TypeVar::fresh(&mut supply);

    let ty = Type::arrow(Type::Var(v1), Type::Var(v2));
    let free = ty.free_vars();
    assert!(free.contains(&v1));
    assert!(free.contains(&v2));
    assert_eq!(free.len(), 2);
}

#[test]
fn type_contains_var() {
    let mut supply = TypeVarSupply::new();
    TypeVar::reset_counter(&mut supply);
    let v1 = TypeVar::fresh(&mut supply);
    let v2 = TypeVar::fresh(&mut supply);

    let ty = Type::arrow(Type::Var(v1), Type::int_type());
    assert!(ty.contains_var(v1));
    assert!(!ty.contains_var(v2));
}

#[test]
fn type_arrows() {
    let ty = Type::arrows(vec![Type::int_type(), Type::string()], Type::bool());
    assert_eq!(ty.to_string(), "int -> string -> bool");
}

#[test]
fn type_decompose_arrow() {
    let ty = Type::arrow(Type::int_type(), Type::bool());
    let (from, to) = ty.decompose_arrow().unwrap();
    assert_eq!(*from, Type::int_type());
    assert_eq!(*to, Type::bool());

    assert!(Type::int_type().decompose_arrow().is_none());
}

#[test]
fn type_collect_arrow_args() {
    let ty = Type::arrows(vec![Type::int_type(), Type::string()], Type::bool());
    let (args, ret) = ty.collect_arrow_args();
    assert_eq!(args.len(), 2);
    assert_eq!(*args[0], Type::int_type());
    assert_eq!(*args[1], Type::string());
    assert_eq!(*ret, Type::bool());
}

#[test]
fn type_scheme_mono() {
    let scheme = TypeScheme::mono(Type::int_type());
    assert!(scheme.vars.is_empty());
    assert_eq!(scheme.to_string(), "int");
}

#[test]
fn type_scheme_poly() {
    let mut supply = TypeVarSupply::new();
    TypeVar::reset_counter(&mut supply);
    let v = TypeVar::fresh(&mut supply);
    let scheme = TypeScheme::poly(vec![v], Type::arrow(Type::Var(v), Type::Var(v)));
    assert_eq!(scheme.to_string(), "forall 'a. 'a -> 'a");
}

#[test]
fn type_scheme_instantiate() {
    let mut supply = TypeVarSupply::new();
    TypeVar::reset_counter(&mut supply);
    let v = TypeVar::fresh(&mut supply);
    let scheme = TypeScheme::poly(vec![v], Type::arrow(Type::Var(v), Type::Var(v)));

    let instantiated = scheme.instantiate(&mut supply);
    // Should have a fresh variable
    if let Type::Arrow(t1, t2) = instantiated {
        assert!(t1.is_var());
        assert!(t2.is_var());
        assert_eq!(t1, t2); // Same variable in both positions
    } else {
        panic!("Expected arrow type");
    }
}

#[test]
fn type_scheme_free_vars() {
    let mut supply = TypeVarSupply::new();
    TypeVar::reset_counter(&mut supply);
    let v1 = TypeVar::fresh(&mut supply);
    let v2 = TypeVar::fresh(&mut supply);

    // forall 'a. 'a -> 'b
    let scheme = TypeScheme::poly(vec![v1], Type::arrow(Type::Var(v1), Type::Var(v2)));

    let free = scheme.free_vars();
    assert!(!free.contains(&v1)); // v1 is bound
    assert!(free.contains(&v2)); // v2 is free
}

// ----- further cases -----

#[test]
fn type_var_names_past_the_alphabet() {
    assert_eq!(TypeVar(25).to_string(), "'z");
    assert_eq!(TypeVar(26).to_string(), "'t26");
    assert_eq!(TypeVar(1234).to_string(), "'t1234");
}

#[test]
fn type_var_counter_wraps() {
    let mut supply = TypeVarSupply::starting_at(u64::MAX);
    let v = TypeVar::fresh(&mut supply);
    assert_eq!(v.0, u64::MAX);
    assert_eq!(supply.peek(), 0);
}

#[test]
fn type_builtin_constructors_render() {
    assert_eq!(Type::float().to_string(), "float");
    assert_eq!(Type::char().to_string(), "char");
    assert_eq!(Type::option(Type::int_type()).to_string(), "int option");
    assert_eq!(Type::io(Type::unit()).to_string(), "unit io");
    assert_eq!(Type::stream(Type::string()).to_string(), "string stream");
    assert_eq!(Type::result(Type::int_type(), Type::string()).to_string(), "(int, string) result");
}

#[test]
fn type_var_fresh_from_supply_is_var() {
    let mut supply = TypeVarSupply::starting_at(3);
    let t = Type::var(&mut supply);
    assert_eq!(t, Type::Var(TypeVar(3)));
    assert!(t.is_var());
    assert!(!t.is_arrow());
    assert_eq!(supply.peek(), 4);
}

#[test]
fn type_free_vars_in_first_occurrence_order() {
    let ty = Type::Tuple(vec![
        Type::Var(TypeVar(7)),
        Type::arrow(Type::Var(TypeVar(2)), Type::Var(TypeVar(7))),
        Type::Record(vec![("f".to_string(), Type::Var(TypeVar(5)))]),
    ]);
    assert_eq!(ty.free_vars(), vec![TypeVar(7), TypeVar(2), TypeVar(5)]);
}

#[test]
fn type_arrows_without_params_is_result() {
    let ty = Type::arrows(vec![], Type::bool());
    assert_eq!(ty, Type::bool());
    let (args, ret) = ty.collect_arrow_args();
    assert!(args.is_empty());
    assert_eq!(*ret, Type::bool());
}

#[test]
fn type_compound_rendering() {
    let ty = Type::arrow(
        Type::Tuple(vec![Type::int_type(), Type::arrow(Type::int_type(), Type::bool())]),
        Type::list(Type::Var(TypeVar(0))),
    );
    assert_eq!(ty.to_string(), "int * (int -> bool) -> 'a list");
    let unit_tuple = Type::Tuple(vec![]);
    assert_eq!(unit_tuple.to_string(), "unit");
}

#[test]
fn type_scheme_clone_keeps_fields() {
    let scheme = TypeScheme::poly(vec![TypeVar(1)], Type::list(Type::Var(TypeVar(1))));
    let copy = scheme.clone();
    assert_eq!(copy, scheme);
    assert_eq!(copy.to_string(), "forall 'b. 'b list");
}
