use neap::types::repr::{Type, TypeScheme, TypeVar, TypeVarSupply};
use neap::types::subst::Substitution;

#[test]
fn subst_empty() {
    let subst = Substitution::new();
    assert!(subst.is_empty());
    assert_eq!(subst.len(), 0);
}

#[test]
fn subst_single() {
    let mut supply = TypeVarSupply::new();
    TypeVar::reset_counter(&mut supply);
    let v = TypeVar::fresh(&mut supply);
    let subst = Substitution::single(v, Type::int_type());

    assert!(!subst.is_empty());
    assert_eq!(subst.len(), 1);
    assert_eq!(subst.get(v), Some(&Type::int_type()));
}

#[test]
fn subst_apply_var() {
    let mut supply = TypeVarSupply::new();
    TypeVar::reset_counter(&mut supply);
    let v = TypeVar::fresh(&mut supply);
    let subst = Substitution::single(v, Type::int_type());

    let ty = Type::Var(v);
    assert_eq!(subst.apply(&ty), Type::int_type());
}

#[test]
fn subst_apply_unbound_var() {
    let mut supply = TypeVarSupply::new();
    TypeVar::reset_counter(&mut supply);
    let v1 = TypeVar::fresh(&mut supply);
    let v2 = TypeVar::fresh(&mut supply);
    let subst = Substitution::single(v1, Type::int_type());

    let ty = Type::Var(v2);
    assert_eq!(subst.apply(&ty), Type::Var(v2));
}

#[test]
fn subst_apply_arrow() {
    let mut supply = TypeVarSupply::new();
    TypeVar::reset_counter(&mut supply);
    let v = TypeVar::fresh(&mut supply);
    let subst = Substitution::single(v, Type::int_type());

    let ty = Type::arrow(Type::Var(v), Type::Var(v));
    assert_eq!(subst.apply(&ty), Type::arrow(Type::int_type(), Type::int_type()));
}

#[test]
fn subst_apply_nested() {
    let mut supply = TypeVarSupply::new();
    TypeVar::reset_counter(&mut supply);
    let v1 = TypeVar::fresh(&mut supply);
    let v2 = TypeVar::fresh(&mut supply);

    let mut subst = Substitution::new();
    subst.insert(v1, Type::Var(v2));
    subst.insert(v2, Type::int_type());

    // Applying to v1 should resolve through v2 to int
    let ty = Type::Var(v1);
    assert_eq!(subst.apply(&ty), Type::int_type());
}

#[test]
fn subst_apply_con() {
    let mut supply = TypeVarSupply::new();
    TypeVar::reset_counter(&mut supply);
    let v = TypeVar::fresh(&mut supply);
    let subst = Substitution::single(v, Type::int_type());

    let ty = Type::list(Type::Var(v));
    assert_eq!(subst.apply(&ty), Type::list(Type::int_type()));
}

#[test]
fn subst_apply_tuple() {
    let mut supply = TypeVarSupply::new();
    TypeVar::reset_counter(&mut supply);
    let v = TypeVar::fresh(&mut supply);
    let subst = Substitution::single(v, Type::int_type());

    let ty = Type::Tuple(vec![Type::Var(v), Type::string()]);
    assert_eq!(subst.apply(&ty), Type::Tuple(vec![Type::int_type(), Type::string()]));
}

#[test]
fn subst_apply_record() {
    let mut supply = TypeVarSupply::new();
    TypeVar::reset_counter(&mut supply);
    let v = TypeVar::fresh(&mut supply);
    let subst = Substitution::single(v, Type::int_type());

    let ty = Type::Record(vec![("x".to_string(), Type::Var(v))]);
    assert_eq!(subst.apply(&ty), Type::Record(vec![("x".to_string(), Type::int_type())]));
}

#[test]
fn subst_apply_scheme_respects_bound() {
    let mut supply = TypeVarSupply::new();
    TypeVar::reset_counter(&mut supply);
    let v1 = TypeVar::fresh(&mut supply);
    let v2 = TypeVar::fresh(&mut supply);

    // subst: v1 -> int
    let subst = Substitution::single(v1, Type::int_type());

    // scheme: forall v1. v1 -> v2
    // v1 is bound, v2 is free
    let scheme = TypeScheme::poly(vec![v1], Type::arrow(Type::Var(v1), Type::Var(v2)));

    let result = subst.apply_scheme(&scheme);

    // v1 should NOT be replaced (it's bound)
    // v2 should remain as-is (not in subst)
    assert_eq!(result.vars, vec![v1]);
    assert_eq!(result.ty, Type::arrow(Type::Var(v1), Type::Var(v2)));
}

#[test]
fn subst_compose() {
    let mut supply = TypeVarSupply::new();
    TypeVar::reset_counter(&mut supply);
    let v1 = TypeVar::fresh(&mut supply);
    let v2 = TypeVar::fresh(&mut supply);

    // s1: v2 -> int
    let s1 = Substitution::single(v2, Type::int_type());

    // s2: v1 -> v2
    let s2 = Substitution::single(v1, Type::Var(v2));

    // compose: applying s2 then s1
    let composed = s1.compose(&s2);

    // v1 should map to int (v2 resolved to int)
    assert_eq!(composed.apply(&Type::Var(v1)), Type::int_type());
    assert_eq!(composed.apply(&Type::Var(v2)), Type::int_type());
}

#[test]
fn subst_extend() {
    let mut supply = TypeVarSupply::new();
    TypeVar::reset_counter(&mut supply);
    let v1 = TypeVar::fresh(&mut supply);
    let v2 = TypeVar::fresh(&mut supply);

    let mut s1 = Substitution::single(v1, Type::Var(v2));
    let s2 = Substitution::single(v2, Type::int_type());

    s1.extend(&s2);

    // v1 should now map to int (through v2)
    assert_eq!(s1.apply(&Type::Var(v1)), Type::int_type());
    assert_eq!(s1.apply(&Type::Var(v2)), Type::int_type());
}

// ----- further cases -----

#[test]
fn subst_insert_replaces_earlier_mapping() {
    let mut subst = Substitution::new();
    subst.insert(TypeVar(0), Type::int_type());
    subst.insert(TypeVar(0), Type::bool());
    assert_eq!(subst.len(), 1);
    assert_eq!(subst.get(TypeVar(0)), Some(&Type::bool()));
    assert_eq!(subst.get(TypeVar(1)), None);
}

#[test]
fn subst_iter_lists_every_mapping() {
    let mut subst = Substitution::new();
    subst.insert(TypeVar(0), Type::int_type());
    subst.insert(TypeVar(3), Type::string());
    let entries = subst.iter();
    assert_eq!(entries.len(), 2);
    assert!(entries.iter().any(|(v, t)| *v == TypeVar(0) && **t == Type::int_type()));
    assert!(entries.iter().any(|(v, t)| *v == TypeVar(3) && **t == Type::string()));
}

#[test]
fn subst_compose_in_sequence_on_a_type() {
    // applying the composition is applying the inner substitution, then the outer one
    let inner = Substitution::single(TypeVar(0), Type::list(Type::Var(TypeVar(1))));
    let outer = Substitution::single(TypeVar(1), Type::char());
    let composed = outer.compose(&inner);
    let ty = Type::arrow(Type::Var(TypeVar(0)), Type::Var(TypeVar(1)));
    assert_eq!(composed.apply(&ty), outer.apply(&inner.apply(&ty)));
    assert_eq!(composed.apply(&ty), Type::arrow(Type::list(Type::char()), Type::char()));
}

#[test]
fn subst_clone_is_equal_mapping() {
    let subst = Substitution::single(TypeVar(4), Type::float());
    let copy = subst.clone();
    assert_eq!(copy.len(), 1);
    assert_eq!(copy.get(TypeVar(4)), Some(&Type::float()));
}

#[test]
fn scheme_instantiate_uses_supply_numbers() {
    let scheme = TypeScheme::poly(
        vec![TypeVar(0), TypeVar(1)],
        Type::arrow(Type::Var(TypeVar(0)), Type::Var(TypeVar(1))),
    );
    let mut supply = TypeVarSupply::starting_at(10);
    let t = scheme.instantiate(&mut supply);
    assert_eq!(t, Type::arrow(Type::Var(TypeVar(10)), Type::Var(TypeVar(11))));
    assert_eq!(supply.peek(), 12);
}

#[test]
fn subst_compose_after_a_chained_substitution() {
    // the inner substitution maps v0 to v1 and v1 to bool; the outer maps v2 only
    let mut inner = Substitution::new();
    inner.insert(TypeVar(0), Type::Var(TypeVar(1)));
    inner.insert(TypeVar(1), Type::bool());
    let outer = Substitution::single(TypeVar(2), Type::int_type());
    let composed = outer.compose(&inner);
    let ty = Type::Tuple(vec![Type::Var(TypeVar(0)), Type::Var(TypeVar(1)), Type::Var(TypeVar(2))]);
    assert_eq!(composed.apply(&ty), outer.apply(&inner.apply(&ty)));
    assert_eq!(composed.apply(&ty), Type::Tuple(vec![Type::bool(), Type::bool(), Type::int_type()]));
}
