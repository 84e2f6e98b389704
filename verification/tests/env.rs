use neap::types::env::{ClassInstance, TypeClass, TypeEnv};
use neap::types::repr::{Type, TypeScheme, TypeVar, TypeVarSupply};
use neap::types::subst::Substitution;

#[test]
fn env_empty() {
    let env = TypeEnv::new();
    assert!(env.lookup("x").is_none());
}

#[test]
fn env_insert_lookup() {
    let mut env = TypeEnv::new();
    env.insert("x".to_string(), TypeScheme::mono(Type::int_type()));

    let scheme = env.lookup("x").unwrap();
    assert_eq!(scheme.ty, Type::int_type());
}

#[test]
fn env_env_extend() {
    let mut env = TypeEnv::new();
    env.insert("x".to_string(), TypeScheme::mono(Type::int_type()));

    let extended = env.extend(vec![
        ("y".to_string(), TypeScheme::mono(Type::string())),
        ("x".to_string(), TypeScheme::mono(Type::bool())), // shadows
    ]);

    // Original env unchanged
    assert_eq!(env.lookup("x").unwrap().ty, Type::int_type());
    assert!(env.lookup("y").is_none());

    // Extended env has new bindings
    assert_eq!(extended.lookup("x").unwrap().ty, Type::bool());
    assert_eq!(extended.lookup("y").unwrap().ty, Type::string());
}

#[test]
fn env_generalize_no_free() {
    let env = TypeEnv::new();
    let mut supply = TypeVarSupply::new();
    TypeVar::reset_counter(&mut supply);
    let v = TypeVar::fresh(&mut supply);

    // 'a -> 'a with empty env: should generalize 'a
    let ty = Type::arrow(Type::Var(v), Type::Var(v));
    let scheme = env.generalize(&ty);

    assert_eq!(scheme.vars.len(), 1);
    assert!(scheme.vars.contains(&v));
}

#[test]
fn env_generalize_with_env_var() {
    let mut env = TypeEnv::new();
    let mut supply = TypeVarSupply::new();
    TypeVar::reset_counter(&mut supply);
    let v1 = TypeVar::fresh(&mut supply);
    let v2 = TypeVar::fresh(&mut supply);

    // Environment has 'a
    env.insert("x".to_string(), TypeScheme::mono(Type::Var(v1)));

    // 'a -> 'b with 'a in env: should only generalize 'b
    let ty = Type::arrow(Type::Var(v1), Type::Var(v2));
    let scheme = env.generalize(&ty);

    assert_eq!(scheme.vars.len(), 1);
    assert!(scheme.vars.contains(&v2));
    assert!(!scheme.vars.contains(&v1));
}

#[test]
fn env_apply_subst() {
    let mut env = TypeEnv::new();
    let mut supply = TypeVarSupply::new();
    TypeVar::reset_counter(&mut supply);
    let v = TypeVar::fresh(&mut supply);

    env.insert("x".to_string(), TypeScheme::mono(Type::Var(v)));

    let subst = Substitution::single(v, Type::int_type());
    let new_env = env.apply_subst(&subst);

    assert_eq!(new_env.lookup("x").unwrap().ty, Type::int_type());
}

#[test]
fn env_builtins() {
    let mut supply = TypeVarSupply::new();
    let env = TypeEnv::with_builtins(&mut supply);

    // Check that built-in types are registered
    assert_eq!(env.type_arity("int"), Some(0));
    assert_eq!(env.type_arity("list"), Some(1));
    assert_eq!(env.type_arity("result"), Some(2));

    // Check that constructors are registered
    assert!(env.lookup_constructor("None").is_some());
    assert!(env.lookup_constructor("Some").is_some());
    assert!(env.lookup_constructor("Ok").is_some());
    assert!(env.lookup_constructor("Err").is_some());
}

// ----- further cases -----

#[test]
fn env_builtin_schemes() {
    let mut supply = TypeVarSupply::new();
    let env = TypeEnv::with_builtins(&mut supply);
    assert_eq!(supply.peek(), 15);
    assert_eq!(env.lookup("__add_int").unwrap().to_string(), "int -> int -> int");
    assert_eq!(env.lookup("__eq").unwrap().to_string(), "forall 'i. 'i -> 'i -> bool");
    assert_eq!(env.lookup("println").unwrap().to_string(), "string -> unit io");
    assert_eq!(env.lookup("charAt").unwrap().to_string(), "string * int -> char");
    assert_eq!(env.lookup("panic").unwrap().to_string(), "forall 'o. string -> 'o");
    assert_eq!(env.lookup_constructor("Cons").unwrap().to_string(), "forall 'h. 'h -> 'h list -> 'h list");
    assert_eq!(env.lookup_constructor("Err").unwrap().to_string(), "forall 'e 'f. 'f -> ('e, 'f) result");
    assert_eq!(env.type_arity("stream"), Some(1));
    assert_eq!(env.type_arity("vector"), None);
    assert!(env.lookup("unknownFunction").is_none());
}

#[test]
fn env_remove_and_contains() {
    let mut env = TypeEnv::new();
    env.insert("f".to_string(), TypeScheme::mono(Type::bool()));
    assert!(env.contains("f"));
    let removed = env.remove("f").unwrap();
    assert_eq!(removed.ty, Type::bool());
    assert!(!env.contains("f"));
    assert!(env.remove("f").is_none());
}

#[test]
fn env_constructors_and_types() {
    let mut env = TypeEnv::new();
    env.insert_type("tree".to_string(), 1);
    env.insert_constructor("Leaf".to_string(), TypeScheme::mono(Type::int_type()));
    assert_eq!(env.type_arity("tree"), Some(1));
    assert_eq!(env.lookup_constructor("Leaf").unwrap().ty, Type::int_type());
    assert!(env.lookup_constructor("Node").is_none());
    // variables and constructors live apart
    assert!(env.lookup("Leaf").is_none());
}

#[test]
fn env_classes_and_methods() {
    let mut env = TypeEnv::new();
    let show = TypeClass {
        name: "Show".to_string(),
        methods: vec![
            ("show".to_string(), TypeScheme::mono(Type::arrow(Type::int_type(), Type::string()))),
            ("show".to_string(), TypeScheme::mono(Type::bool())),
        ],
    };
    env.insert_class(show);
    assert!(env.has_class("Show"));
    assert!(!env.has_class("Eq"));
    assert_eq!(env.lookup_class("Show").unwrap().methods.len(), 2);
    // the first method of that name is found
    assert_eq!(
        env.lookup_method("Show", "show").unwrap().ty,
        Type::arrow(Type::int_type(), Type::string())
    );
    assert!(env.lookup_method("Show", "display").is_none());
    assert!(env.lookup_method("Eq", "show").is_none());
}

#[test]
fn env_instances() {
    let mut env = TypeEnv::new();
    env.insert_instance(ClassInstance { class_name: "Show".to_string(), for_type: Type::int_type(), methods: vec![] });
    env.insert_instance(ClassInstance {
        class_name: "Show".to_string(),
        for_type: Type::list(Type::Var(TypeVar(0))),
        methods: vec![],
    });
    env.insert_instance(ClassInstance { class_name: "Eq".to_string(), for_type: Type::int_type(), methods: vec![] });

    assert_eq!(env.find_instance("Show", &Type::int_type()).unwrap().for_type, Type::int_type());
    // an instance variable covers any argument
    assert_eq!(
        env.find_instance("Show", &Type::list(Type::bool())).unwrap().for_type,
        Type::list(Type::Var(TypeVar(0)))
    );
    assert!(env.find_instance("Show", &Type::bool()).is_none());
    assert!(env.find_instance("Ord", &Type::int_type()).is_none());
    let shows = env.instances_for_class("Show");
    assert_eq!(shows.len(), 2);
    assert_eq!(shows[0].for_type, Type::int_type());
    assert_eq!(env.instances_for_class("Eq").len(), 1);
    assert!(env.instances_for_class("Ord").is_empty());
}

#[test]
fn env_instance_variable_only_at_top_or_in_constructor_arguments() {
    let mut env = TypeEnv::new();
    env.insert_instance(ClassInstance {
        class_name: "C".to_string(),
        for_type: Type::arrow(Type::Var(TypeVar(0)), Type::int_type()),
        methods: vec![],
    });
    // inside an arrow, types are compared as they are
    assert!(env.find_instance("C", &Type::arrow(Type::bool(), Type::int_type())).is_none());
    assert!(env
        .find_instance("C", &Type::arrow(Type::Var(TypeVar(0)), Type::int_type()))
        .is_some());
}

#[test]
fn env_free_vars_and_generalize_order() {
    let mut env = TypeEnv::new();
    env.insert("x".to_string(), TypeScheme::poly(vec![TypeVar(1)], Type::arrow(Type::Var(TypeVar(1)), Type::Var(TypeVar(2)))));
    env.insert("y".to_string(), TypeScheme::mono(Type::Var(TypeVar(2))));
    let fv = env.free_vars();
    assert_eq!(fv, vec![TypeVar(2)]);
    let ty = Type::arrow(Type::Var(TypeVar(5)), Type::Tuple(vec![Type::Var(TypeVar(2)), Type::Var(TypeVar(4))]));
    let scheme = env.generalize(&ty);
    assert_eq!(scheme.vars, vec![TypeVar(5), TypeVar(4)]);
    assert_eq!(scheme.ty, ty);
    let mono = env.generalize(&Type::Var(TypeVar(2)));
    assert!(mono.vars.is_empty());
}

#[test]
fn env_apply_subst_skips_bound_variables() {
    let mut env = TypeEnv::new();
    env.insert("id".to_string(), TypeScheme::poly(vec![TypeVar(0)], Type::arrow(Type::Var(TypeVar(0)), Type::Var(TypeVar(0)))));
    env.insert_type("t".to_string(), 0);
    let subst = Substitution::single(TypeVar(0), Type::int_type());
    let applied = env.apply_subst(&subst);
    assert_eq!(applied.lookup("id").unwrap().ty, Type::arrow(Type::Var(TypeVar(0)), Type::Var(TypeVar(0))));
    assert_eq!(applied.type_arity("t"), Some(0));
}

#[test]
fn env_clone_and_default() {
    let mut env = TypeEnv::default();
    env.insert("z".to_string(), TypeScheme::mono(Type::char()));
    let copy = env.clone();
    assert_eq!(copy.lookup("z").unwrap().ty, Type::char());
    assert!(TypeEnv::default().lookup("z").is_none());
}
