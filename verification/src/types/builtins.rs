//! The built-in types, data constructors and functions that every program's
//! type environment starts with.

use vstd::prelude::*;
use super::model::TypeV;
use super::repr::{Type, TypeScheme, TypeVar, TypeVarSupply, con0, lemma_tview_seq, next_after, tview, tview_seq};
use super::env::{ClassInstance, InstV, SchemeV, TypeClass, TypeEnv, name_pairs};

verus! {

// ========== The built-in environment, as values ==========

/// The `k`-th number handed out by a supply whose next number is `n`.
pub open spec fn id_after(n: u64, k: nat) -> u64
    decreases k,
{
    if k == 0 { n } else { next_after(id_after(n, (k - 1) as nat)) }
}

/// The supply's next number once the built-in environment has been made.
pub open spec fn builtin_supply_after(n: u64) -> u64 {
    id_after(n, 15)
}

pub open spec fn var_v(a: u64) -> TypeV {
    TypeV::Var(a)
}

pub open spec fn arrow_v(a: TypeV, b: TypeV) -> TypeV {
    TypeV::Arrow(Box::new(a), Box::new(b))
}

pub open spec fn app_v(name: Seq<char>, x: TypeV) -> TypeV {
    TypeV::Con(name, seq![x])
}

pub open spec fn mono_v(t: TypeV) -> SchemeV {
    (Seq::empty(), t)
}

pub open spec fn poly_v(a: u64, t: TypeV) -> SchemeV {
    (seq![TypeVar(a)], t)
}

pub open spec fn poly2_v(a: u64, e: u64, t: TypeV) -> SchemeV {
    (seq![TypeVar(a), TypeVar(e)], t)
}

/// `t -> t -> t`
pub open spec fn binop_v(t: TypeV) -> TypeV {
    arrow_v(t, arrow_v(t, t))
}

/// The arities of the built-in type constructors.
pub open spec fn builtin_arities() -> Map<Seq<char>, usize> {
    Map::empty()
        .insert("unit"@, 0usize)
        .insert("bool"@, 0usize)
        .insert("int"@, 0usize)
        .insert("float"@, 0usize)
        .insert("string"@, 0usize)
        .insert("char"@, 0usize)
        .insert("list"@, 1usize)
        .insert("option"@, 1usize)
        .insert("result"@, 2usize)
        .insert("io"@, 1usize)
        .insert("stream"@, 1usize)
}

/// The built-in data constructors, their variables numbered from `n` on.
pub open spec fn builtin_ctors(n: u64) -> Map<Seq<char>, SchemeV> {
    let a0 = id_after(n, 0);
    let a1 = id_after(n, 1);
    let a2 = id_after(n, 2);
    let e3 = id_after(n, 3);
    let a4 = id_after(n, 4);
    let e5 = id_after(n, 5);
    let a6 = id_after(n, 6);
    let a7 = id_after(n, 7);
    let boolean = con0("bool"@);
    Map::empty()
        .insert("true"@, mono_v(boolean))
        .insert("false"@, mono_v(boolean))
        .insert("None"@, poly_v(a0, app_v("option"@, var_v(a0))))
        .insert("Some"@, poly_v(a1, arrow_v(var_v(a1), app_v("option"@, var_v(a1)))))
        .insert("Ok"@, poly2_v(a2, e3, arrow_v(var_v(a2), TypeV::Con("result"@, seq![var_v(a2), var_v(e3)]))))
        .insert("Err"@, poly2_v(a4, e5, arrow_v(var_v(e5), TypeV::Con("result"@, seq![var_v(a4), var_v(e5)]))))
        .insert("Nil"@, poly_v(a6, app_v("list"@, var_v(a6))))
        .insert("Cons"@, poly_v(a7, arrow_v(var_v(a7), arrow_v(app_v("list"@, var_v(a7)), app_v("list"@, var_v(a7))))))
}

/// The built-in operators added to `m`, their variables numbered from `n` on.
pub open spec fn builtin_operators(m: Map<Seq<char>, SchemeV>, n: u64) -> Map<Seq<char>, SchemeV> {
    let a = id_after(n, 0);
    let c = id_after(n, 1);
    let d = id_after(n, 2);
    let int_t = con0("int"@);
    let float = con0("float"@);
    let cmp_v = poly_v(a, arrow_v(var_v(a), arrow_v(var_v(a), con0("bool"@))));
    m.insert("__add_int"@, mono_v(binop_v(int_t)))
        .insert("__sub_int"@, mono_v(binop_v(int_t)))
        .insert("__mul_int"@, mono_v(binop_v(int_t)))
        .insert("__div_int"@, mono_v(binop_v(int_t)))
        .insert("__mod_int"@, mono_v(binop_v(int_t)))
        .insert("__add_float"@, mono_v(binop_v(float)))
        .insert("__sub_float"@, mono_v(binop_v(float)))
        .insert("__mul_float"@, mono_v(binop_v(float)))
        .insert("__div_float"@, mono_v(binop_v(float)))
        .insert("__eq"@, cmp_v)
        .insert("__neq"@, cmp_v)
        .insert("__lt"@, cmp_v)
        .insert("__le"@, cmp_v)
        .insert("__gt"@, cmp_v)
        .insert("__ge"@, cmp_v)
        .insert("__concat"@, mono_v(binop_v(con0("string"@))))
        .insert("__cons"@, poly_v(c, arrow_v(var_v(c), arrow_v(app_v("list"@, var_v(c)), app_v("list"@, var_v(c))))))
        .insert("__append"@, poly_v(d, binop_v(app_v("list"@, var_v(d)))))
        .insert("__neg_int"@, mono_v(arrow_v(int_t, int_t)))
        .insert("__neg_float"@, mono_v(arrow_v(float, float)))
        .insert("__not"@, mono_v(arrow_v(con0("bool"@), con0("bool"@))))
}

/// The built-in input and output functions added to `m`, the variable of
/// `print` numbered `n`.
pub open spec fn builtin_io(m: Map<Seq<char>, SchemeV>, n: u64) -> Map<Seq<char>, SchemeV> {
    let string = con0("string"@);
    let io_unit = app_v("io"@, con0("unit"@));
    m.insert("print"@, poly_v(n, arrow_v(var_v(n), io_unit)))
        .insert("println"@, mono_v(arrow_v(string, io_unit)))
        .insert("readLine"@, mono_v(app_v("io"@, string)))
        .insert("readFile"@, mono_v(arrow_v(string, app_v("io"@, string))))
        .insert("writeFile"@, mono_v(arrow_v(string, arrow_v(string, io_unit))))
        .insert("getEnv"@, mono_v(arrow_v(string, app_v("io"@, app_v("option"@, string)))))
}

/// The built-in conversions, string and list functions, assertions and panic
/// added to `m`, their variables numbered from `n` on.
pub open spec fn builtin_misc(m: Map<Seq<char>, SchemeV>, n: u64) -> Map<Seq<char>, SchemeV> {
    let a = id_after(n, 0);
    let b = id_after(n, 1);
    let c = id_after(n, 2);
    let int_t = con0("int"@);
    let float = con0("float"@);
    let string = con0("string"@);
    let ch = con0("char"@);
    let io_unit = app_v("io"@, con0("unit"@));
    m.insert("intToFloat"@, mono_v(arrow_v(int_t, float)))
        .insert("floatToInt"@, mono_v(arrow_v(float, int_t)))
        .insert("intToString"@, mono_v(arrow_v(int_t, string)))
        .insert("floatToString"@, mono_v(arrow_v(float, string)))
        .insert("charToString"@, mono_v(arrow_v(ch, string)))
        .insert("charToInt"@, mono_v(arrow_v(ch, int_t)))
        .insert("intToChar"@, mono_v(arrow_v(int_t, ch)))
        .insert("stringLength"@, mono_v(arrow_v(string, int_t)))
        .insert("charAt"@, mono_v(arrow_v(TypeV::Tuple(seq![string, int_t]), ch)))
        .insert("substring"@, mono_v(arrow_v(TypeV::Tuple(seq![string, int_t, int_t]), string)))
        .insert("listLength"@, poly_v(a, arrow_v(app_v("list"@, var_v(a)), int_t)))
        .insert("printNoNewline"@, poly_v(b, arrow_v(var_v(b), io_unit)))
        .insert("assert"@, mono_v(arrow_v(con0("bool"@), io_unit)))
        .insert("panic"@, poly_v(c, arrow_v(string, var_v(c))))
}

/// The built-in functions, their variables numbered from `n` on.
pub open spec fn builtin_bindings(n: u64) -> Map<Seq<char>, SchemeV> {
    builtin_misc(
        builtin_io(builtin_operators(Map::empty(), id_after(n, 8)), id_after(n, 11)),
        id_after(n, 12),
    )
}

/// The standard type classes added to the classes `m`: `Show`, whose method
/// `show` has type `'a -> string`, and `Eq`, whose method `eq` has type
/// `'b -> 'b -> bool`; `'a` is numbered `n` and `'b` the number after it.
pub open spec fn standard_classes(
    m: Map<Seq<char>, (Seq<char>, Seq<(Seq<char>, SchemeV)>)>,
    n: u64,
) -> Map<Seq<char>, (Seq<char>, Seq<(Seq<char>, SchemeV)>)> {
    let a = n;
    let b = next_after(n);
    m.insert("Show"@, ("Show"@, seq![("show"@, poly_v(a, arrow_v(var_v(a), con0("string"@))))]))
        .insert("Eq"@, ("Eq"@, seq![("eq"@, poly_v(b, arrow_v(var_v(b), arrow_v(var_v(b), con0("bool"@)))))]))
}

/// The primitive types that the standard classes have instances for.
pub open spec fn primitive_types() -> Seq<TypeV> {
    seq![con0("int"@), con0("float"@), con0("bool"@), con0("string"@), con0("char"@)]
}

/// The instances of the standard classes: `Show` and `Eq` for each primitive type, each
/// method with the built-in function that implements it.
pub open spec fn standard_instances() -> Seq<InstV> {
    seq![
        ("Show"@, con0("int"@), seq![("show"@, "intToString"@)]),
        ("Show"@, con0("float"@), seq![("show"@, "floatToString"@)]),
        ("Show"@, con0("bool"@), seq![("show"@, "__bool_to_string"@)]),
        ("Show"@, con0("string"@), seq![("show"@, "__string_identity"@)]),
        ("Show"@, con0("char"@), seq![("show"@, "charToString"@)]),
        ("Eq"@, con0("int"@), seq![("eq"@, "__eq"@)]),
        ("Eq"@, con0("float"@), seq![("eq"@, "__eq"@)]),
        ("Eq"@, con0("bool"@), seq![("eq"@, "__eq"@)]),
        ("Eq"@, con0("string"@), seq![("eq"@, "__eq"@)]),
        ("Eq"@, con0("char"@), seq![("eq"@, "__eq"@)]),
    ]
}

// ========== Building blocks ==========

fn mono(ty: Type) -> (s: TypeScheme)
    ensures
        s@ == mono_v(ty@),
{
    TypeScheme::mono(ty)
}

fn poly(a: TypeVar, ty: Type) -> (s: TypeScheme)
    ensures
        s@ == poly_v(a.0, ty@),
{
    let vars = vec![a];
    let s = TypeScheme::poly(vars, ty);
    assert(s.vars@ =~= seq![TypeVar(a.0)]);
    s
}

fn poly2(a: TypeVar, e: TypeVar, ty: Type) -> (s: TypeScheme)
    ensures
        s@ == poly2_v(a.0, e.0, ty@),
{
    let vars = vec![a, e];
    let s = TypeScheme::poly(vars, ty);
    assert(s.vars@ =~= seq![TypeVar(a.0), TypeVar(e.0)]);
    s
}

fn var(a: TypeVar) -> (t: Type)
    ensures
        t@ == var_v(a.0),
{
    Type::Var(a)
}

fn binop(t: &Type) -> (r: Type)
    ensures
        r@ == binop_v(t@),
{
    Type::arrow(t.clone(), Type::arrow(t.clone(), t.clone()))
}

fn compare_scheme(a: TypeVar) -> (s: TypeScheme)
    ensures
        s@ == poly_v(a.0, arrow_v(var_v(a.0), arrow_v(var_v(a.0), con0("bool"@)))),
{
    poly(a, Type::arrow(var(a), Type::arrow(var(a), Type::bool())))
}

fn io_unit() -> (t: Type)
    ensures
        t@ == app_v("io"@, con0("unit"@)),
{
    let t = Type::io(Type::unit());
    assert(t@ == app_v("io"@, con0("unit"@)));
    t
}

fn tuple2(a: Type, b: Type) -> (t: Type)
    ensures
        t@ == TypeV::Tuple(seq![a@, b@]),
{
    let v = vec![a, b];
    proof {
        lemma_tview_seq(v@);
        assert(tview_seq(v@) =~= seq![v@[0]@, v@[1]@]);
    }
    let t = Type::Tuple(v);
    assert(t@ == tview(t));
    t
}

fn tuple3(a: Type, b: Type, c: Type) -> (t: Type)
    ensures
        t@ == TypeV::Tuple(seq![a@, b@, c@]),
{
    let v = vec![a, b, c];
    proof {
        lemma_tview_seq(v@);
        assert(tview_seq(v@) =~= seq![v@[0]@, v@[1]@, v@[2]@]);
    }
    let t = Type::Tuple(v);
    assert(t@ == tview(t));
    t
}

fn key(s: &str) -> (r: String)
    ensures
        r@ == s@,
{
    s.to_owned()
}

// ========== Adding them to an environment ==========

impl TypeEnv {
    fn add_builtin_types(&mut self)
        requires
            old(self).arities() == Map::<Seq<char>, usize>::empty(),
        ensures
            final(self).arities() == builtin_arities(),
            final(self).vars() == old(self).vars(),
            final(self).ctors() == old(self).ctors(),
            final(self).classes() == old(self).classes(),
            final(self).insts() == old(self).insts(),
    {
        self.insert_type(key("unit"), 0);
        self.insert_type(key("bool"), 0);
        self.insert_type(key("int"), 0);
        self.insert_type(key("float"), 0);
        self.insert_type(key("string"), 0);
        self.insert_type(key("char"), 0);
        self.insert_type(key("list"), 1);
        self.insert_type(key("option"), 1);
        self.insert_type(key("result"), 2);
        self.insert_type(key("io"), 1);
        self.insert_type(key("stream"), 1);
    }

    fn add_builtin_constructors(&mut self, supply: &mut TypeVarSupply)
        requires
            old(self).ctors() == Map::<Seq<char>, SchemeV>::empty(),
        ensures
            final(self).ctors() == builtin_ctors(old(supply).next_id()),
            final(supply).next_id() == id_after(old(supply).next_id(), 8),
            final(self).vars() == old(self).vars(),
            final(self).arities() == old(self).arities(),
            final(self).classes() == old(self).classes(),
            final(self).insts() == old(self).insts(),
    {
        let ghost n = supply.next_id();
        // Boolean constructors
        self.insert_constructor(key("true"), mono(Type::bool()));
        self.insert_constructor(key("false"), mono(Type::bool()));

        // Option constructors
        let a = TypeVar::fresh(supply);
        self.insert_constructor(key("None"), poly(a, Type::option(var(a))));
        let a = TypeVar::fresh(supply);
        self.insert_constructor(key("Some"), poly(a, Type::arrow(var(a), Type::option(var(a)))));

        // Result constructors
        let a = TypeVar::fresh(supply);
        let e = TypeVar::fresh(supply);
        let ok_ty = Type::result(var(a), var(e));
        self.insert_constructor(key("Ok"), poly2(a, e, Type::arrow(var(a), ok_ty)));
        let a = TypeVar::fresh(supply);
        let e = TypeVar::fresh(supply);
        let err_ty = Type::result(var(a), var(e));
        self.insert_constructor(key("Err"), poly2(a, e, Type::arrow(var(e), err_ty)));

        // List constructors
        let a = TypeVar::fresh(supply);
        self.insert_constructor(key("Nil"), poly(a, Type::list(var(a))));
        let a = TypeVar::fresh(supply);
        let cons_ty = Type::arrow(var(a), Type::arrow(Type::list(var(a)), Type::list(var(a))));
        self.insert_constructor(key("Cons"), poly(a, cons_ty));
        proof {
            reveal_with_fuel(id_after, 9);
        }
    }

    fn add_builtin_operators(&mut self, supply: &mut TypeVarSupply)
        ensures
            final(self).vars() == builtin_operators(old(self).vars(), old(supply).next_id()),
            final(supply).next_id() == id_after(old(supply).next_id(), 3),
            final(self).arities() == old(self).arities(),
            final(self).ctors() == old(self).ctors(),
            final(self).classes() == old(self).classes(),
            final(self).insts() == old(self).insts(),
    {
        // Arithmetic: int -> int -> int
        let int_ty = Type::int_type();
        self.insert(key("__add_int"), mono(binop(&int_ty)));
        self.insert(key("__sub_int"), mono(binop(&int_ty)));
        self.insert(key("__mul_int"), mono(binop(&int_ty)));
        self.insert(key("__div_int"), mono(binop(&int_ty)));
        self.insert(key("__mod_int"), mono(binop(&int_ty)));

        // Float arithmetic: float -> float -> float
        let float = Type::float();
        self.insert(key("__add_float"), mono(binop(&float)));
        self.insert(key("__sub_float"), mono(binop(&float)));
        self.insert(key("__mul_float"), mono(binop(&float)));
        self.insert(key("__div_float"), mono(binop(&float)));

        // Comparison: 'a -> 'a -> bool
        let a = TypeVar::fresh(supply);
        self.insert(key("__eq"), compare_scheme(a));
        self.insert(key("__neq"), compare_scheme(a));
        self.insert(key("__lt"), compare_scheme(a));
        self.insert(key("__le"), compare_scheme(a));
        self.insert(key("__gt"), compare_scheme(a));
        self.insert(key("__ge"), compare_scheme(a));

        // String concatenation: string -> string -> string
        self.insert(key("__concat"), mono(binop(&Type::string())));

        // List operations
        let a = TypeVar::fresh(supply);
        let cons_ty = Type::arrow(var(a), Type::arrow(Type::list(var(a)), Type::list(var(a))));
        self.insert(key("__cons"), poly(a, cons_ty));
        let a = TypeVar::fresh(supply);
        self.insert(key("__append"), poly(a, binop(&Type::list(var(a)))));

        // Negation
        self.insert(key("__neg_int"), mono(Type::arrow(Type::int_type(), Type::int_type())));
        self.insert(key("__neg_float"), mono(Type::arrow(Type::float(), Type::float())));

        // Logical not: bool -> bool
        self.insert(key("__not"), mono(Type::arrow(Type::bool(), Type::bool())));
        proof {
            reveal_with_fuel(id_after, 4);
        }
    }

    fn add_builtin_io(&mut self, supply: &mut TypeVarSupply)
        ensures
            final(self).vars() == builtin_io(old(self).vars(), old(supply).next_id()),
            final(supply).next_id() == next_after(old(supply).next_id()),
            final(self).arities() == old(self).arities(),
            final(self).ctors() == old(self).ctors(),
            final(self).classes() == old(self).classes(),
            final(self).insts() == old(self).insts(),
    {
        // Print functions
        let a = TypeVar::fresh(supply);
        self.insert(key("print"), poly(a, Type::arrow(var(a), io_unit())));
        self.insert(key("println"), mono(Type::arrow(Type::string(), io_unit())));

        // IO functions
        self.insert(key("readLine"), mono(Type::io(Type::string())));
        self.insert(key("readFile"), mono(Type::arrow(Type::string(), Type::io(Type::string()))));
        self.insert(key("writeFile"), mono(Type::arrow(Type::string(), Type::arrow(Type::string(), io_unit()))));

        // Environment variable access
        self.insert(key("getEnv"), mono(Type::arrow(Type::string(), Type::io(Type::option(Type::string())))));
    }

    fn add_builtin_misc(&mut self, supply: &mut TypeVarSupply)
        ensures
            final(self).vars() == builtin_misc(old(self).vars(), old(supply).next_id()),
            final(supply).next_id() == id_after(old(supply).next_id(), 3),
            final(self).arities() == old(self).arities(),
            final(self).ctors() == old(self).ctors(),
            final(self).classes() == old(self).classes(),
            final(self).insts() == old(self).insts(),
    {
        // Conversion functions
        self.insert(key("intToFloat"), mono(Type::arrow(Type::int_type(), Type::float())));
        self.insert(key("floatToInt"), mono(Type::arrow(Type::float(), Type::int_type())));
        self.insert(key("intToString"), mono(Type::arrow(Type::int_type(), Type::string())));
        self.insert(key("floatToString"), mono(Type::arrow(Type::float(), Type::string())));
        self.insert(key("charToString"), mono(Type::arrow(Type::char(), Type::string())));
        self.insert(key("charToInt"), mono(Type::arrow(Type::char(), Type::int_type())));
        self.insert(key("intToChar"), mono(Type::arrow(Type::int_type(), Type::char())));

        // String operations
        self.insert(key("stringLength"), mono(Type::arrow(Type::string(), Type::int_type())));
        let pair = tuple2(Type::string(), Type::int_type());
        self.insert(key("charAt"), mono(Type::arrow(pair, Type::char())));
        let triple = tuple3(Type::string(), Type::int_type(), Type::int_type());
        self.insert(key("substring"), mono(Type::arrow(triple, Type::string())));

        // List operations
        let a = TypeVar::fresh(supply);
        self.insert(key("listLength"), poly(a, Type::arrow(Type::list(var(a)), Type::int_type())));

        // Print without newline
        let a = TypeVar::fresh(supply);
        self.insert(key("printNoNewline"), poly(a, Type::arrow(var(a), io_unit())));

        // Assertions
        self.insert(key("assert"), mono(Type::arrow(Type::bool(), io_unit())));
        let a = TypeVar::fresh(supply);
        self.insert(key("panic"), poly(a, Type::arrow(Type::string(), var(a))));
        proof {
            reveal_with_fuel(id_after, 4);
        }
    }

    /// Add built-in types, data constructors and functions, their type variables
    /// drawn from `supply`.
    pub(crate) fn add_builtins(&mut self, supply: &mut TypeVarSupply)
        requires
            old(self).arities() == Map::<Seq<char>, usize>::empty(),
            old(self).ctors() == Map::<Seq<char>, SchemeV>::empty(),
            old(self).vars() == Map::<Seq<char>, SchemeV>::empty(),
        ensures
            final(self).arities() == builtin_arities(),
            final(self).ctors() == builtin_ctors(old(supply).next_id()),
            final(self).vars() == builtin_bindings(old(supply).next_id()),
            final(self).classes() == old(self).classes(),
            final(self).insts() == old(self).insts(),
            final(supply).next_id() == builtin_supply_after(old(supply).next_id()),
    {
        let ghost n = supply.next_id();
        self.add_builtin_types();
        self.add_builtin_constructors(supply);
        self.add_builtin_operators(supply);
        self.add_builtin_io(supply);
        self.add_builtin_misc(supply);
        proof {
            reveal_with_fuel(id_after, 16);
            assert(id_after(id_after(n, 8), 3) == id_after(n, 11));
            assert(next_after(id_after(n, 11)) == id_after(n, 12));
            assert(id_after(id_after(n, 12), 3) == id_after(n, 15));
        }
    }

    /// Register the instance of `class` for `ty`, whose one method `method` is
    /// implemented by the function `implementation`.
    fn add_instance(&mut self, class: &str, ty: Type, method: &str, implementation: &str)
        ensures
            final(self).insts() == old(self).insts().push((class@, ty@, seq![(method@, implementation@)])),
            final(self).vars() == old(self).vars(),
            final(self).arities() == old(self).arities(),
            final(self).ctors() == old(self).ctors(),
            final(self).classes() == old(self).classes(),
    {
        let methods = vec![(key(method), key(implementation))];
        proof { assert(name_pairs(methods@) =~= seq![(method@, implementation@)]); }
        self.insert_instance(ClassInstance { class_name: key(class), for_type: ty, methods });
    }

    /// Add the standard classes `Show` and `Eq`, with their instances for the
    /// primitive types, their type variables drawn from `supply`.
    pub(crate) fn add_standard_classes(&mut self, supply: &mut TypeVarSupply)
        ensures
            final(self).classes() == standard_classes(old(self).classes(), old(supply).next_id()),
            final(self).insts() == old(self).insts() + standard_instances(),
            final(supply).next_id() == id_after(old(supply).next_id(), 2),
            final(self).vars() == old(self).vars(),
            final(self).arities() == old(self).arities(),
            final(self).ctors() == old(self).ctors(),
    {
        let ghost n = supply.next_id();
        let a = TypeVar::fresh(supply);
        let show_ty = Type::arrow(var(a), Type::string());
        let show_methods = vec![(key("show"), poly(a, show_ty))];
        let show = TypeClass { name: key("Show"), methods: show_methods };
        assert(show@.1 =~= seq![("show"@, poly_v(a.0, arrow_v(var_v(a.0), con0("string"@))))]);
        self.insert_class(show);

        let b = TypeVar::fresh(supply);
        let eq_ty = Type::arrow(var(b), Type::arrow(var(b), Type::bool()));
        let eq_methods = vec![(key("eq"), poly(b, eq_ty))];
        let eq = TypeClass { name: key("Eq"), methods: eq_methods };
        assert(eq@.1 =~= seq![("eq"@, poly_v(b.0, arrow_v(var_v(b.0), arrow_v(var_v(b.0), con0("bool"@)))))]);
        self.insert_class(eq);

        let ghost before = self.insts();
        // Show instances, each method implemented by a built-in conversion
        self.add_instance("Show", Type::int_type(), "show", "intToString");
        self.add_instance("Show", Type::float(), "show", "floatToString");
        self.add_instance("Show", Type::bool(), "show", "__bool_to_string");
        self.add_instance("Show", Type::string(), "show", "__string_identity");
        self.add_instance("Show", Type::char(), "show", "charToString");
        // Eq instances, implemented by the built-in equality
        self.add_instance("Eq", Type::int_type(), "eq", "__eq");
        self.add_instance("Eq", Type::float(), "eq", "__eq");
        self.add_instance("Eq", Type::bool(), "eq", "__eq");
        self.add_instance("Eq", Type::string(), "eq", "__eq");
        self.add_instance("Eq", Type::char(), "eq", "__eq");
        assert(self.insts() =~= before + standard_instances());
        proof {
            reveal_with_fuel(id_after, 3);
        }
    }
}

} // verus!
