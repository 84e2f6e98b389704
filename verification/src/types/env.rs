//! Type environment for the Neap type system
//!
//! The type environment maps identifiers to their type schemes and
//! manages scoping during type inference.

use vstd::prelude::*;
use super::model::{TypeV, dapply, fv};
use super::repr::{
    Type, TypeScheme, TypeVar, distinct_vars, has_var, add_var, lemma_tview_fields, lemma_tview_seq,
    lemma_view_unfold, scheme_fv_v, tview_fields, tview_seq, var_ids,
};
use super::subst::Substitution;
use super::table::{Duplicate, NameTable, distinct_names};
use super::model::acyclic;
use super::repr::TypeVarSupply;
use super::builtins::{builtin_arities, builtin_bindings, builtin_ctors, builtin_supply_after};

verus! {

/// A scheme seen as its quantified variables and its body.
pub type SchemeV = (Seq<TypeVar>, TypeV);

/// A type class: its name and the type schemes of its methods.
pub struct TypeClass {
    /// The class name
    pub name: String,
    /// The methods, each with its type scheme
    pub methods: Vec<(String, TypeScheme)>,
}

/// A class seen as its name and its methods' names and schemes.
pub open spec fn named_schemes(m: Seq<(String, TypeScheme)>) -> Seq<(Seq<char>, SchemeV)> {
    m.map_values(|e: (String, TypeScheme)| (e.0@, e.1@))
}

impl View for TypeClass {
    type V = (Seq<char>, Seq<(Seq<char>, SchemeV)>);

    open spec fn view(&self) -> (Seq<char>, Seq<(Seq<char>, SchemeV)>) {
        (self.name@, named_schemes(self.methods@))
    }
}

/// An instance of a type class for a type.
pub struct ClassInstance {
    /// The class being instantiated
    pub class_name: String,
    /// The type the instance is for
    pub for_type: Type,
    /// Each method of the class with the name of the function that implements it
    pub methods: Vec<(String, String)>,
}

/// An instance seen as its class, its type, and each method's name with the name of the
/// function that implements it.
pub type InstV = (Seq<char>, TypeV, Seq<(Seq<char>, Seq<char>)>);

/// A list of pairs of names, as values.
pub open spec fn name_pairs(v: Seq<(String, String)>) -> Seq<(Seq<char>, Seq<char>)> {
    v.map_values(|p: (String, String)| (p.0@, p.1@))
}

impl View for ClassInstance {
    type V = InstV;

    open spec fn view(&self) -> InstV {
        (self.class_name@, self.for_type@, name_pairs(self.methods@))
    }
}

impl Duplicate for TypeScheme {
    fn duplicate(&self) -> (r: Self) {
        self.clone()
    }
}

impl Duplicate for TypeClass {
    fn duplicate(&self) -> (r: Self) {
        let mut methods: Vec<(String, TypeScheme)> = Vec::new();
        let mut i: usize = 0;
        while i < self.methods.len()
            invariant
                i <= self.methods@.len(),
                named_schemes(methods@) =~= named_schemes(self.methods@).take(i as int),
            decreases self.methods.len() - i,
        {
            let ghost prev = methods@;
            let n = self.methods[i].0.clone();
            let s = self.methods[i].1.clone();
            methods.push((n, s));
            proof {
                assert(methods@ =~= prev.push((n, s)));
                assert(named_schemes(methods@) =~= named_schemes(prev).push((n@, s@)));
                assert(named_schemes(self.methods@).take(i + 1) =~= named_schemes(self.methods@).take(i as int).push(
                    named_schemes(self.methods@)[i as int],
                ));
            }
            i += 1;
        }
        proof {
            assert(named_schemes(self.methods@).take(i as int) =~= named_schemes(self.methods@));
        }
        TypeClass { name: self.name.clone(), methods }
    }
}

impl Duplicate for ClassInstance {
    fn duplicate(&self) -> (r: Self) {
        let methods = copy_name_pairs(&self.methods);
        proof { assert(name_pairs(methods@) =~= name_pairs(self.methods@)); }
        ClassInstance {
            class_name: self.class_name.clone(),
            for_type: self.for_type.clone(),
            methods,
        }
    }
}

/// A copy of a list of pairs of names.
fn copy_name_pairs(v: &Vec<(String, String)>) -> (r: Vec<(String, String)>)
    ensures
        r@.len() == v@.len(),
        forall|i: int| 0 <= i < v@.len() ==> #[trigger] r@[i].0@ == v@[i].0@ && r@[i].1@ == v@[i].1@,
{
    let mut r: Vec<(String, String)> = Vec::new();
    let mut i: usize = 0;
    while i < v.len()
        invariant
            i <= v@.len(),
            r@.len() == i,
            forall|j: int| 0 <= j < i ==> #[trigger] r@[j].0@ == v@[j].0@ && r@[j].1@ == v@[j].1@,
        decreases v.len() - i,
    {
        r.push((v[i].0.clone(), v[i].1.clone()));
        i += 1;
    }
    r
}

/// Whether an instance's type covers a queried type: constructors must agree
/// argument by argument, a variable of the instance covers any type, and any
/// other pair must be the same type.
pub open spec fn types_match(inst: TypeV, query: TypeV) -> bool
    decreases inst,
{
    match inst {
        TypeV::Var(_) => true,
        TypeV::Con(n1, a1) => match query {
            TypeV::Con(n2, a2) => n1 == n2 && a1.len() == a2.len() && args_match(a1, a2),
            _ => inst == query,
        },
        _ => inst == query,
    }
}

/// Each instance argument covers the queried argument at the same place.
pub open spec fn args_match(a1: Seq<TypeV>, a2: Seq<TypeV>) -> bool
    decreases a1,
{
    if a1.len() == 0 || a2.len() == 0 {
        true
    } else {
        args_match(a1.drop_last(), a2.drop_last()) && types_match(a1.last(), a2.last())
    }
}

pub proof fn lemma_args_match(a1: Seq<TypeV>, a2: Seq<TypeV>)
    requires
        a1.len() == a2.len(),
    ensures
        args_match(a1, a2) <==> forall|i: int| 0 <= i < a1.len() ==> #[trigger] types_match(a1[i], a2[i]),
    decreases a1.len(),
{
    if a1.len() > 0 {
        let d1 = a1.drop_last();
        let d2 = a2.drop_last();
        lemma_args_match(d1, d2);
        if args_match(a1, a2) {
            assert forall|i: int| 0 <= i < a1.len() implies #[trigger] types_match(a1[i], a2[i]) by {
                if i < a1.len() - 1 {
                    assert(d1[i] == a1[i] && d2[i] == a2[i]);
                }
            }
        }
        if forall|i: int| 0 <= i < a1.len() ==> #[trigger] types_match(a1[i], a2[i]) {
            assert forall|i: int| 0 <= i < d1.len() implies #[trigger] types_match(d1[i], d2[i]) by {
                assert(d1[i] == a1[i] && d2[i] == a2[i]);
                assert(types_match(a1[i], a2[i]));
            }
            assert(types_match(a1[a1.len() - 1], a2[a1.len() - 1]));
        }
    }
}

/// The first method of that name in a list of methods.
pub open spec fn find_named<A>(s: Seq<(Seq<char>, A)>, name: Seq<char>) -> Option<A>
    decreases s.len(),
{
    if s.len() == 0 {
        None
    } else if s[0].0 == name {
        Some(s[0].1)
    } else {
        find_named(s.drop_first(), name)
    }
}

/// The instances of a class, in the order they were registered.
pub open spec fn instances_of(s: Seq<InstV>, class_name: Seq<char>) -> Seq<InstV>
    decreases s.len(),
{
    if s.len() == 0 {
        Seq::empty()
    } else {
        let rest = instances_of(s.drop_last(), class_name);
        if s.last().0 == class_name { rest.push(s.last()) } else { rest }
    }
}

/// The free variables of the schemes bound in an environment.
pub open spec fn env_fv(m: Map<Seq<char>, SchemeV>) -> Set<u64> {
    Set::new(|x: u64| exists|k: Seq<char>| m.dom().contains(k) && #[trigger] scheme_fv_v(m[k]).contains(x))
}

/// A scheme after a substitution has been applied to its free variables.
pub open spec fn subst_scheme(s: Map<u64, TypeV>, sc: SchemeV) -> SchemeV {
    (sc.0, dapply(s.remove_keys(var_ids(sc.0)), sc.1))
}

/// The bindings after each of a list of bindings has been added in turn.
pub open spec fn extend_map(m: Map<Seq<char>, SchemeV>, s: Seq<(Seq<char>, SchemeV)>) -> Map<Seq<char>, SchemeV>
    decreases s.len(),
{
    if s.len() == 0 {
        m
    } else {
        extend_map(m, s.drop_last()).insert(s.last().0, s.last().1)
    }
}

/// Every variable of the scheme, quantified or free, is at most `b`.
pub open spec fn scheme_vars_below(sc: SchemeV, b: u64) -> bool {
    &&& forall|i: int| 0 <= i < sc.0.len() ==> (#[trigger] sc.0[i]).0 <= b
    &&& forall|v: u64| #[trigger] fv(sc.1).contains(v) ==> v <= b
}

/// A type environment mapping identifiers to type schemes.
pub struct TypeEnv {
    /// Variable bindings (name -> type scheme)
    bindings: NameTable<TypeScheme>,
    /// Type constructor arities (name -> number of type parameters)
    type_arities: NameTable<usize>,
    /// Data constructor types (constructor name -> type scheme)
    constructors: NameTable<TypeScheme>,
    /// Type class definitions (class name -> definition)
    type_classes: NameTable<TypeClass>,
    /// Type class instances
    instances: Vec<ClassInstance>,
}

impl TypeEnv {
    #[verifier::type_invariant]
    closed spec fn inv(&self) -> bool {
        &&& self.bindings.wf()
        &&& self.type_arities.wf()
        &&& self.constructors.wf()
        &&& self.type_classes.wf()
    }

    /// The variable bindings.
    pub closed spec fn vars(&self) -> Map<Seq<char>, SchemeV> {
        self.bindings@
    }

    /// The arities of the type constructors.
    pub closed spec fn arities(&self) -> Map<Seq<char>, usize> {
        self.type_arities@
    }

    /// The schemes of the data constructors.
    pub closed spec fn ctors(&self) -> Map<Seq<char>, SchemeV> {
        self.constructors@
    }

    /// The type classes, by name.
    pub closed spec fn classes(&self) -> Map<Seq<char>, (Seq<char>, Seq<(Seq<char>, SchemeV)>)> {
        self.type_classes@
    }

    /// The class instances, in the order they were registered.
    pub closed spec fn insts(&self) -> Seq<InstV> {
        self.instances@.map_values(|i: ClassInstance| i@)
    }

    /// Create a new empty type environment.
    pub fn new() -> (env: Self)
        ensures
            env.vars() == Map::<Seq<char>, SchemeV>::empty(),
            env.arities() == Map::<Seq<char>, usize>::empty(),
            env.ctors() == Map::<Seq<char>, SchemeV>::empty(),
            env.classes() == Map::<Seq<char>, (Seq<char>, Seq<(Seq<char>, SchemeV)>)>::empty(),
            env.insts() == Seq::<InstV>::empty(),
    {
        let env = TypeEnv {
            bindings: NameTable::new(),
            type_arities: NameTable::new(),
            constructors: NameTable::new(),
            type_classes: NameTable::new(),
            instances: Vec::new(),
        };
        assert(env.insts() =~= Seq::<InstV>::empty());
        env
    }

    // ========== Variable Bindings ==========

    /// Look up a variable's type scheme.
    pub fn lookup(&self, name: &str) -> (r: Option<&TypeScheme>)
        ensures
            match r {
                Some(s) => self.vars().dom().contains(name@) && s@ == self.vars()[name@],
                None => !self.vars().dom().contains(name@),
            },
    {
        proof { use_type_invariant(self); }
        self.bindings.get(name)
    }

    /// Insert a variable binding.
    pub fn insert(&mut self, name: String, scheme: TypeScheme)
        ensures
            final(self).vars() == old(self).vars().insert(name@, scheme@),
            final(self).arities() == old(self).arities(),
            final(self).ctors() == old(self).ctors(),
            final(self).classes() == old(self).classes(),
            final(self).insts() == old(self).insts(),
    {
        proof { use_type_invariant(&*self); }
        let mut t: NameTable<TypeScheme> = NameTable::new();
        std::mem::swap(&mut t, &mut self.bindings);
        t.insert(name, scheme);
        self.bindings = t;
    }

    /// Remove a variable binding.
    pub fn remove(&mut self, name: &str) -> (r: Option<TypeScheme>)
        ensures
            final(self).vars() == old(self).vars().remove(name@),
            match r {
                Some(s) => old(self).vars().dom().contains(name@) && s@ == old(self).vars()[name@],
                None => !old(self).vars().dom().contains(name@),
            },
            final(self).arities() == old(self).arities(),
            final(self).ctors() == old(self).ctors(),
            final(self).classes() == old(self).classes(),
            final(self).insts() == old(self).insts(),
    {
        proof { use_type_invariant(&*self); }
        let mut t: NameTable<TypeScheme> = NameTable::new();
        std::mem::swap(&mut t, &mut self.bindings);
        let r = t.remove(name);
        self.bindings = t;
        r
    }

    /// Check if a variable is bound.
    pub fn contains(&self, name: &str) -> (b: bool)
        ensures
            b == self.vars().dom().contains(name@),
    {
        proof { use_type_invariant(self); }
        self.bindings.contains_key(name)
    }

    // ========== Type Constructors ==========

    /// Look up the arity of a type constructor.
    pub fn type_arity(&self, name: &str) -> (r: Option<usize>)
        ensures
            match r {
                Some(n) => self.arities().dom().contains(name@) && n == self.arities()[name@],
                None => !self.arities().dom().contains(name@),
            },
    {
        proof { use_type_invariant(self); }
        match self.type_arities.get(name) {
            Some(n) => Some(*n),
            None => None,
        }
    }

    /// Register a new type constructor.
    pub fn insert_type(&mut self, name: String, arity: usize)
        ensures
            final(self).arities() == old(self).arities().insert(name@, arity),
            final(self).vars() == old(self).vars(),
            final(self).ctors() == old(self).ctors(),
            final(self).classes() == old(self).classes(),
            final(self).insts() == old(self).insts(),
    {
        proof { use_type_invariant(&*self); }
        let mut t: NameTable<usize> = NameTable::new();
        std::mem::swap(&mut t, &mut self.type_arities);
        t.insert(name, arity);
        self.type_arities = t;
    }

    // ========== Data Constructors ==========

    /// Look up a data constructor's type scheme.
    pub fn lookup_constructor(&self, name: &str) -> (r: Option<&TypeScheme>)
        ensures
            match r {
                Some(s) => self.ctors().dom().contains(name@) && s@ == self.ctors()[name@],
                None => !self.ctors().dom().contains(name@),
            },
    {
        proof { use_type_invariant(self); }
        self.constructors.get(name)
    }

    /// Insert a data constructor.
    pub fn insert_constructor(&mut self, name: String, scheme: TypeScheme)
        ensures
            final(self).ctors() == old(self).ctors().insert(name@, scheme@),
            final(self).vars() == old(self).vars(),
            final(self).arities() == old(self).arities(),
            final(self).classes() == old(self).classes(),
            final(self).insts() == old(self).insts(),
    {
        proof { use_type_invariant(&*self); }
        let mut t: NameTable<TypeScheme> = NameTable::new();
        std::mem::swap(&mut t, &mut self.constructors);
        t.insert(name, scheme);
        self.constructors = t;
    }

    // ========== Type Class Operations ==========

    /// Register a type class.
    pub fn insert_class(&mut self, class: TypeClass)
        ensures
            final(self).classes() == old(self).classes().insert(class.name@, class@),
            final(self).vars() == old(self).vars(),
            final(self).arities() == old(self).arities(),
            final(self).ctors() == old(self).ctors(),
            final(self).insts() == old(self).insts(),
    {
        proof { use_type_invariant(&*self); }
        let name = class.name.clone();
        let mut t: NameTable<TypeClass> = NameTable::new();
        std::mem::swap(&mut t, &mut self.type_classes);
        t.insert(name, class);
        self.type_classes = t;
    }

    /// Look up a type class by name.
    pub fn lookup_class(&self, name: &str) -> (r: Option<&TypeClass>)
        ensures
            match r {
                Some(c) => self.classes().dom().contains(name@) && c@ == self.classes()[name@],
                None => !self.classes().dom().contains(name@),
            },
    {
        proof { use_type_invariant(self); }
        self.type_classes.get(name)
    }

    /// Check if a type class exists.
    pub fn has_class(&self, name: &str) -> (b: bool)
        ensures
            b == self.classes().dom().contains(name@),
    {
        proof { use_type_invariant(self); }
        self.type_classes.contains_key(name)
    }

    /// Register a class instance.
    pub fn insert_instance(&mut self, instance: ClassInstance)
        ensures
            final(self).insts() == old(self).insts().push(instance@),
            final(self).vars() == old(self).vars(),
            final(self).arities() == old(self).arities(),
            final(self).ctors() == old(self).ctors(),
            final(self).classes() == old(self).classes(),
    {
        proof { use_type_invariant(&*self); }
        let mut v: Vec<ClassInstance> = Vec::new();
        std::mem::swap(&mut v, &mut self.instances);
        let ghost before = v@;
        v.push(instance);
        self.instances = v;
        proof {
            assert(self.instances@ =~= before.push(instance));
            assert(self.insts() =~= before.map_values(|i: ClassInstance| i@).push(instance@));
        }
    }
}


/// Structural equality of two types.
fn same_type(a: &Type, b: &Type) -> (r: bool)
    ensures
        r == (a@ == b@),
    decreases a@,
{
    proof {
        lemma_view_unfold(*a);
        lemma_view_unfold(*b);
    }
    match (a, b) {
        (Type::Var(x), Type::Var(y)) => x.0 == y.0,
        (Type::Con(n1, a1), Type::Con(n2, a2)) => {
            assert(decreases_to!(a@ => a@->Con_1));
            if !(*n1 == *n2) {
                return false;
            }
            same_types(a1, a2)
        },
        (Type::Arrow(x1, y1), Type::Arrow(x2, y2)) => {
            assert(decreases_to!(a@ => a@->Arrow_0));
            assert(decreases_to!(a@ => a@->Arrow_1));
            same_type(x1, x2) && same_type(y1, y2)
        },
        (Type::Tuple(e1), Type::Tuple(e2)) => {
            assert(decreases_to!(a@ => a@->Tuple_0));
            same_types(e1, e2)
        },
        (Type::Record(f1), Type::Record(f2)) => {
            assert(decreases_to!(a@ => a@->Record_0));
            same_fields(f1, f2)
        },
        _ => false,
    }
}

fn same_types(a: &Vec<Type>, b: &Vec<Type>) -> (r: bool)
    ensures
        r == (tview_seq(a@) == tview_seq(b@)),
    decreases tview_seq(a@),
{
    proof {
        lemma_tview_seq(a@);
        lemma_tview_seq(b@);
    }
    if a.len() != b.len() {
        return false;
    }
    let mut i: usize = 0;
    while i < a.len()
        invariant
            i <= a@.len(),
            a@.len() == b@.len(),
            tview_seq(a@).len() == a@.len(),
            tview_seq(b@).len() == b@.len(),
            forall|j: int| 0 <= j < a@.len() ==> #[trigger] tview_seq(a@)[j] == a@[j]@,
            forall|j: int| 0 <= j < b@.len() ==> #[trigger] tview_seq(b@)[j] == b@[j]@,
            forall|j: int| 0 <= j < i ==> tview_seq(a@)[j] == tview_seq(b@)[j],
        decreases a.len() - i,
    {
        assert(decreases_to!(tview_seq(a@) => tview_seq(a@)[i as int]));
        if !same_type(&a[i], &b[i]) {
            assert(tview_seq(a@)[i as int] != tview_seq(b@)[i as int]);
            return false;
        }
        i += 1;
    }
    assert(tview_seq(a@) =~= tview_seq(b@));
    true
}

fn same_fields(a: &Vec<(String, Type)>, b: &Vec<(String, Type)>) -> (r: bool)
    ensures
        r == (tview_fields(a@) == tview_fields(b@)),
    decreases tview_fields(a@),
{
    proof {
        lemma_tview_fields(a@);
        lemma_tview_fields(b@);
    }
    if a.len() != b.len() {
        return false;
    }
    let mut i: usize = 0;
    while i < a.len()
        invariant
            i <= a@.len(),
            a@.len() == b@.len(),
            tview_fields(a@).len() == a@.len(),
            tview_fields(b@).len() == b@.len(),
            forall|j: int| 0 <= j < a@.len() ==> #[trigger] tview_fields(a@)[j] == (a@[j].0@, a@[j].1@),
            forall|j: int| 0 <= j < b@.len() ==> #[trigger] tview_fields(b@)[j] == (b@[j].0@, b@[j].1@),
            forall|j: int| 0 <= j < i ==> tview_fields(a@)[j] == tview_fields(b@)[j],
        decreases a.len() - i,
    {
        assert(decreases_to!(tview_fields(a@) => tview_fields(a@)[i as int]));
        assert(decreases_to!(tview_fields(a@)[i as int] => tview_fields(a@)[i as int].1));
        if !(a[i].0 == b[i].0) || !same_type(&a[i].1, &b[i].1) {
            assert(tview_fields(a@)[i as int] != tview_fields(b@)[i as int]);
            return false;
        }
        i += 1;
    }
    assert(tview_fields(a@) =~= tview_fields(b@));
    true
}

impl TypeEnv {
    /// Check if an instance's type covers a queried type.
    ///
    /// Constructors are compared argument by argument; a type variable of the
    /// instance covers any type; other types must be equal.
    fn types_match(&self, instance_ty: &Type, query_ty: &Type) -> (b: bool)
        ensures
            b == types_match(instance_ty@, query_ty@),
        decreases instance_ty@,
    {
        proof {
            lemma_view_unfold(*instance_ty);
            lemma_view_unfold(*query_ty);
        }
        match (instance_ty, query_ty) {
            (Type::Con(name1, args1), Type::Con(name2, args2)) => {
                assert(decreases_to!(instance_ty@ => instance_ty@->Con_1));
                proof {
                    lemma_tview_seq(args1@);
                    lemma_tview_seq(args2@);
                }
                if !(*name1 == *name2) || args1.len() != args2.len() {
                    assert(!types_match(instance_ty@, query_ty@));
                    return false;
                }
                let b = self.args_match(args1, args2);
                proof {
                    lemma_args_match(tview_seq(args1@), tview_seq(args2@));
                }
                b
            },
            (Type::Var(_), _) => {
                assert(types_match(instance_ty@, query_ty@));
                true
            },
            _ => {
                proof {
                    if instance_ty@ is Con {
                        assert(!(query_ty@ is Con));
                    }
                }
                same_type(instance_ty, query_ty)
            },
        }
    }

    fn args_match(&self, args1: &Vec<Type>, args2: &Vec<Type>) -> (b: bool)
        requires
            args1@.len() == args2@.len(),
        ensures
            b == forall|i: int| 0 <= i < args1@.len() ==> #[trigger] types_match(tview_seq(args1@)[i], tview_seq(args2@)[i]),
        decreases tview_seq(args1@),
    {
        proof {
            lemma_tview_seq(args1@);
            lemma_tview_seq(args2@);
        }
        let mut i: usize = 0;
        while i < args1.len()
            invariant
                i <= args1@.len(),
                args1@.len() == args2@.len(),
                tview_seq(args1@).len() == args1@.len(),
                tview_seq(args2@).len() == args2@.len(),
                forall|j: int| 0 <= j < args1@.len() ==> #[trigger] tview_seq(args1@)[j] == args1@[j]@,
                forall|j: int| 0 <= j < args2@.len() ==> #[trigger] tview_seq(args2@)[j] == args2@[j]@,
                forall|j: int| 0 <= j < i ==> #[trigger] types_match(tview_seq(args1@)[j], tview_seq(args2@)[j]),
            decreases args1.len() - i,
        {
            assert(decreases_to!(tview_seq(args1@) => tview_seq(args1@)[i as int]));
            if !self.types_match(&args1[i], &args2[i]) {
                assert(!types_match(tview_seq(args1@)[i as int], tview_seq(args2@)[i as int]));
                return false;
            }
            i += 1;
        }
        true
    }

    /// Find an instance of a type class for a specific type.
    ///
    /// Returns the first registered instance of the class whose type covers `ty`,
    /// or `None` if no instance matches.
    pub fn find_instance(&self, class_name: &str, ty: &Type) -> (r: Option<&ClassInstance>)
        ensures
            match r {
                Some(inst) => exists|i: int| 0 <= i < self.insts().len() && self.insts()[i] == inst@
                    && inst@.0 == class_name@ && types_match(inst@.1, ty@)
                    && forall|j: int| 0 <= j < i ==> !(#[trigger] self.insts()[j].0 == class_name@ && types_match(self.insts()[j].1, ty@)),
                None => forall|j: int| 0 <= j < self.insts().len() ==> !(#[trigger] self.insts()[j].0 == class_name@ && types_match(self.insts()[j].1, ty@)),
            },
    {
        let name = class_name.to_owned();
        let mut i: usize = 0;
        while i < self.instances.len()
            invariant
                i <= self.instances@.len(),
                name@ == class_name@,
                self.insts().len() == self.instances@.len(),
                forall|j: int| 0 <= j < self.instances@.len() ==> #[trigger] self.insts()[j] == self.instances@[j]@,
                forall|j: int| 0 <= j < i ==> !(#[trigger] self.insts()[j].0 == class_name@ && types_match(self.insts()[j].1, ty@)),
            decreases self.instances.len() - i,
        {
            let inst = &self.instances[i];
            if inst.class_name == name && self.types_match(&inst.for_type, ty) {
                assert(self.insts()[i as int] == inst@);
                return Some(inst);
            }
            i += 1;
        }
        None
    }

    /// Get all instances for a given type class, in the order they were registered.
    pub fn instances_for_class(&self, class_name: &str) -> (r: Vec<&ClassInstance>)
        ensures
            r@.map_values(|i: &ClassInstance| i@) == instances_of(self.insts(), class_name@),
    {
        let name = class_name.to_owned();
        let mut r: Vec<&ClassInstance> = Vec::new();
        let mut i: usize = 0;
        while i < self.instances.len()
            invariant
                i <= self.instances@.len(),
                name@ == class_name@,
                self.insts().len() == self.instances@.len(),
                forall|j: int| 0 <= j < self.instances@.len() ==> #[trigger] self.insts()[j] == self.instances@[j]@,
                r@.map_values(|i: &ClassInstance| i@) == instances_of(self.insts().take(i as int), class_name@),
            decreases self.instances.len() - i,
        {
            let inst = &self.instances[i];
            let ghost prev = r@;
            proof {
                assert(self.insts().take(i + 1).drop_last() =~= self.insts().take(i as int));
            }
            if inst.class_name == name {
                r.push(inst);
                proof {
                    assert(r@ =~= prev.push(inst));
                    assert(r@.map_values(|i: &ClassInstance| i@) =~= prev.map_values(|i: &ClassInstance| i@).push(inst@));
                }
            }
            i += 1;
        }
        proof {
            assert(self.insts().take(i as int) =~= self.insts());
        }
        r
    }

    /// The first class (in the order the classes were added) with a method of the name,
    /// and that method's scheme.
    pub fn find_method_class(&self, method_name: &str) -> (r: Option<(String, TypeScheme)>)
        ensures
            match r {
                Some((c, s)) => self.classes().dom().contains(c@)
                    && find_named(self.classes()[c@].1, method_name@) == Some(s@),
                None => forall|c: Seq<char>| #[trigger] self.classes().dom().contains(c)
                    ==> find_named(self.classes()[c].1, method_name@) is None,
            },
    {
        proof {
            use_type_invariant(self);
            self.type_classes.lemma_entries();
        }
        let n = self.type_classes.len();
        let mut i: usize = 0;
        while i < n
            invariant
                self.type_classes.wf(),
                n == self.type_classes.entries().len(),
                i <= n,
                forall|j: int| 0 <= j < i ==> find_named(self.classes()[#[trigger] self.type_classes.entries()[j].0].1, method_name@) is None,
                forall|k: Seq<char>| self.classes().dom().contains(k) <==> exists|j: int| 0 <= j < self.type_classes.entries().len() && #[trigger] self.type_classes.entries()[j].0 == k,
            decreases n - i,
        {
            let name = self.type_classes.key_at(i);
            assert(self.classes().dom().contains(name@));
            match self.lookup_method(name.as_str(), method_name) {
                Some(scheme) => {
                    return Some((name.clone(), scheme.clone()));
                },
                None => {},
            }
            i += 1;
        }
        proof {
            assert forall|c: Seq<char>| #[trigger] self.classes().dom().contains(c)
                implies find_named(self.classes()[c].1, method_name@) is None by {
                let j = choose|j: int| 0 <= j < self.type_classes.entries().len() && #[trigger] self.type_classes.entries()[j].0 == c;
                assert(find_named(self.classes()[self.type_classes.entries()[j].0].1, method_name@) is None);
            }
        }
        None
    }

    /// Look up a method in a type class: the first method of that name.
    pub fn lookup_method(&self, class_name: &str, method_name: &str) -> (r: Option<&TypeScheme>)
        ensures
            match r {
                Some(s) => self.classes().dom().contains(class_name@)
                    && find_named(self.classes()[class_name@].1, method_name@) == Some(s@),
                None => !self.classes().dom().contains(class_name@)
                    || find_named(self.classes()[class_name@].1, method_name@) is None,
            },
    {
        proof { use_type_invariant(self); }
        match self.type_classes.get(class_name) {
            None => None,
            Some(class) => {
                let name = method_name.to_owned();
                let ghost ms = named_schemes(class.methods@);
                proof {
                    assert(ms.subrange(0, ms.len() as int) =~= ms);
                }
                let mut i: usize = 0;
                while i < class.methods.len()
                    invariant
                        i <= class.methods@.len(),
                        name@ == method_name@,
                        ms == named_schemes(class.methods@),
                        ms.len() == class.methods@.len(),
                        self.classes().dom().contains(class_name@),
                        ms == self.classes()[class_name@].1,
                        find_named(ms, method_name@) == find_named(ms.subrange(i as int, ms.len() as int), method_name@),
                    decreases class.methods.len() - i,
                {
                    let ghost rest = ms.subrange(i as int, ms.len() as int);
                    proof {
                        assert(rest[0] == ms[i as int]);
                        assert(rest.drop_first() =~= ms.subrange(i + 1, ms.len() as int));
                    }
                    if class.methods[i].0 == name {
                        assert(ms[i as int] == (class.methods@[i as int].0@, class.methods@[i as int].1@));
                        assert(find_named(rest, method_name@) == Some(rest[0].1));
                        return Some(&class.methods[i].1);
                    }
                    i += 1;
                }
                proof {
                    assert(ms.subrange(i as int, ms.len() as int).len() == 0);
                }
                None
            },
        }
    }
}


/// Add each variable of `vs` to `acc`, keeping each variable once.
fn add_all(acc: &mut Vec<TypeVar>, vs: &Vec<TypeVar>)
    requires
        distinct_vars(old(acc)@),
    ensures
        distinct_vars(final(acc)@),
        var_ids(final(acc)@) == var_ids(old(acc)@).union(var_ids(vs@)),
{
    let ghost start = acc@;
    let mut i: usize = 0;
    while i < vs.len()
        invariant
            i <= vs@.len(),
            distinct_vars(acc@),
            var_ids(acc@) == var_ids(start).union(var_ids(vs@.take(i as int))),
        decreases vs.len() - i,
    {
        add_var(acc, vs[i]);
        proof {
            assert(vs@.take(i + 1) =~= vs@.take(i as int).push(vs@[i as int]));
            super::repr::lemma_var_ids_push(vs@.take(i as int), vs@[i as int]);
            assert(var_ids(acc@) =~= var_ids(start).union(var_ids(vs@.take(i + 1))));
        }
        i += 1;
    }
    assert(vs@.take(i as int) =~= vs@);
}

/// The free variables of the first `n` schemes of a list of entries.
pub open spec fn entries_fv(s: Seq<(Seq<char>, SchemeV)>, n: int) -> Set<u64> {
    Set::new(|x: u64| exists|j: int| 0 <= j < n && #[trigger] scheme_fv_v(s[j].1).contains(x))
}

impl TypeEnv {
    // ========== Type Scheme Operations ==========

    /// The largest variable number that occurs in a binding's scheme (0 if none does).
    pub fn max_binding_var(&self) -> (m: u64)
        ensures
            forall|n: Seq<char>| #[trigger] self.vars().dom().contains(n) ==> scheme_vars_below(self.vars()[n], m),
    {
        proof {
            use_type_invariant(self);
            self.bindings.lemma_entries();
        }
        let mut m: u64 = 0;
        let mut i: usize = 0;
        while i < self.bindings.len()
            invariant
                self.bindings.wf(),
                i <= self.bindings.entries().len(),
                forall|j: int| 0 <= j < i ==> scheme_vars_below(#[trigger] self.bindings.entries()[j].1, m),
            decreases self.bindings.entries().len() - i,
        {
            let sc = self.bindings.value_at(i);
            let mut k: usize = 0;
            let ghost m0 = m;
            while k < sc.vars.len()
                invariant
                    k <= sc.vars@.len(),
                    m0 <= m,
                    forall|a: int| 0 <= a < k ==> sc.vars@[a].0 <= m,
                decreases sc.vars.len() - k,
            {
                if sc.vars[k].0 > m {
                    m = sc.vars[k].0;
                }
                k += 1;
            }
            let free = sc.ty.free_vars();
            let mut f: usize = 0;
            while f < free.len()
                invariant
                    f <= free@.len(),
                    m0 <= m,
                    forall|a: int| 0 <= a < sc.vars@.len() ==> sc.vars@[a].0 <= m,
                    forall|a: int| 0 <= a < f ==> free@[a].0 <= m,
                decreases free.len() - f,
            {
                if free[f].0 > m {
                    m = free[f].0;
                }
                f += 1;
            }
            proof {
                assert forall|v: u64| #[trigger] fv(sc.ty@).contains(v) implies v <= m by {
                    assert(var_ids(free@).contains(v));
                    let a = choose|a: int| 0 <= a < free@.len() && free@[a].0 == v;
                }
                assert forall|j: int| 0 <= j < i + 1 implies scheme_vars_below(#[trigger] self.bindings.entries()[j].1, m) by {
                    if j < i {
                        let sj = self.bindings.entries()[j].1;
                        assert(scheme_vars_below(sj, m0));
                    }
                }
            }
            i += 1;
        }
        proof {
            assert forall|n: Seq<char>| #[trigger] self.vars().dom().contains(n) implies scheme_vars_below(self.vars()[n], m) by {
                let j = choose|j: int| 0 <= j < self.bindings.entries().len() && #[trigger] self.bindings.entries()[j].0 == n;
                assert(self.vars()[n] == self.bindings.entries()[j].1);
            }
        }
        m
    }

    /// Get all free type variables in the environment, each once.
    pub fn free_vars(&self) -> (r: Vec<TypeVar>)
        ensures
            distinct_vars(r@),
            var_ids(r@) == env_fv(self.vars()),
    {
        proof {
            use_type_invariant(self);
            self.bindings.lemma_entries();
        }
        let ghost es = self.bindings.entries();
        let mut vars: Vec<TypeVar> = Vec::new();
        let n = self.bindings.len();
        let mut i: usize = 0;
        while i < n
            invariant
                i <= n,
                n == es.len(),
                es == self.bindings.entries(),
                distinct_vars(vars@),
                var_ids(vars@) == entries_fv(es, i as int),
            decreases n - i,
        {
            let scheme = self.bindings.value_at(i);
            let fvs = scheme.free_vars();
            add_all(&mut vars, &fvs);
            proof {
                assert(scheme@ == es[i as int].1);
                assert(var_ids(vars@) =~= entries_fv(es, i + 1)) by {
                    assert forall|x: u64| var_ids(vars@).contains(x) <==> entries_fv(es, i + 1).contains(x) by {
                        if var_ids(fvs@).contains(x) {
                            assert(scheme_fv_v(es[i as int].1).contains(x));
                        }
                        if entries_fv(es, i + 1).contains(x) {
                            let j = choose|j: int| 0 <= j < i + 1 && #[trigger] scheme_fv_v(es[j].1).contains(x);
                            if j < i {
                                assert(entries_fv(es, i as int).contains(x));
                            }
                        }
                    }
                }
            }
            i += 1;
        }
        proof {
            assert(var_ids(vars@) =~= env_fv(self.vars())) by {
                assert forall|x: u64| var_ids(vars@).contains(x) <==> env_fv(self.vars()).contains(x) by {
                    if entries_fv(es, n as int).contains(x) {
                        let j = choose|j: int| 0 <= j < n && #[trigger] scheme_fv_v(es[j].1).contains(x);
                        assert(self.vars().dom().contains(es[j].0));
                        assert(self.vars()[es[j].0] == es[j].1);
                    }
                    if env_fv(self.vars()).contains(x) {
                        let k = choose|k: Seq<char>| self.vars().dom().contains(k) && #[trigger] scheme_fv_v(self.vars()[k]).contains(x);
                        let j = choose|j: int| 0 <= j < es.len() && #[trigger] es[j].0 == k;
                        assert(scheme_fv_v(es[j].1).contains(x));
                    }
                }
            }
        }
        vars
    }

    /// Generalize a type into a type scheme.
    ///
    /// Quantifies over all type variables that are free in the type
    /// but not free in the environment, in order of first occurrence.
    pub fn generalize(&self, ty: &Type) -> (r: TypeScheme)
        ensures
            r.ty@ == ty@,
            distinct_vars(r.vars@),
            var_ids(r.vars@) == fv(ty@).difference(env_fv(self.vars())),
    {
        let env_vars = self.free_vars();
        let ty_vars = ty.free_vars();
        let mut quantified: Vec<TypeVar> = Vec::new();
        let mut i: usize = 0;
        while i < ty_vars.len()
            invariant
                i <= ty_vars@.len(),
                distinct_vars(ty_vars@),
                distinct_vars(quantified@),
                forall|j: int| 0 <= j < quantified@.len() ==> exists|k: int| 0 <= k < i && #[trigger] quantified@[j] == ty_vars@[k],
                var_ids(quantified@) == var_ids(ty_vars@.take(i as int)).difference(var_ids(env_vars@)),
            decreases ty_vars.len() - i,
        {
            let v = ty_vars[i];
            let ghost prev = quantified@;
            proof {
                assert(ty_vars@.take(i + 1) =~= ty_vars@.take(i as int).push(v));
                super::repr::lemma_var_ids_push(ty_vars@.take(i as int), v);
            }
            if !has_var(&env_vars, v) {
                quantified.push(v);
                proof {
                    super::repr::lemma_var_ids_push(prev, v);
                    assert forall|a: int, b: int| 0 <= a < b < quantified@.len() implies quantified@[a] != quantified@[b] by {
                        if b == prev.len() {
                            let k = choose|k: int| 0 <= k < i && #[trigger] prev[a] == ty_vars@[k];
                            assert(ty_vars@[k] != ty_vars@[i as int]);
                        }
                    }
                    assert forall|j: int| 0 <= j < quantified@.len() implies exists|k: int| 0 <= k < i + 1 && #[trigger] quantified@[j] == ty_vars@[k] by {
                        if j == prev.len() {
                            assert(quantified@[j] == ty_vars@[i as int]);
                        } else {
                            let k = choose|k: int| 0 <= k < i && #[trigger] prev[j] == ty_vars@[k];
                            assert(quantified@[j] == ty_vars@[k]);
                        }
                    }
                    assert(var_ids(quantified@) =~= var_ids(ty_vars@.take(i + 1)).difference(var_ids(env_vars@)));
                }
            } else {
                assert(var_ids(quantified@) =~= var_ids(ty_vars@.take(i + 1)).difference(var_ids(env_vars@)));
            }
            i += 1;
        }
        proof {
            assert(ty_vars@.take(i as int) =~= ty_vars@);
        }
        TypeScheme::poly(quantified, ty.clone())
    }

    /// Apply a substitution to the entire environment: to the free variables of
    /// each bound scheme.
    pub fn apply_subst(&self, subst: &Substitution) -> (r: Self)
        requires
            acyclic(subst@),
        ensures
            r.vars() == Map::new(
                |k: Seq<char>| self.vars().dom().contains(k),
                |k: Seq<char>| subst_scheme(subst@, self.vars()[k]),
            ),
            r.arities() == self.arities(),
            r.ctors() == self.ctors(),
            r.classes() == self.classes(),
            r.insts() == self.insts(),
    {
        proof {
            use_type_invariant(self);
            self.bindings.lemma_entries();
        }
        let ghost es = self.bindings.entries();
        let ghost target = Map::new(
            |k: Seq<char>| self.vars().dom().contains(k),
            |k: Seq<char>| subst_scheme(subst@, self.vars()[k]),
        );
        let mut bindings: NameTable<TypeScheme> = NameTable::new();
        let n = self.bindings.len();
        let mut i: usize = 0;
        while i < n
            invariant
                i <= n,
                n == es.len(),
                es == self.bindings.entries(),
                self.bindings.wf(),
                distinct_names(es),
                forall|j: int| 0 <= j < es.len() ==> self.vars()[#[trigger] es[j].0] == es[j].1,
                forall|k: Seq<char>| self.vars().dom().contains(k) <==> exists|j: int| 0 <= j < es.len() && #[trigger] es[j].0 == k,
                acyclic(subst@),
                bindings.wf(),
                bindings@ == Map::new(
                    |k: Seq<char>| exists|j: int| 0 <= j < i && #[trigger] es[j].0 == k,
                    |k: Seq<char>| subst_scheme(subst@, self.vars()[k]),
                ),
            decreases n - i,
        {
            let key = self.bindings.key_at(i);
            let scheme = self.bindings.value_at(i);
            proof {
                super::model::lemma_acyclic_remove_keys(subst@, var_ids(scheme.vars@));
            }
            let applied = subst.apply_scheme(scheme);
            let ghost prev = bindings@;
            bindings.insert(key.clone(), applied);
            proof {
                assert(applied@ == subst_scheme(subst@, es[i as int].1));
                assert(bindings@ =~= Map::new(
                    |k: Seq<char>| exists|j: int| 0 <= j < i + 1 && #[trigger] es[j].0 == k,
                    |k: Seq<char>| subst_scheme(subst@, self.vars()[k]),
                )) by {
                    assert forall|k: Seq<char>| (exists|j: int| 0 <= j < i + 1 && #[trigger] es[j].0 == k) implies prev.insert(es[i as int].0, applied@).dom().contains(k) by {
                        let j = choose|j: int| 0 <= j < i + 1 && #[trigger] es[j].0 == k;
                        if j < i {
                            assert(prev.dom().contains(k));
                        }
                    }
                }
            }
            i += 1;
        }
        proof {
            assert(bindings@ =~= target);
        }
        let r = TypeEnv {
            bindings,
            type_arities: self.type_arities.duplicate(),
            constructors: self.constructors.duplicate(),
            type_classes: self.type_classes.duplicate(),
            instances: copy_instances(&self.instances),
        };
        r
    }
}

fn copy_instances(v: &Vec<ClassInstance>) -> (r: Vec<ClassInstance>)
    ensures
        r@.map_values(|i: ClassInstance| i@) == v@.map_values(|i: ClassInstance| i@),
{
    let mut r: Vec<ClassInstance> = Vec::new();
    let mut i: usize = 0;
    while i < v.len()
        invariant
            i <= v@.len(),
            r@.map_values(|i: ClassInstance| i@) =~= v@.map_values(|i: ClassInstance| i@).take(i as int),
        decreases v.len() - i,
    {
        let ghost prev = r@;
        let c = v[i].duplicate();
        r.push(c);
        proof {
            assert(r@ =~= prev.push(c));
            assert(r@.map_values(|i: ClassInstance| i@) =~= prev.map_values(|i: ClassInstance| i@).push(c@));
            assert(v@.map_values(|i: ClassInstance| i@).take(i + 1) =~= v@.map_values(|i: ClassInstance| i@).take(i as int).push(v@[i as int]@));
        }
        i += 1;
    }
    assert(v@.map_values(|i: ClassInstance| i@).take(i as int) =~= v@.map_values(|i: ClassInstance| i@));
    r
}


impl TypeEnv {
    /// Create a new environment that extends this one.
    ///
    /// The new environment shadows bindings from this one; of two bindings of
    /// one name in the list, the later wins.
    pub fn extend(&self, bindings: Vec<(String, TypeScheme)>) -> (r: Self)
        ensures
            r.vars() == extend_map(self.vars(), named_schemes(bindings@)),
            r.arities() == self.arities(),
            r.ctors() == self.ctors(),
            r.classes() == self.classes(),
            r.insts() == self.insts(),
    {
        let mut new_env = self.clone();
        let ghost bs = named_schemes(bindings@);
        let mut i: usize = 0;
        while i < bindings.len()
            invariant
                i <= bindings@.len(),
                bs == named_schemes(bindings@),
                bs.len() == bindings@.len(),
                new_env.vars() == extend_map(self.vars(), bs.take(i as int)),
                new_env.arities() == self.arities(),
                new_env.ctors() == self.ctors(),
                new_env.classes() == self.classes(),
                new_env.insts() == self.insts(),
            decreases bindings.len() - i,
        {
            let name = bindings[i].0.clone();
            let scheme = bindings[i].1.clone();
            new_env.insert(name, scheme);
            proof {
                assert(bs.take(i + 1).drop_last() =~= bs.take(i as int));
                assert(bs.take(i + 1).last() == bs[i as int]);
            }
            i += 1;
        }
        proof {
            assert(bs.take(i as int) =~= bs);
        }
        new_env
    }

    /// Create a type environment with built-in types and functions, their type
    /// variables drawn from `supply`.
    pub fn with_builtins(supply: &mut TypeVarSupply) -> (env: Self)
        ensures
            env.arities() == builtin_arities(),
            env.ctors() == builtin_ctors(old(supply).next_id()),
            env.vars() == builtin_bindings(old(supply).next_id()),
            env.classes() == Map::<Seq<char>, (Seq<char>, Seq<(Seq<char>, SchemeV)>)>::empty(),
            env.insts() == Seq::<InstV>::empty(),
            final(supply).next_id() == builtin_supply_after(old(supply).next_id()),
    {
        let mut env = Self::new();
        env.add_builtins(supply);
        env
    }
}

impl Clone for TypeEnv {
    fn clone(&self) -> (r: Self)
        ensures
            r.vars() == self.vars(),
            r.arities() == self.arities(),
            r.ctors() == self.ctors(),
            r.classes() == self.classes(),
            r.insts() == self.insts(),
    {
        proof { use_type_invariant(self); }
        TypeEnv {
            bindings: self.bindings.duplicate(),
            type_arities: self.type_arities.duplicate(),
            constructors: self.constructors.duplicate(),
            type_classes: self.type_classes.duplicate(),
            instances: copy_instances(&self.instances),
        }
    }
}

impl Default for TypeEnv {
    fn default() -> (env: Self)
        ensures
            env.vars() == Map::<Seq<char>, SchemeV>::empty(),
            env.arities() == Map::<Seq<char>, usize>::empty(),
            env.ctors() == Map::<Seq<char>, SchemeV>::empty(),
            env.classes() == Map::<Seq<char>, (Seq<char>, Seq<(Seq<char>, SchemeV)>)>::empty(),
            env.insts() == Seq::<InstV>::empty(),
    {
        Self::new()
    }
}

/// Law: extending an environment shadows it. A name given in the list is bound
/// to the scheme of its last occurrence there.
pub proof fn law_extend_last_wins(m: Map<Seq<char>, SchemeV>, s: Seq<(Seq<char>, SchemeV)>, i: int)
    requires
        0 <= i < s.len(),
        forall|j: int| i < j < s.len() ==> s[j].0 != s[i].0,
    ensures
        extend_map(m, s).dom().contains(s[i].0),
        extend_map(m, s)[s[i].0] == s[i].1,
    decreases s.len(),
{
    if i < s.len() - 1 {
        let d = s.drop_last();
        assert(d[i] == s[i]);
        assert forall|j: int| i < j < d.len() implies d[j].0 != d[i].0 by {
            assert(d[j] == s[j]);
        }
        law_extend_last_wins(m, d, i);
        assert(s.last().0 != s[i].0);
    }
}

/// Law: extending an environment leaves the names not in the list as they were.
pub proof fn law_extend_keeps_others(m: Map<Seq<char>, SchemeV>, s: Seq<(Seq<char>, SchemeV)>, k: Seq<char>)
    requires
        forall|j: int| 0 <= j < s.len() ==> s[j].0 != k,
    ensures
        extend_map(m, s).dom().contains(k) == m.dom().contains(k),
        m.dom().contains(k) ==> extend_map(m, s)[k] == m[k],
    decreases s.len(),
{
    if s.len() > 0 {
        let d = s.drop_last();
        assert forall|j: int| 0 <= j < d.len() implies d[j].0 != k by {
            assert(d[j] == s[j]);
        }
        law_extend_keeps_others(m, d, k);
        assert(s[s.len() - 1].0 != k);
    }
}

} // verus!
