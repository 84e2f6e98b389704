//! Type representations for the Neap type system: type variables, types and
//! type schemes.

use vstd::prelude::*;
use super::model::{TypeV, fv, fv_seq, fv_fields, lemma_fv_seq, lemma_fv_fields};
use crate::text::{push_char, push_decimal, push_str, decimal};

verus! {

/// A type variable, used for polymorphism.
#[derive(Debug, Clone, Copy, PartialEq, Eq, Structural, Hash)]
pub struct TypeVar(pub u64);

/// A monomorphic type (no quantifiers).
#[derive(Debug, PartialEq, Eq)]
pub enum Type {
    /// Type variable (may be unified)
    Var(TypeVar),
    /// Type constructor with arguments, e.g. `int`, `list<'a>`
    Con(String, Vec<Type>),
    /// Function type: `t1 -> t2`
    Arrow(Box<Type>, Box<Type>),
    /// Tuple type: `t1 * t2 * ... * tn`
    Tuple(Vec<Type>),
    /// Record type: `{l1: t1, l2: t2, ...}`
    Record(Vec<(String, Type)>),
}

pub open spec fn tview(t: Type) -> TypeV
    decreases t,
{
    match t {
        Type::Var(v) => TypeV::Var(v.0),
        Type::Con(n, args) => TypeV::Con(n@, tview_seq(args@)),
        Type::Arrow(a, b) => TypeV::Arrow(Box::new(tview(*a)), Box::new(tview(*b))),
        Type::Tuple(es) => TypeV::Tuple(tview_seq(es@)),
        Type::Record(fs) => TypeV::Record(tview_fields(fs@)),
    }
}

pub open spec fn tview_seq(s: Seq<Type>) -> Seq<TypeV>
    decreases s,
{
    if s.len() == 0 {
        Seq::empty()
    } else {
        tview_seq(s.drop_last()).push(tview(s.last()))
    }
}

pub open spec fn tview_fields(s: Seq<(String, Type)>) -> Seq<(Seq<char>, TypeV)>
    decreases s,
{
    if s.len() == 0 {
        Seq::empty()
    } else {
        tview_fields(s.drop_last()).push((s.last().0@, tview(s.last().1)))
    }
}

impl View for Type {
    type V = TypeV;

    open spec fn view(&self) -> TypeV {
        tview(*self)
    }
}


pub proof fn lemma_tview_seq(s: Seq<Type>)
    ensures
        tview_seq(s).len() == s.len(),
        forall|i: int| 0 <= i < s.len() ==> #[trigger] tview_seq(s)[i] == tview(s[i]),
    decreases s.len(),
{
    if s.len() > 0 {
        lemma_tview_seq(s.drop_last());
    }
}

pub proof fn lemma_tview_fields(s: Seq<(String, Type)>)
    ensures
        tview_fields(s).len() == s.len(),
        forall|i: int| 0 <= i < s.len() ==> #[trigger] tview_fields(s)[i] == (s[i].0@, tview(s[i].1)),
    decreases s.len(),
{
    if s.len() > 0 {
        lemma_tview_fields(s.drop_last());
    }
}

/// One step of the view of a type.
pub proof fn lemma_view_unfold(t: Type)
    ensures
        t@ == tview(t),
        match t {
            Type::Var(v) => t@ == TypeV::Var(v.0),
            Type::Con(n, args) => t@ == TypeV::Con(n@, tview_seq(args@)),
            Type::Arrow(a, b) => t@ == TypeV::Arrow(Box::new(tview(*a)), Box::new(tview(*b))) && tview(*a) == (*a)@ && tview(*b) == (*b)@,
            Type::Tuple(es) => t@ == TypeV::Tuple(tview_seq(es@)),
            Type::Record(fs) => t@ == TypeV::Record(tview_fields(fs@)),
        },
{
}

/// The type constructor applied to no arguments.
pub open spec fn con0(name: Seq<char>) -> TypeV {
    TypeV::Con(name, Seq::empty())
}

/// `params[0] -> params[1] -> ... -> ret`
pub open spec fn arrows_spec(params: Seq<TypeV>, ret: TypeV) -> TypeV
    decreases params.len(),
{
    if params.len() == 0 {
        ret
    } else {
        TypeV::Arrow(Box::new(params[0]), Box::new(arrows_spec(params.drop_first(), ret)))
    }
}

/// The argument types of a curried function type and its final result type.
pub open spec fn arrow_args(t: TypeV) -> (Seq<TypeV>, TypeV)
    decreases t,
{
    match t {
        TypeV::Arrow(a, b) => {
            let (rest, ret) = arrow_args(*b);
            (seq![*a] + rest, ret)
        },
        _ => (Seq::empty(), t),
    }
}

/// Source of fresh type variables: each call of `TypeVar::fresh` hands out the
/// next number.
#[derive(Debug)]
pub struct TypeVarSupply {
    next: u64,
}

impl TypeVarSupply {
    /// The number the next fresh variable will carry.
    pub closed spec fn next_id(&self) -> u64 {
        self.next
    }

    /// A supply whose first variable is `'a` (number 0).
    pub fn new() -> (s: Self)
        ensures
            s.next_id() == 0,
    {
        TypeVarSupply { next: 0 }
    }

    /// A supply whose first variable carries the given number.
    pub fn starting_at(next: u64) -> (s: Self)
        ensures
            s.next_id() == next,
    {
        TypeVarSupply { next }
    }

    /// The number the next fresh variable will carry.
    pub fn peek(&self) -> (n: u64)
        ensures
            n == self.next_id(),
    {
        self.next
    }
}

/// The counter after handing out one variable (wrapping like an atomic counter).
pub open spec fn next_after(n: u64) -> u64 {
    if n == u64::MAX { 0 } else { (n + 1) as u64 }
}

/// The name of a type variable: `'a` .. `'z` for the first 26, then `'t26`, `'t27`, ...
pub open spec fn var_name(n: u64) -> Seq<char> {
    if n < 26 {
        seq!['\'', ((97 + n) as u8) as char]
    } else {
        seq!['\'', 't'] + decimal(n as nat)
    }
}

impl TypeVar {
    /// Create a new unique type variable.
    pub fn fresh(supply: &mut TypeVarSupply) -> (v: Self)
        ensures
            v.0 == old(supply).next_id(),
            final(supply).next_id() == next_after(old(supply).next_id()),
    {
        let v = TypeVar(supply.next);
        supply.next = if supply.next == u64::MAX { 0 } else { supply.next + 1 };
        v
    }

    /// Reset the type variable counter.
    pub fn reset_counter(supply: &mut TypeVarSupply)
        ensures
            final(supply).next_id() == 0,
    {
        supply.next = 0;
    }

    /// Render the variable: `'a`, `'b`, ..., `'z`, `'t26`, ...
    pub fn to_string(&self) -> (s: String)
        ensures
            s@ == var_name(self.0),
    {
        let mut s = String::new();
        push_var_name(&mut s, self.0);
        s
    }
}

fn letter(n: u64) -> (c: char)
    requires
        n < 26,
    ensures
        c == ((97 + n) as u8) as char,
{
    let code: u8 = 97 + n as u8;
    code as char
}

fn push_var_name(s: &mut String, n: u64)
    ensures
        final(s)@ == old(s)@ + var_name(n),
{
    push_char(s, '\'');
    if n < 26 {
        let c = letter(n);
        push_char(s, c);
    } else {
        push_char(s, 't');
        push_decimal(s, n);
    }
}


// ========== Rendering ==========

pub open spec fn arrow_sep() -> Seq<char> {
    seq![' ', '-', '>', ' ']
}

pub open spec fn comma_sep() -> Seq<char> {
    seq![',', ' ']
}

pub open spec fn star_sep() -> Seq<char> {
    seq![' ', '*', ' ']
}

pub open spec fn unit_name() -> Seq<char> {
    seq!['u', 'n', 'i', 't']
}

pub open spec fn is_arrow_v(t: TypeV) -> bool {
    t is Arrow
}

/// The text of a type, as the REPL and error messages print it.
pub open spec fn show(t: TypeV) -> Seq<char>
    decreases t, 0nat,
{
    match t {
        TypeV::Var(v) => var_name(v),
        TypeV::Con(n, args) => if args.len() == 0 {
            n
        } else if args.len() == 1 {
            show(args[0]) + seq![' '] + n
        } else {
            seq!['('] + show_list(args) + seq![')', ' '] + n
        },
        TypeV::Arrow(a, b) => if is_arrow_v(*a) {
            seq!['('] + show(*a) + seq![')'] + arrow_sep() + show(*b)
        } else {
            show(*a) + arrow_sep() + show(*b)
        },
        TypeV::Tuple(es) => if es.len() == 0 {
            unit_name()
        } else {
            show_tuple(es)
        },
        TypeV::Record(fs) => seq!['{'] + show_fields(fs) + seq!['}'],
    }
}

/// Types separated by `", "`.
pub open spec fn show_list(s: Seq<TypeV>) -> Seq<char>
    decreases s, 0nat,
{
    if s.len() == 0 {
        Seq::empty()
    } else if s.len() == 1 {
        show(s[0])
    } else {
        show_list(s.drop_last()) + comma_sep() + show(s.last())
    }
}

/// A tuple component: parenthesized when it is itself an arrow or a tuple.
pub open spec fn show_component(t: TypeV) -> Seq<char>
    decreases t, 1nat,
{
    if is_arrow_v(t) || t is Tuple {
        seq!['('] + show(t) + seq![')']
    } else {
        show(t)
    }
}

/// Tuple components separated by `" * "`.
pub open spec fn show_tuple(s: Seq<TypeV>) -> Seq<char>
    decreases s, 0nat,
{
    if s.len() == 0 {
        Seq::empty()
    } else if s.len() == 1 {
        show_component(s[0])
    } else {
        show_tuple(s.drop_last()) + star_sep() + show_component(s.last())
    }
}

/// `name: type` entries separated by `", "`.
pub open spec fn show_fields(s: Seq<(Seq<char>, TypeV)>) -> Seq<char>
    decreases s, 0nat,
{
    if s.len() == 0 {
        Seq::empty()
    } else if s.len() == 1 {
        s[0].0 + seq![':', ' '] + show(s[0].1)
    } else {
        show_fields(s.drop_last()) + comma_sep() + s.last().0 + seq![':', ' '] + show(s.last().1)
    }
}


/// The identifiers of a sequence of type variables.
pub open spec fn var_ids(s: Seq<TypeVar>) -> Set<u64> {
    Set::new(|x: u64| exists|i: int| 0 <= i < s.len() && s[i].0 == x)
}

/// No variable occurs twice.
pub open spec fn distinct_vars(s: Seq<TypeVar>) -> bool {
    forall|i: int, j: int| 0 <= i < j < s.len() ==> s[i] != s[j]
}

pub(crate) fn has_var(vars: &Vec<TypeVar>, v: TypeVar) -> (b: bool)
    ensures
        b == var_ids(vars@).contains(v.0),
{
    let mut i: usize = 0;
    while i < vars.len()
        invariant
            i <= vars.len(),
            forall|j: int| 0 <= j < i ==> vars@[j].0 != v.0,
        decreases vars.len() - i,
    {
        if vars[i].0 == v.0 {
            return true;
        }
        i += 1;
    }
    false
}

pub(crate) fn add_var(vars: &mut Vec<TypeVar>, v: TypeVar)
    requires
        distinct_vars(old(vars)@),
    ensures
        distinct_vars(final(vars)@),
        var_ids(final(vars)@) == var_ids(old(vars)@).insert(v.0),
        final(vars)@.len() >= old(vars)@.len(),
        final(vars)@.subrange(0, old(vars)@.len() as int) == old(vars)@,
{
    if !has_var(vars, v) {
        let ghost before = vars@;
        vars.push(v);
        assert forall|x: u64| var_ids(vars@).contains(x) <==> var_ids(before).insert(v.0).contains(x) by {
            if var_ids(vars@).contains(x) {
                let i = choose|i: int| 0 <= i < vars@.len() && vars@[i].0 == x;
                if i < before.len() {
                    assert(before[i].0 == x);
                }
            }
            if var_ids(before).contains(x) {
                let i = choose|i: int| 0 <= i < before.len() && before[i].0 == x;
                assert(vars@[i].0 == x);
            }
            if x == v.0 {
                assert(vars@[before.len() as int].0 == x);
            }
        }
        assert(var_ids(vars@) =~= var_ids(before).insert(v.0));
    } else {
        assert(var_ids(final(vars)@) =~= var_ids(old(vars)@).insert(v.0));
    }
    assert(final(vars)@.subrange(0, old(vars)@.len() as int) =~= old(vars)@);
}

/// A named type constructor applied to arguments.
fn named(name: &str, args: Vec<Type>) -> (t: Type)
    ensures
        t@ == TypeV::Con(name@, tview_seq(args@)),
{
    let t = Type::Con(String::from_str(name), args);
    assert(t@ == tview(t));
    t
}

impl Type {
    // ========== Constructors for built-in types ==========

    /// The unit type `()`
    pub fn unit() -> (t: Self)
        ensures
            t@ == con0("unit"@),
    {
        let v: Vec<Type> = Vec::new();
        proof { assert(tview_seq(v@) =~= Seq::<TypeV>::empty()); }
        named("unit", v)
    }

    /// The boolean type
    pub fn bool() -> (t: Self)
        ensures
            t@ == con0("bool"@),
    {
        let v: Vec<Type> = Vec::new();
        proof { assert(tview_seq(v@) =~= Seq::<TypeV>::empty()); }
        named("bool", v)
    }

    /// The integer type
    pub fn int_type() -> (t: Self)
        ensures
            t@ == con0("int"@),
    {
        let v: Vec<Type> = Vec::new();
        proof { assert(tview_seq(v@) =~= Seq::<TypeV>::empty()); }
        named("int", v)
    }

    /// The type of a command's outcome: `{exitCode: int, stdout: string, stderr: string}`.
    pub fn command_result() -> (t: Self)
        ensures
            t@ == TypeV::Record(seq![
                ("exitCode"@, con0("int"@)),
                ("stdout"@, con0("string"@)),
                ("stderr"@, con0("string"@)),
            ]),
    {
        let fields = vec![
            (String::from_str("exitCode"), Type::int_type()),
            (String::from_str("stdout"), Type::string()),
            (String::from_str("stderr"), Type::string()),
        ];
        let t = Type::Record(fields);
        proof {
            lemma_tview_fields(fields@);
            assert(tview_fields(fields@) =~= seq![
                ("exitCode"@, con0("int"@)),
                ("stdout"@, con0("string"@)),
                ("stderr"@, con0("string"@)),
            ]);
        }
        t
    }

    /// The float type
    pub fn float() -> (t: Self)
        ensures
            t@ == con0("float"@),
    {
        let v: Vec<Type> = Vec::new();
        proof { assert(tview_seq(v@) =~= Seq::<TypeV>::empty()); }
        named("float", v)
    }

    /// The string type
    pub fn string() -> (t: Self)
        ensures
            t@ == con0("string"@),
    {
        let v: Vec<Type> = Vec::new();
        proof { assert(tview_seq(v@) =~= Seq::<TypeV>::empty()); }
        named("string", v)
    }

    /// The char type
    pub fn char() -> (t: Self)
        ensures
            t@ == con0("char"@),
    {
        let v: Vec<Type> = Vec::new();
        proof { assert(tview_seq(v@) =~= Seq::<TypeV>::empty()); }
        named("char", v)
    }

    /// A list type `t list`
    pub fn list(elem: Type) -> (t: Self)
        ensures
            t@ == TypeV::Con("list"@, seq![elem@]),
    {
        let v = vec![elem];
        proof {
            lemma_tview_seq(v@);
            assert(tview_seq(v@) =~= seq![elem@]);
        }
        named("list", v)
    }

    /// An option type `t option`
    pub fn option(elem: Type) -> (t: Self)
        ensures
            t@ == TypeV::Con("option"@, seq![elem@]),
    {
        let v = vec![elem];
        proof {
            lemma_tview_seq(v@);
            assert(tview_seq(v@) =~= seq![elem@]);
        }
        named("option", v)
    }

    /// A result type `(t, e) result`
    pub fn result(ok: Type, err: Type) -> (t: Self)
        ensures
            t@ == TypeV::Con("result"@, seq![ok@, err@]),
    {
        let v = vec![ok, err];
        proof {
            lemma_tview_seq(v@);
            assert(tview_seq(v@) =~= seq![v@[0]@, v@[1]@]);
        }
        named("result", v)
    }

    /// The IO type `t io`
    pub fn io(inner: Type) -> (t: Self)
        ensures
            t@ == TypeV::Con("io"@, seq![inner@]),
    {
        let v = vec![inner];
        proof {
            lemma_tview_seq(v@);
            assert(tview_seq(v@) =~= seq![inner@]);
        }
        named("io", v)
    }

    /// A stream type `t stream`
    pub fn stream(elem: Type) -> (t: Self)
        ensures
            t@ == TypeV::Con("stream"@, seq![elem@]),
    {
        let v = vec![elem];
        proof {
            lemma_tview_seq(v@);
            assert(tview_seq(v@) =~= seq![elem@]);
        }
        named("stream", v)
    }

    /// A function type `t1 -> t2`
    pub fn arrow(from: Type, to: Type) -> (t: Self)
        ensures
            t@ == TypeV::Arrow(Box::new(from@), Box::new(to@)),
    {
        Type::Arrow(Box::new(from), Box::new(to))
    }

    /// A fresh type variable
    pub fn var(supply: &mut TypeVarSupply) -> (t: Self)
        ensures
            t@ == TypeV::Var(old(supply).next_id()),
            final(supply).next_id() == next_after(old(supply).next_id()),
    {
        Type::Var(TypeVar::fresh(supply))
    }

    // ========== Type operations ==========

    /// Check if this type is a type variable.
    pub fn is_var(&self) -> (b: bool)
        ensures
            b == (self@ is Var),
    {
        match self {
            Type::Var(_) => true,
            _ => false,
        }
    }

    /// Check if this type is a function type.
    pub fn is_arrow(&self) -> (b: bool)
        ensures
            b == (self@ is Arrow),
    {
        match self {
            Type::Arrow(_, _) => true,
            _ => false,
        }
    }

    /// Check if this type contains a specific type variable.
    pub fn contains_var(&self, var: TypeVar) -> (b: bool)
        ensures
            b == fv(self@).contains(var.0),
        decreases self@,
    {
        proof { lemma_view_unfold(*self); }
        match self {
            Type::Var(v) => v.0 == var.0,
            Type::Con(n, args) => {
                assert(self@ == TypeV::Con(n@, tview_seq(args@)));
                assert(decreases_to!(self@ => self@->Con_1));
                contains_var_seq(args, var)
            },
            Type::Arrow(a, b) => {
                assert(decreases_to!(self@ => self@->Arrow_0));
                assert(decreases_to!(self@ => self@->Arrow_1));
                a.contains_var(var) || b.contains_var(var)
            },
            Type::Tuple(es) => {
                assert(self@ == TypeV::Tuple(tview_seq(es@)));
                assert(decreases_to!(self@ => self@->Tuple_0));
                contains_var_seq(es, var)
            },
            Type::Record(fs) => {
                assert(self@ == TypeV::Record(tview_fields(fs@)));
                assert(decreases_to!(self@ => self@->Record_0));
                contains_var_fields(fs, var)
            },
        }
    }
}

impl Type {
    /// Get all free type variables in this type, each once, in order of first occurrence.
    pub fn free_vars(&self) -> (vars: Vec<TypeVar>)
        ensures
            distinct_vars(vars@),
            var_ids(vars@) == fv(self@),
    {
        let mut vars: Vec<TypeVar> = Vec::new();
        self.collect_free_vars(&mut vars);
        assert(var_ids(vars@) =~= fv(self@));
        vars
    }

    fn collect_free_vars(&self, vars: &mut Vec<TypeVar>)
        requires
            distinct_vars(old(vars)@),
        ensures
            distinct_vars(final(vars)@),
            var_ids(final(vars)@) == var_ids(old(vars)@).union(fv(self@)),
        decreases self@,
    {
        proof { lemma_view_unfold(*self); }
        match self {
            Type::Var(v) => {
                add_var(vars, *v);
                assert(var_ids(vars@) =~= var_ids(old(vars)@).union(fv(self@)));
            },
            Type::Con(n, args) => {
                assert(decreases_to!(self@ => self@->Con_1));
                collect_free_vars_seq(args, vars);
            },
            Type::Arrow(a, b) => {
                assert(decreases_to!(self@ => self@->Arrow_0));
                assert(decreases_to!(self@ => self@->Arrow_1));
                a.collect_free_vars(vars);
                b.collect_free_vars(vars);
                assert(var_ids(vars@) =~= var_ids(old(vars)@).union(fv(self@)));
            },
            Type::Tuple(es) => {
                assert(decreases_to!(self@ => self@->Tuple_0));
                collect_free_vars_seq(es, vars);
            },
            Type::Record(fs) => {
                assert(decreases_to!(self@ => self@->Record_0));
                collect_free_vars_fields(fs, vars);
            },
        }
    }
}

fn collect_free_vars_seq(ts: &Vec<Type>, vars: &mut Vec<TypeVar>)
    requires
        distinct_vars(old(vars)@),
    ensures
        distinct_vars(final(vars)@),
        var_ids(final(vars)@) == var_ids(old(vars)@).union(fv_seq(tview_seq(ts@))),
    decreases tview_seq(ts@),
{
    proof {
        lemma_tview_seq(ts@);
    }
    let ghost s = tview_seq(ts@);
    let mut i: usize = 0;
    while i < ts.len()
        invariant
            i <= ts.len(),
            s == tview_seq(ts@),
            s.len() == ts@.len(),
            forall|j: int| 0 <= j < ts@.len() ==> #[trigger] s[j] == ts@[j]@,
            distinct_vars(vars@),
            var_ids(vars@) == var_ids(old(vars)@).union(fv_seq(s.take(i as int))),
        decreases ts.len() - i,
    {
        assert(decreases_to!(s => s[i as int]));
        ts[i].collect_free_vars(vars);
        assert(s.take(i + 1).drop_last() =~= s.take(i as int));
        assert(var_ids(vars@) =~= var_ids(old(vars)@).union(fv_seq(s.take(i + 1))));
        i += 1;
    }
    assert(s.take(i as int) =~= s);
}

fn collect_free_vars_fields(fs: &Vec<(String, Type)>, vars: &mut Vec<TypeVar>)
    requires
        distinct_vars(old(vars)@),
    ensures
        distinct_vars(final(vars)@),
        var_ids(final(vars)@) == var_ids(old(vars)@).union(fv_fields(tview_fields(fs@))),
    decreases tview_fields(fs@),
{
    proof {
        lemma_tview_fields(fs@);
    }
    let ghost s = tview_fields(fs@);
    let mut i: usize = 0;
    while i < fs.len()
        invariant
            i <= fs.len(),
            s == tview_fields(fs@),
            s.len() == fs@.len(),
            forall|j: int| 0 <= j < fs@.len() ==> #[trigger] s[j] == (fs@[j].0@, fs@[j].1@),
            distinct_vars(vars@),
            var_ids(vars@) == var_ids(old(vars)@).union(fv_fields(s.take(i as int))),
        decreases fs.len() - i,
    {
        assert(decreases_to!(s => s[i as int]));
        assert(decreases_to!(s[i as int] => s[i as int].1));
        fs[i].1.collect_free_vars(vars);
        assert(s.take(i + 1).drop_last() =~= s.take(i as int));
        assert(var_ids(vars@) =~= var_ids(old(vars)@).union(fv_fields(s.take(i + 1))));
        i += 1;
    }
    assert(s.take(i as int) =~= s);
}

pub proof fn lemma_arrows_push(s: Seq<TypeV>, x: TypeV, ret: TypeV)
    ensures
        arrows_spec(s.push(x), ret) == arrows_spec(s, TypeV::Arrow(Box::new(x), Box::new(ret))),
    decreases s.len(),
{
    if s.len() > 0 {
        lemma_arrows_push(s.drop_first(), x, ret);
        assert(s.push(x).drop_first() =~= s.drop_first().push(x));
        assert(s.push(x)[0] == s[0]);
        let a = TypeV::Arrow(Box::new(x), Box::new(ret));
        assert(arrows_spec(s.push(x), ret) == TypeV::Arrow(Box::new(s[0]), Box::new(arrows_spec(s.drop_first().push(x), ret))));
        assert(arrows_spec(s, a) == TypeV::Arrow(Box::new(s[0]), Box::new(arrows_spec(s.drop_first(), a))));
    } else {
        assert(s.push(x).drop_first() =~= Seq::<TypeV>::empty());
        assert(s.push(x)[0] == x);
        assert(arrows_spec(s.push(x).drop_first(), ret) == ret);
        assert(arrows_spec(s.push(x), ret) == TypeV::Arrow(Box::new(x), Box::new(arrows_spec(s.push(x).drop_first(), ret))));
    }
}

impl Type {
    /// Create a multi-argument function type: `t1 -> t2 -> ... -> tn -> ret`
    pub fn arrows(params: Vec<Type>, ret: Type) -> (t: Self)
        ensures
            t@ == arrows_spec(tview_seq(params@), ret@),
    {
        proof { assert(tview_seq(Seq::<Type>::empty()) =~= Seq::<TypeV>::empty()); }
        let ghost orig = params@;
        let mut params = params;
        let mut acc = ret;
        while params.len() > 0
            invariant
                arrows_spec(tview_seq(params@), acc@) == arrows_spec(tview_seq(orig), ret@),
            decreases params.len(),
        {
            let ghost before = params@;
            let p = params.pop().unwrap();
            proof {
                assert(before == params@.push(p));
                assert(tview_seq(before) == tview_seq(params@).push(p@));
                lemma_arrows_push(tview_seq(params@), p@, acc@);
            }
            acc = Type::Arrow(Box::new(p), Box::new(acc));
        }
        proof {
            assert(tview_seq(params@) == Seq::<TypeV>::empty());
        }
        acc
    }

    /// Decompose a function type into its argument and return types.
    /// Returns `None` if this is not a function type.
    pub fn decompose_arrow(&self) -> (r: Option<(&Type, &Type)>)
        ensures
            match self@ {
                TypeV::Arrow(a, b) => r is Some && (r->0).0@ == *a && (r->0).1@ == *b,
                _ => r is None,
            },
    {
        proof { lemma_view_unfold(*self); }
        match self {
            Type::Arrow(t1, t2) => Some((&**t1, &**t2)),
            _ => None,
        }
    }

    /// Collect all argument types of a curried function type.
    /// e.g., `int -> string -> bool` returns `([int, string], bool)`
    pub fn collect_arrow_args(&self) -> (r: (Vec<&Type>, &Type))
        ensures
            r.0@.len() == arrow_args(self@).0.len(),
            forall|i: int| 0 <= i < r.0@.len() ==> (*r.0@[i])@ == arrow_args(self@).0[i],
            (*r.1)@ == arrow_args(self@).1,
    {
        let mut args: Vec<&Type> = Vec::new();
        let mut current: &Type = self;
        loop
            invariant
                args@.len() + arrow_args(current@).0.len() == arrow_args(self@).0.len(),
                forall|i: int| 0 <= i < args@.len() ==> (*args@[i])@ == arrow_args(self@).0[i],
                forall|i: int| 0 <= i < arrow_args(current@).0.len() ==>
                    arrow_args(current@).0[i] == #[trigger] arrow_args(self@).0[args@.len() + i],
                arrow_args(current@).1 == arrow_args(self@).1,
            ensures
                args@.len() == arrow_args(self@).0.len(),
                forall|i: int| 0 <= i < args@.len() ==> (*args@[i])@ == arrow_args(self@).0[i],
                current@ == arrow_args(self@).1,
            decreases current@,
        {
            proof { lemma_view_unfold(*current); }
            match current {
                Type::Arrow(param, ret) => {
                    let ghost old_args = args@;
                    let ghost cur = current@;
                    args.push(&**param);
                    current = &**ret;
                    proof {
                        assert(decreases_to!(cur => cur->Arrow_1));
                        let (rest, r) = arrow_args(current@);
                        assert(arrow_args(cur) == (seq![param@] + rest, r));
                        assert forall|i: int| 0 <= i < arrow_args(current@).0.len() implies
                            arrow_args(current@).0[i] == #[trigger] arrow_args(self@).0[args@.len() + i] by {
                            let k = i + 1;
                            assert(arrow_args(cur).0[k] == arrow_args(self@).0[old_args.len() + k]);
                            assert(arrow_args(cur).0[k] == rest[i]);
                        }
                        let k0: int = 0;
                        assert(arrow_args(cur).0[k0] == arrow_args(self@).0[old_args.len() + k0]);
                        assert(arrow_args(cur).0[k0] == param@);
                    }
                },
                _ => {
                    proof {
                        assert(arrow_args(current@).0 =~= Seq::<TypeV>::empty());
                    }
                    break;
                },
            }
        }
        (args, current)
    }
}

/// A copy of a type, node by node.
fn copy_type(t: &Type) -> (r: Type)
    ensures
        r@ == t@,
    decreases t@,
{
    proof { lemma_view_unfold(*t); }
    let r = match t {
        Type::Var(v) => Type::Var(*v),
        Type::Con(n, args) => {
            assert(decreases_to!(t@ => t@->Con_1));
            Type::Con(n.clone(), copy_seq(args))
        },
        Type::Arrow(a, b) => {
            assert(decreases_to!(t@ => t@->Arrow_0));
            assert(decreases_to!(t@ => t@->Arrow_1));
            Type::Arrow(Box::new(copy_type(a)), Box::new(copy_type(b)))
        },
        Type::Tuple(es) => {
            assert(decreases_to!(t@ => t@->Tuple_0));
            Type::Tuple(copy_seq(es))
        },
        Type::Record(fs) => {
            assert(decreases_to!(t@ => t@->Record_0));
            Type::Record(copy_fields(fs))
        },
    };
    proof { lemma_view_unfold(r); }
    r
}

fn copy_seq(ts: &Vec<Type>) -> (r: Vec<Type>)
    ensures
        tview_seq(r@) == tview_seq(ts@),
    decreases tview_seq(ts@),
{
    proof { lemma_tview_seq(ts@); }
    let ghost s = tview_seq(ts@);
    let mut r: Vec<Type> = Vec::new();
    let mut i: usize = 0;
    while i < ts.len()
        invariant
            i <= ts.len(),
            s == tview_seq(ts@),
            s.len() == ts@.len(),
            forall|j: int| 0 <= j < ts@.len() ==> #[trigger] s[j] == ts@[j]@,
            r@.len() == i,
            forall|j: int| 0 <= j < i ==> (#[trigger] r@[j])@ == s[j],
        decreases ts.len() - i,
    {
        assert(decreases_to!(s => s[i as int]));
        let c = copy_type(&ts[i]);
        r.push(c);
        i += 1;
    }
    proof {
        lemma_tview_seq(r@);
        assert(tview_seq(r@) =~= s);
    }
    r
}

fn copy_fields(fs: &Vec<(String, Type)>) -> (r: Vec<(String, Type)>)
    ensures
        tview_fields(r@) == tview_fields(fs@),
    decreases tview_fields(fs@),
{
    proof { lemma_tview_fields(fs@); }
    let ghost s = tview_fields(fs@);
    let mut r: Vec<(String, Type)> = Vec::new();
    let mut i: usize = 0;
    while i < fs.len()
        invariant
            i <= fs.len(),
            s == tview_fields(fs@),
            s.len() == fs@.len(),
            forall|j: int| 0 <= j < fs@.len() ==> #[trigger] s[j] == (fs@[j].0@, fs@[j].1@),
            r@.len() == i,
            forall|j: int| 0 <= j < i ==> ((#[trigger] r@[j]).0@, r@[j].1@) == s[j],
        decreases fs.len() - i,
    {
        assert(decreases_to!(s => s[i as int]));
        assert(decreases_to!(s[i as int] => s[i as int].1));
        let c = copy_type(&fs[i].1);
        r.push((fs[i].0.clone(), c));
        i += 1;
    }
    proof {
        lemma_tview_fields(r@);
        assert(tview_fields(r@) =~= s);
    }
    r
}

impl Clone for Type {
    fn clone(&self) -> (r: Self)
        ensures
            r@ == self@,
    {
        copy_type(self)
    }
}

fn push_arrow_sep(out: &mut String)
    ensures
        final(out)@ == old(out)@ + arrow_sep(),
{
    push_char(out, ' ');
    push_char(out, '-');
    push_char(out, '>');
    push_char(out, ' ');
    assert(final(out)@ =~= old(out)@ + arrow_sep());
}

fn push_comma_sep(out: &mut String)
    ensures
        final(out)@ == old(out)@ + comma_sep(),
{
    push_char(out, ',');
    push_char(out, ' ');
    assert(final(out)@ =~= old(out)@ + comma_sep());
}

/// Appends the text of a type.
fn write_type(t: &Type, out: &mut String)
    ensures
        final(out)@ == old(out)@ + show(t@),
    decreases t@, 0nat,
{
    proof { lemma_view_unfold(*t); }
    match t {
        Type::Var(v) => {
            push_var_name(out, v.0);
        },
        Type::Con(n, args) => {
            proof {
                assert(decreases_to!(t@ => t@->Con_1));
                lemma_tview_seq(args@);
            }
            if args.len() == 0 {
                push_str(out, n.as_str());
            } else if args.len() == 1 {
                assert(decreases_to!(t@->Con_1 => t@->Con_1[0]));
                write_type(&args[0], out);
                push_char(out, ' ');
                push_str(out, n.as_str());
            } else {
                push_char(out, '(');
                write_list(args, out);
                push_char(out, ')');
                push_char(out, ' ');
                push_str(out, n.as_str());
            }
            assert(final(out)@ =~= old(out)@ + show(t@));
        },
        Type::Arrow(a, b) => {
            assert(decreases_to!(t@ => t@->Arrow_0));
            assert(decreases_to!(t@ => t@->Arrow_1));
            if a.is_arrow() {
                push_char(out, '(');
                write_type(a, out);
                push_char(out, ')');
            } else {
                write_type(a, out);
            }
            push_arrow_sep(out);
            write_type(b, out);
            assert(final(out)@ =~= old(out)@ + show(t@));
        },
        Type::Tuple(es) => {
            assert(decreases_to!(t@ => t@->Tuple_0));
            if es.len() == 0 {
                push_char(out, 'u');
                push_char(out, 'n');
                push_char(out, 'i');
                push_char(out, 't');
                proof { assert(tview_seq(es@) =~= Seq::<TypeV>::empty()); }
            } else {
                proof { lemma_tview_seq(es@); }
                write_tuple(es, out);
            }
            assert(final(out)@ =~= old(out)@ + show(t@));
        },
        Type::Record(fs) => {
            assert(decreases_to!(t@ => t@->Record_0));
            push_char(out, '{');
            write_fields(fs, out);
            push_char(out, '}');
            assert(final(out)@ =~= old(out)@ + show(t@));
        },
    }
}

fn write_list(ts: &Vec<Type>, out: &mut String)
    ensures
        final(out)@ == old(out)@ + show_list(tview_seq(ts@)),
    decreases tview_seq(ts@), 0nat,
{
    proof { lemma_tview_seq(ts@); }
    let ghost s = tview_seq(ts@);
    let ghost base = out@;
    let mut i: usize = 0;
    while i < ts.len()
        invariant
            i <= ts.len(),
            s == tview_seq(ts@),
            s.len() == ts@.len(),
            forall|j: int| 0 <= j < ts@.len() ==> #[trigger] s[j] == ts@[j]@,
            out@ == base + show_list(s.take(i as int)),
        decreases ts.len() - i,
    {
        assert(decreases_to!(s => s[i as int]));
        if i > 0 {
            push_comma_sep(out);
        }
        write_type(&ts[i], out);
        proof {
            assert(s.take(i + 1).drop_last() =~= s.take(i as int));
            if i == 0 {
                assert(s.take(1)[0] == s[0]);
            }
            assert(out@ =~= base + show_list(s.take(i + 1)));
        }
        i += 1;
    }
    assert(s.take(i as int) =~= s);
}

fn write_component(t: &Type, out: &mut String)
    ensures
        final(out)@ == old(out)@ + show_component(t@),
    decreases t@, 1nat,
{
    proof { lemma_view_unfold(*t); }
    let paren = match t {
        Type::Arrow(_, _) => true,
        Type::Tuple(_) => true,
        _ => false,
    };
    if paren {
        push_char(out, '(');
        write_type(t, out);
        push_char(out, ')');
    } else {
        write_type(t, out);
    }
    assert(final(out)@ =~= old(out)@ + show_component(t@));
}

fn write_tuple(ts: &Vec<Type>, out: &mut String)
    ensures
        final(out)@ == old(out)@ + show_tuple(tview_seq(ts@)),
    decreases tview_seq(ts@), 0nat,
{
    proof { lemma_tview_seq(ts@); }
    let ghost s = tview_seq(ts@);
    let ghost base = out@;
    let mut i: usize = 0;
    while i < ts.len()
        invariant
            i <= ts.len(),
            s == tview_seq(ts@),
            s.len() == ts@.len(),
            forall|j: int| 0 <= j < ts@.len() ==> #[trigger] s[j] == ts@[j]@,
            out@ == base + show_tuple(s.take(i as int)),
        decreases ts.len() - i,
    {
        assert(decreases_to!(s => s[i as int]));
        if i > 0 {
            push_char(out, ' ');
            push_char(out, '*');
            push_char(out, ' ');
        }
        write_component(&ts[i], out);
        proof {
            assert(s.take(i + 1).drop_last() =~= s.take(i as int));
            if i == 0 {
                assert(s.take(1)[0] == s[0]);
            }
            assert(out@ =~= base + show_tuple(s.take(i + 1)));
        }
        i += 1;
    }
    assert(s.take(i as int) =~= s);
}

fn write_fields(fs: &Vec<(String, Type)>, out: &mut String)
    ensures
        final(out)@ == old(out)@ + show_fields(tview_fields(fs@)),
    decreases tview_fields(fs@), 0nat,
{
    proof { lemma_tview_fields(fs@); }
    let ghost s = tview_fields(fs@);
    let ghost base = out@;
    let mut i: usize = 0;
    while i < fs.len()
        invariant
            i <= fs.len(),
            s == tview_fields(fs@),
            s.len() == fs@.len(),
            forall|j: int| 0 <= j < fs@.len() ==> #[trigger] s[j] == (fs@[j].0@, fs@[j].1@),
            out@ == base + show_fields(s.take(i as int)),
        decreases fs.len() - i,
    {
        assert(decreases_to!(s => s[i as int]));
        assert(decreases_to!(s[i as int] => s[i as int].1));
        if i > 0 {
            push_comma_sep(out);
        }
        push_str(out, fs[i].0.as_str());
        push_char(out, ':');
        push_char(out, ' ');
        write_type(&fs[i].1, out);
        proof {
            assert(s.take(i + 1).drop_last() =~= s.take(i as int));
            if i == 0 {
                assert(s.take(1)[0] == s[0]);
            }
            assert(out@ =~= base + show_fields(s.take(i + 1)));
        }
        i += 1;
    }
    assert(s.take(i as int) =~= s);
}

impl Type {
    /// The text of this type, e.g. `int list`, `(int -> int) -> int`, `{x: int, y: int}`.
    pub fn to_string(&self) -> (s: String)
        ensures
            s@ == show(self@),
    {
        let mut s = String::new();
        write_type(self, &mut s);
        assert(s@ =~= show(self@));
        s
    }
}

fn contains_var_seq(ts: &Vec<Type>, var: TypeVar) -> (b: bool)
    ensures
        b == fv_seq(tview_seq(ts@)).contains(var.0),
    decreases tview_seq(ts@),
{
    proof {
        lemma_tview_seq(ts@);
        lemma_fv_seq(tview_seq(ts@));
    }
    let mut i: usize = 0;
    while i < ts.len()
        invariant
            i <= ts.len(),
            tview_seq(ts@).len() == ts@.len(),
            forall|j: int| 0 <= j < ts@.len() ==> #[trigger] tview_seq(ts@)[j] == ts@[j]@,
            forall|j: int| 0 <= j < i ==> !fv(#[trigger] tview_seq(ts@)[j]).contains(var.0),
            forall|x: u64| fv_seq(tview_seq(ts@)).contains(x) <==> exists|j: int| 0 <= j < tview_seq(ts@).len() && #[trigger] fv(tview_seq(ts@)[j]).contains(x),
        decreases ts.len() - i,
    {
        assert(decreases_to!(tview_seq(ts@) => tview_seq(ts@)[i as int]));
        if ts[i].contains_var(var) {
            assert(fv(tview_seq(ts@)[i as int]).contains(var.0));
            return true;
        }
        i += 1;
    }
    false
}

fn contains_var_fields(fs: &Vec<(String, Type)>, var: TypeVar) -> (b: bool)
    ensures
        b == fv_fields(tview_fields(fs@)).contains(var.0),
    decreases tview_fields(fs@),
{
    proof {
        lemma_tview_fields(fs@);
        lemma_fv_fields(tview_fields(fs@));
    }
    let mut i: usize = 0;
    while i < fs.len()
        invariant
            i <= fs.len(),
            tview_fields(fs@).len() == fs@.len(),
            forall|j: int| 0 <= j < fs@.len() ==> #[trigger] tview_fields(fs@)[j] == (fs@[j].0@, fs@[j].1@),
            forall|j: int| 0 <= j < i ==> !fv(#[trigger] tview_fields(fs@)[j].1).contains(var.0),
            forall|x: u64| fv_fields(tview_fields(fs@)).contains(x) <==> exists|j: int| 0 <= j < tview_fields(fs@).len() && #[trigger] fv(tview_fields(fs@)[j].1).contains(x),
        decreases fs.len() - i,
    {
        assert(decreases_to!(tview_fields(fs@) => tview_fields(fs@)[i as int].1));
        if fs[i].1.contains_var(var) {
            assert(fv(tview_fields(fs@)[i as int].1).contains(var.0));
            return true;
        }
        i += 1;
    }
    false
}


// ========== Type schemes ==========

/// A type scheme (polymorphic type): a type with universally quantified variables,
/// e.g. `forall 'a. 'a -> 'a`.
#[derive(Debug, PartialEq, Eq)]
pub struct TypeScheme {
    /// The quantified type variables
    pub vars: Vec<TypeVar>,
    /// The body type
    pub ty: Type,
}

/// A scheme is seen as its quantified variables and its body.
impl View for TypeScheme {
    type V = (Seq<TypeVar>, TypeV);

    open spec fn view(&self) -> (Seq<TypeVar>, TypeV) {
        (self.vars@, self.ty@)
    }
}

/// The free variables of a scheme seen as its variables and body.
pub open spec fn scheme_fv_v(s: (Seq<TypeVar>, TypeV)) -> Set<u64> {
    fv(s.1).difference(var_ids(s.0))
}

/// The identifiers of the quantified variables.
pub open spec fn scheme_bound(s: TypeScheme) -> Set<u64> {
    var_ids(s.vars@)
}

/// The free variables of a scheme: those of its body that are not quantified.
pub open spec fn scheme_fv(s: TypeScheme) -> Set<u64> {
    fv(s.ty@).difference(var_ids(s.vars@))
}

/// `forall 'a 'b. body`, or just the body when nothing is quantified.
pub open spec fn show_scheme(vars: Seq<TypeVar>, ty: TypeV) -> Seq<char> {
    if vars.len() == 0 {
        show(ty)
    } else {
        seq!['f', 'o', 'r', 'a', 'l', 'l'] + show_var_list(vars) + seq!['.', ' '] + show(ty)
    }
}

/// Each variable preceded by a space.
pub open spec fn show_var_list(vars: Seq<TypeVar>) -> Seq<char>
    decreases vars.len(),
{
    if vars.len() == 0 {
        Seq::empty()
    } else {
        show_var_list(vars.drop_last()) + seq![' '] + var_name(vars.last().0)
    }
}

fn copy_vars(vars: &Vec<TypeVar>) -> (r: Vec<TypeVar>)
    ensures
        r@ == vars@,
{
    let mut r: Vec<TypeVar> = Vec::new();
    let mut i: usize = 0;
    while i < vars.len()
        invariant
            i <= vars@.len(),
            r@ == vars@.take(i as int),
        decreases vars.len() - i,
    {
        r.push(vars[i]);
        i += 1;
        assert(r@ =~= vars@.take(i as int));
    }
    assert(vars@.take(i as int) =~= vars@);
    r
}

impl Clone for TypeScheme {
    fn clone(&self) -> (r: Self)
        ensures
            r.vars@ == self.vars@,
            r.ty@ == self.ty@,
    {
        TypeScheme { vars: copy_vars(&self.vars), ty: self.ty.clone() }
    }
}

impl TypeScheme {
    /// Create a monomorphic type scheme (no quantification).
    pub fn mono(ty: Type) -> (s: Self)
        ensures
            s.vars@ == Seq::<TypeVar>::empty(),
            s.ty == ty,
    {
        TypeScheme { vars: Vec::new(), ty }
    }

    /// Create a polymorphic type scheme.
    pub fn poly(vars: Vec<TypeVar>, ty: Type) -> (s: Self)
        ensures
            s.vars == vars,
            s.ty == ty,
    {
        TypeScheme { vars, ty }
    }

    /// Get the free type variables (those not quantified), each once.
    pub fn free_vars(&self) -> (r: Vec<TypeVar>)
        ensures
            distinct_vars(r@),
            var_ids(r@) == scheme_fv(*self),
    {
        let all = self.ty.free_vars();
        let mut r: Vec<TypeVar> = Vec::new();
        let mut i: usize = 0;
        while i < all.len()
            invariant
                i <= all@.len(),
                distinct_vars(all@),
                var_ids(all@) == fv(self.ty@),
                distinct_vars(r@),
                forall|j: int| 0 <= j < r@.len() ==> exists|k: int| 0 <= k < i && #[trigger] r@[j] == all@[k],
                var_ids(r@) == var_ids(all@.take(i as int)).difference(var_ids(self.vars@)),
            decreases all.len() - i,
        {
            let v = all[i];
            let ghost prev = r@;
            proof {
                assert(all@.take(i + 1) =~= all@.take(i as int).push(v));
                lemma_var_ids_push(all@.take(i as int), v);
            }
            if !has_var(&self.vars, v) {
                r.push(v);
                proof {
                    lemma_var_ids_push(prev, v);
                    assert forall|a: int, b: int| 0 <= a < b < r@.len() implies r@[a] != r@[b] by {
                        if b == prev.len() {
                            let k = choose|k: int| 0 <= k < i && #[trigger] prev[a] == all@[k];
                            assert(all@[k] != all@[i as int]);
                        }
                    }
                    assert forall|j: int| 0 <= j < r@.len() implies exists|k: int| 0 <= k < i + 1 && #[trigger] r@[j] == all@[k] by {
                        if j == prev.len() {
                            assert(r@[j] == all@[i as int]);
                        } else {
                            let k = choose|k: int| 0 <= k < i && #[trigger] prev[j] == all@[k];
                            assert(r@[j] == all@[k]);
                        }
                    }
                    assert(var_ids(r@) =~= var_ids(all@.take(i + 1)).difference(var_ids(self.vars@)));
                }
            } else {
                assert(var_ids(r@) =~= var_ids(all@.take(i + 1)).difference(var_ids(self.vars@)));
            }
            i += 1;
        }
        assert(all@.take(i as int) =~= all@);
        r
    }

    /// The text of the scheme: `forall 'a. 'a -> 'a`, or the body alone when monomorphic.
    pub fn to_string(&self) -> (s: String)
        ensures
            s@ == show_scheme(self.vars@, self.ty@),
    {
        let mut s = String::new();
        if self.vars.len() == 0 {
            write_type(&self.ty, &mut s);
        } else {
            push_char(&mut s, 'f');
            push_char(&mut s, 'o');
            push_char(&mut s, 'r');
            push_char(&mut s, 'a');
            push_char(&mut s, 'l');
            push_char(&mut s, 'l');
            let ghost base = s@;
            let mut i: usize = 0;
            while i < self.vars.len()
                invariant
                    i <= self.vars@.len(),
                    s@ == base + show_var_list(self.vars@.take(i as int)),
                decreases self.vars.len() - i,
            {
                push_char(&mut s, ' ');
                push_var_name(&mut s, self.vars[i].0);
                proof {
                    assert(self.vars@.take(i + 1).drop_last() =~= self.vars@.take(i as int));
                    assert(s@ =~= base + show_var_list(self.vars@.take(i + 1)));
                }
                i += 1;
            }
            assert(self.vars@.take(i as int) =~= self.vars@);
            push_char(&mut s, '.');
            push_char(&mut s, ' ');
            write_type(&self.ty, &mut s);
        }
        assert(s@ =~= show_scheme(self.vars@, self.ty@));
        s
    }
}

pub proof fn lemma_var_ids_push(s: Seq<TypeVar>, v: TypeVar)
    ensures
        var_ids(s.push(v)) == var_ids(s).insert(v.0),
{
    assert forall|x: u64| var_ids(s.push(v)).contains(x) <==> var_ids(s).insert(v.0).contains(x) by {
        if var_ids(s.push(v)).contains(x) {
            let k = choose|k: int| 0 <= k < s.len() + 1 && s.push(v)[k].0 == x;
            if k < s.len() {
                assert(s[k].0 == x);
            }
        }
        if var_ids(s).contains(x) {
            let k = choose|k: int| 0 <= k < s.len() && s[k].0 == x;
            assert(s.push(v)[k].0 == x);
        }
        if x == v.0 {
            assert(s.push(v)[s.len() as int].0 == x);
        }
    }
    assert(var_ids(s.push(v)) =~= var_ids(s).insert(v.0));
}


/// A type class constraint: the type must have an instance of the class.
#[derive(Debug)]
pub struct Constraint {
    /// The class the type must belong to
    pub class_name: String,
    /// The constrained type
    pub ty: Type,
}

impl Constraint {
    /// Create a constraint.
    pub fn new(class_name: String, ty: Type) -> (c: Self)
        ensures
            c.class_name == class_name,
            c.ty == ty,
    {
        Constraint { class_name, ty }
    }
}

// ========== Laws ==========

/// Law: reading a curried function type back gives its argument types and its result,
/// where the result is not itself a function type.
pub proof fn law_arrows_round_trip(params: Seq<TypeV>, ret: TypeV)
    requires
        !(ret is Arrow),
    ensures
        arrow_args(arrows_spec(params, ret)) == (params, ret),
    decreases params.len(),
{
    if params.len() > 0 {
        law_arrows_round_trip(params.drop_first(), ret);
        assert(seq![params[0]] + params.drop_first() =~= params);
    }
}

/// The number of the variable handed out `k` calls after a supply stood at `n`.
pub open spec fn nth_var(n: u64, k: nat) -> u64 {
    ((n as int + k) % (u64::MAX as int + 1)) as u64
}

/// Law: each variable a supply hands out carries the number after the previous one, and
/// of the first 2^64 variables a supply hands out no two are the same.
pub proof fn law_fresh_distinct(n: u64, i: nat, j: nat)
    requires
        i < j <= u64::MAX as nat,
    ensures
        nth_var(n, i) != nth_var(n, j),
        next_after(nth_var(n, i)) == nth_var(n, i + 1),
{
    let m: int = u64::MAX as int + 1;
    let a: int = n as int + i;
    let b: int = n as int + j;
    assert(0 <= a < 2 * m);
    assert(0 <= b < 2 * m);
    assert(a % m == if a < m { a } else { a - m }) by (nonlinear_arith)
        requires 0 <= a < 2 * m, m > 0;
    assert(b % m == if b < m { b } else { b - m }) by (nonlinear_arith)
        requires 0 <= b < 2 * m, m > 0;
    assert((a + 1) % m == if a + 1 < m { a + 1 } else { a + 1 - m }) by (nonlinear_arith)
        requires 0 <= a + 1 < 2 * m, m > 0;
}

} // verus!
