//! Type inference for the Neap type system
//!
//! Implements Algorithm W for Hindley-Milner type inference.

use vstd::prelude::*;
use crate::syntax::ast::{
    BinOp, CommandPart, DatatypeDecl, Decl, DoStmt, Expr, FunDecl, ImplDecl, Literal, MatchArm, Pattern,
    Program, TraitDecl, TypeDecl, TypeExpr, UnOp, ValDecl,
};
use crate::syntax::span::{Span, Spanned};
use super::builtins::{builtin_bindings, builtin_supply_after, standard_classes, standard_instances};
use super::env::TypeEnv;
use super::error::TypeError;
use super::model::{TypeV, acyclic, dapply, idempotent, lemma_dapply_seq, lemma_idempotent_acyclic};
use super::repr::{Constraint, Type, TypeScheme, TypeVar, TypeVarSupply, con0, lemma_tview_fields, lemma_tview_seq, tview_seq};
use super::subst::Substitution;
use super::unify::{heads_clash, unify};

verus! {

/// The type a literal has.
pub open spec fn literal_type(l: Literal) -> TypeV {
    match l {
        Literal::Int(_) => con0("int"@),
        Literal::Float(_) => con0("float"@),
        Literal::String(_) => con0("string"@),
        Literal::Char(_) => con0("char"@),
        Literal::Bool(_) => con0("bool"@),
    }
}

/// The type of a command's result: its exit code and what it printed.
pub open spec fn command_result_type() -> TypeV {
    TypeV::Record(seq![
        ("exitCode"@, con0("int"@)),
        ("stdout"@, con0("string"@)),
        ("stderr"@, con0("string"@)),
    ])
}

/// The type an expression has whatever the environment: that of a literal, of
/// unit and of an environment variable's lookup.
pub open spec fn ground_type(e: Expr) -> Option<TypeV> {
    match e {
        Expr::Lit(l) => Some(literal_type(l)),
        Expr::Unit => Some(con0("unit"@)),
        Expr::EnvVar(_) => Some(TypeV::Con("option"@, seq![con0("string"@)])),
        _ => None,
    }
}

/// The ground types and the command result type have no type variables.
proof fn lemma_closed_types(e: Expr)
    ensures
        ground_type(e) is Some ==> super::model::fv(ground_type(e)->0) =~= Set::<u64>::empty(),
        super::model::fv(command_result_type()) =~= Set::<u64>::empty(),
{
    let empty = Seq::<TypeV>::empty();
    assert(super::model::fv_seq(empty) =~= Set::<u64>::empty());
    assert(super::model::fv(con0("int"@)) =~= Set::<u64>::empty());
    assert(super::model::fv(con0("string"@)) =~= Set::<u64>::empty());
    let s = seq![con0("string"@)];
    assert(s.drop_last() =~= empty);
    assert(super::model::fv_seq(s) =~= Set::<u64>::empty());
    let fs = seq![
        ("exitCode"@, con0("int"@)),
        ("stdout"@, con0("string"@)),
        ("stderr"@, con0("string"@)),
    ];
    assert(fs.drop_last().drop_last().drop_last() =~= Seq::<(Seq<char>, TypeV)>::empty());
    assert(super::model::fv_fields(fs.drop_last().drop_last().drop_last()) =~= Set::<u64>::empty());
    assert(super::model::fv_fields(fs.drop_last().drop_last()) =~= Set::<u64>::empty());
    assert(super::model::fv_fields(fs.drop_last()) =~= Set::<u64>::empty());
    assert(super::model::fv_fields(fs) =~= Set::<u64>::empty());
    if ground_type(e) is Some {
        assert(super::model::fv(ground_type(e)->0) =~= Set::<u64>::empty());
    }
}

/// The type a scheme is instantiated to when fresh type variables are numbered
/// from `n` on.
pub open spec fn instance_of(sc: super::env::SchemeV, n: u64) -> TypeV {
    super::model::dapply(super::subst::inst_map(sc.0, n), sc.1)
}

/// The type checker.
pub struct TypeChecker {
    /// The current type environment
    env: TypeEnv,
    /// Accumulated substitution
    subst: Substitution,
    /// Collected errors (for error recovery)
    errors: Vec<TypeError>,
    /// Collected type class constraints during inference
    constraints: Vec<Constraint>,
    /// The source of fresh type variables
    supply: TypeVarSupply,
}

impl Default for TypeChecker {
    fn default() -> (r: Self)
        ensures
            r.wf(),
    {
        Self::new()
    }
}

/// An expression that no typing admits, seen from its shape alone: a value of ground type
/// applied to another, a condition of ground type other than `bool`, or a field taken
/// from a value of ground type.
pub open spec fn surely_ill_typed(e: Expr) -> bool {
    match e {
        Expr::BinOp(_, _, _) => binop_clash(e) is Some,
        Expr::App(f, a) => ground_type(f.value) is Some && ground_type(a.value) is Some,
        Expr::If(c, _, _) => ground_type(c.value) is Some && heads_clash(ground_type(c.value)->0, con0("bool"@)),
        Expr::Field(x, _) => ground_type(x.value) is Some,
        _ => false,
    }
}

/// The two types that cannot be made to fit, in a binary operation whose operands have
/// ground types: arithmetic and comparison need both operands of one type, the logical
/// operators need booleans and concatenation strings. `None` where the operands are not
/// both of ground type or no such clash of head constructors shows.
pub open spec fn binop_clash(e: Expr) -> Option<(TypeV, TypeV)> {
    match e {
        Expr::BinOp(op, l, r) => match (ground_type(l.value), ground_type(r.value)) {
            (Some(a), Some(b)) => match op {
                BinOp::Add | BinOp::Sub | BinOp::Mul | BinOp::Div | BinOp::Mod
                | BinOp::Eq | BinOp::Neq | BinOp::Lt | BinOp::Le | BinOp::Gt | BinOp::Ge =>
                    if heads_clash(a, b) { Some((a, b)) } else { None },
                BinOp::And | BinOp::Or =>
                    if heads_clash(a, con0("bool"@)) { Some((a, con0("bool"@))) }
                    else if a == con0("bool"@) && heads_clash(b, con0("bool"@)) { Some((b, con0("bool"@))) }
                    else { None },
                BinOp::Concat =>
                    if heads_clash(a, con0("string"@)) { Some((a, con0("string"@))) }
                    else if a == con0("string"@) && heads_clash(b, con0("string"@)) { Some((b, con0("string"@))) }
                    else { None },
                _ => None,
            },
            _ => None,
        },
        _ => None,
    }
}

/// The type an operand has before inference does anything: a ground type, or the type
/// of a variable bound to a scheme with no quantified variable.
pub open spec fn known_type(e: Expr, bindings: Map<Seq<char>, super::env::SchemeV>) -> Option<TypeV> {
    if ground_type(e) is Some {
        ground_type(e)
    } else if e is Var && bindings.dom().contains(e->Var_0@) && bindings[e->Var_0@].0.len() == 0 {
        Some(bindings[e->Var_0@].1)
    } else {
        None
    }
}

/// The comparison operators, which need both operands of one type.
pub open spec fn is_comparison(op: BinOp) -> bool {
    op == BinOp::Eq || op == BinOp::Neq || op == BinOp::Lt || op == BinOp::Le || op == BinOp::Gt
        || op == BinOp::Ge
}

/// In a comparison whose operands have known types that the substitution `s0` leaves
/// alone, the substitution `s1` makes the two types equal (up to the order of record
/// fields).
pub open spec fn comparison_unifies(e: Expr, bindings: Map<Seq<char>, super::env::SchemeV>, s0: Map<u64, TypeV>,
    s1: Map<u64, TypeV>) -> bool {
    match e {
        Expr::BinOp(op, l, r) => match (known_type(l.value, bindings), known_type(r.value, bindings)) {
            (Some(a), Some(b)) => (is_comparison(op) && super::model::fv(a).union(super::model::fv(b)).disjoint(s0.dom()))
                ==> super::order::teq(dapply(s1, a), dapply(s1, b)),
            _ => true,
        },
        _ => true,
    }
}

/// In an arithmetic operation whose operands have known types that the substitution `s0`
/// leaves alone, the substitution `s1` makes the two types equal, and the result type `t`
/// is that type (each up to the order of record fields).
pub open spec fn arithmetic_unifies(e: Expr, bindings: Map<Seq<char>, super::env::SchemeV>, s0: Map<u64, TypeV>,
    s1: Map<u64, TypeV>, t: TypeV) -> bool {
    match e {
        Expr::BinOp(op, l, r) => match (known_type(l.value, bindings), known_type(r.value, bindings)) {
            (Some(a), Some(b)) => (is_arithmetic(op) && super::model::fv(a).union(super::model::fv(b)).disjoint(s0.dom()))
                ==> super::order::teq(dapply(s1, a), dapply(s1, b)) && super::order::teq(t, dapply(s1, a)),
            _ => true,
        },
        _ => true,
    }
}

/// The arithmetic operators, which need both operands of one type and give that type.
pub open spec fn is_arithmetic(op: BinOp) -> bool {
    op == BinOp::Add || op == BinOp::Sub || op == BinOp::Mul || op == BinOp::Div || op == BinOp::Mod
}

/// After an arithmetic operation's operand types were made equal under `s1` and the
/// variable they resolve to was then unified with `int` (giving `s2`), both operand types
/// are `int` under `s2`.
proof fn lemma_arith_default(s1: Map<u64, TypeV>, s2: Map<u64, TypeV>, v: TypeV, a: TypeV, b: TypeV)
    requires
        acyclic(s1),
        v is Var,
        v == dapply(s1, a),
        super::order::teq(dapply(s1, a), dapply(s1, b)),
        super::order::teq(dapply(s2, v), dapply(s2, con0("int"@))),
        exists|u: Map<u64, TypeV>| #[trigger] idempotent(u) && s2 == super::subst::compose_spec(u, s1)
            && u.dom().union(super::model::range_vars(u)).subset_of(super::model::fv(v).union(super::model::fv(con0("int"@)))),
    ensures
        super::order::teq(dapply(s2, a), dapply(s2, b)),
        super::order::teq(con0("int"@), dapply(s2, a)),
{
    let u = choose|u: Map<u64, TypeV>| #[trigger] idempotent(u) && s2 == super::subst::compose_spec(u, s1)
        && u.dom().union(super::model::range_vars(u)).subset_of(super::model::fv(v).union(super::model::fv(con0("int"@))));
    let x = v->Var_0;
    super::model::lemma_dapply_clears(s1, a);
    assert(super::model::fv(v).contains(x));
    assert(!s1.dom().contains(x));
    assert(super::model::fv_seq(Seq::<TypeV>::empty()) =~= Set::<u64>::empty());
    assert(super::model::fv(con0("int"@)) =~= Set::<u64>::empty());
    assert(super::model::fv(v) =~= set![x]);
    lemma_idempotent_acyclic(u);
    assert(super::model::range_vars(u).disjoint(s1.dom())) by {
        assert forall|y: u64| super::model::range_vars(u).contains(y) implies !s1.dom().contains(y) by {
            assert(u.dom().union(super::model::range_vars(u)).contains(y));
        }
    }
    assert(super::subst::chains_apart(u, s1)) by {
        assert forall|y: u64| super::model::range_vars(s1).intersect(s1.dom()).contains(y) implies !u.dom().contains(y) by {
            if u.dom().contains(y) {
                assert(u.dom().union(super::model::range_vars(u)).contains(y));
            }
        }
    }
    super::subst::law_compose_acyclic_in_sequence(u, s1, a);
    super::subst::law_compose_acyclic_in_sequence(u, s1, b);
    super::subst::law_compose_acyclic_in_sequence(u, s1, v);
    super::subst::law_compose_acyclic_in_sequence(u, s1, con0("int"@));
    super::model::lemma_dapply_noop(s1, v);
    super::model::lemma_dapply_noop(s1, con0("int"@));
    super::model::lemma_dapply_noop(u, con0("int"@));
    super::subst::law_idempotent_apply(u, dapply(s1, a));
    super::subst::law_idempotent_apply(u, dapply(s1, b));
    super::order::lemma_teq_sapply(u, dapply(s1, a), dapply(s1, b));
}

/// A declaration that checking always rejects: a value bound to such an expression.
pub open spec fn decl_surely_fails(d: Decl) -> bool {
    d matches Decl::Val(v) && !v.rec && surely_ill_typed(v.expr.value)
}

/// A declaration that checking accepts whenever no class constraints are pending: a type
/// alias, a trait, an impl, or a variable bound to an expression of ground type.
pub open spec fn decl_plainly_checks(d: Decl) -> bool {
    match d {
        Decl::Type(_) | Decl::Trait(_) | Decl::Impl(_) => true,
        Decl::Val(v) => !v.rec && v.ty is None && v.pattern.value is Var && ground_type(v.expr.value) is Some,
        _ => false,
    }
}

/// A declaration that checking always accepts: a type alias, trait or impl, or a datatype
/// whose constructors take no argument.
pub open spec fn decl_surely_passes(d: Decl) -> bool {
    match d {
        Decl::Type(_) | Decl::Trait(_) | Decl::Impl(_) => true,
        Decl::Datatype(dd) => forall|k: int| 0 <= k < dd.constructors@.len() ==> (#[trigger] dd.constructors@[k]).arg is None,
        _ => false,
    }
}

/// After a value declaration that succeeded, a name bound by a variable pattern is in
/// scope, with a monomorphic type.
pub open spec fn val_declared(p: Pattern, ok: bool, bindings: Map<Seq<char>, super::env::SchemeV>) -> bool {
    match p {
        Pattern::Var(n) => ok ==> (bindings.dom().contains(n@) && bindings[n@].0.len() == 0),
        _ => true,
    }
}

/// The first position below `n`, from `from` on, at which `names` holds `name`.
pub open spec fn param_slot(names: Seq<Spanned<String>>, n: int, name: Seq<char>, from: int) -> Option<int>
    decreases names.len() - from,
{
    if 0 <= from && from < names.len() && from < n {
        if names[from].value@ == name { Some(from) } else { param_slot(names, n, name, from + 1) }
    } else {
        None
    }
}

/// The bindings `m` after inserting each of `s` in order.
pub open spec fn inserted(m: Map<Seq<char>, super::env::SchemeV>, s: Seq<(String, TypeScheme)>) -> Map<Seq<char>, super::env::SchemeV>
    decreases s.len(),
{
    if s.len() == 0 {
        m
    } else {
        inserted(m, s.drop_last()).insert(s.last().0@, s.last().1@)
    }
}

/// How many arrows a function type has along its result.
pub open spec fn arrow_depth(t: TypeV) -> nat
    decreases t,
{
    match t {
        TypeV::Arrow(_, b) => 1 + arrow_depth(*b),
        _ => 0,
    }
}

/// The type of a binary operation on two operands of ground type: arithmetic on two
/// operands of one type gives that type, a comparison of two of one type gives `bool`,
/// `&&`/`||` on booleans give `bool`, `^` on strings gives `string`. `None` elsewhere.
pub open spec fn ground_binop_type(e: Expr) -> Option<TypeV> {
    match e {
        Expr::BinOp(op, l, r) => match (ground_type(l.value), ground_type(r.value)) {
            (Some(a), Some(b)) => match op {
                BinOp::Add | BinOp::Sub | BinOp::Mul | BinOp::Div | BinOp::Mod =>
                    if a == b { Some(a) } else { None },
                BinOp::Eq | BinOp::Neq | BinOp::Lt | BinOp::Le | BinOp::Gt | BinOp::Ge =>
                    if a == b { Some(con0("bool"@)) } else { None },
                BinOp::And | BinOp::Or =>
                    if a == con0("bool"@) && b == con0("bool"@) { Some(con0("bool"@)) } else { None },
                BinOp::Concat =>
                    if a == con0("string"@) && b == con0("string"@) { Some(con0("string"@)) } else { None },
                _ => None,
            },
            _ => None,
        },
        _ => None,
    }
}

/// A list type: `list` applied to one argument.
pub open spec fn is_list_type(t: TypeV) -> bool {
    t is Con && t->Con_0 == "list"@ && t->Con_1.len() == 1
}

/// What the type of a binary operation is known to look like: comparisons and the
/// logical operators give `bool`, concatenation `string`, the list operators a list,
/// and arithmetic a type that is not a bare variable.
pub open spec fn binop_result_shape(op: BinOp, t: TypeV) -> bool {
    match op {
        BinOp::Eq | BinOp::Neq | BinOp::Lt | BinOp::Le | BinOp::Gt | BinOp::Ge
            | BinOp::And | BinOp::Or => t == con0("bool"@),
        BinOp::Concat => t == con0("string"@),
        BinOp::Cons | BinOp::Append => is_list_type(t),
        _ => !(t is Var),
    }
}

/// What the type of a unary operation is known to look like: `not` gives `bool`, and
/// negation a type that is not a bare variable.
pub open spec fn unop_result_shape(op: UnOp, t: TypeV) -> bool {
    match op {
        UnOp::Not => t == con0("bool"@),
        UnOp::Neg => !(t is Var),
    }
}

impl TypeChecker {
    /// The accumulated substitution can be applied (it is acyclic).
    pub closed spec fn wf(&self) -> bool {
        acyclic(self.subst@)
    }

    /// The environment's variable bindings.
    pub closed spec fn bindings(&self) -> Map<Seq<char>, super::env::SchemeV> {
        self.env.vars()
    }

    /// The environment's data constructors.
    pub closed spec fn constructors(&self) -> Map<Seq<char>, super::env::SchemeV> {
        self.env.ctors()
    }

    /// The arities of the known type constructors.
    pub closed spec fn known_types(&self) -> Map<Seq<char>, usize> {
        self.env.arities()
    }

    /// How many class constraints are collected and not yet verified.
    pub closed spec fn pending_constraints(&self) -> nat {
        self.constraints@.len()
    }

    /// Errors collected and not yet reported.
    pub closed spec fn pending_errors(&self) -> Seq<TypeError> {
        self.errors@
    }

    /// The accumulated substitution.
    pub closed spec fn substitution(&self) -> Map<u64, TypeV> {
        self.subst@
    }

    /// The number the next fresh type variable will carry.
    pub closed spec fn next_type_var(&self) -> u64 {
        self.supply.next_id()
    }

    /// The environment's type classes.
    pub closed spec fn classes(&self) -> Map<Seq<char>, (Seq<char>, Seq<(Seq<char>, super::env::SchemeV)>)> {
        self.env.classes()
    }

    /// The environment's class instances, in the order they were added.
    pub closed spec fn instances(&self) -> Seq<super::env::InstV> {
        self.env.insts()
    }

    /// Create a new type checker with built-in types, functions and the
    /// standard classes.
    pub fn new() -> (r: Self)
        ensures
            r.wf(),
            r.pending_constraints() == 0,
            r.pending_errors().len() == 0,
            r.bindings() == builtin_bindings(0),
            r.classes() == standard_classes(Map::empty(), builtin_supply_after(0)),
            r.instances() == standard_instances(),
    {
        let mut supply = TypeVarSupply::new();
        let mut env = TypeEnv::with_builtins(&mut supply);
        env.add_standard_classes(&mut supply);
        assert(env.insts() =~= standard_instances());
        let subst = Substitution::new();
        proof { lemma_idempotent_acyclic(subst@); }
        TypeChecker { env, subst, errors: Vec::new(), constraints: Vec::new(), supply }
    }

    /// Create a type checker with a custom environment.
    pub fn with_env(env: TypeEnv) -> (r: Self)
        ensures
            r.wf(),
            r.pending_constraints() == 0,
            r.pending_errors().len() == 0,
            r.bindings() == env.vars(),
            r.next_type_var() == u64::MAX || (r.next_type_var() > 0 && forall|n: Seq<char>| #[trigger] env.vars().dom().contains(n)
                ==> super::env::scheme_vars_below(env.vars()[n], (r.next_type_var() - 1) as u64)),
    {
        let subst = Substitution::new();
        proof { lemma_idempotent_acyclic(subst@); }
        // Fresh variables start above every variable the environment mentions.
        let m = env.max_binding_var();
        let start = if m < u64::MAX { m + 1 } else { m };
        TypeChecker { env, subst, errors: Vec::new(), constraints: Vec::new(), supply: TypeVarSupply::starting_at(start) }
    }

    /// Type check a program.
    pub fn check_program(&mut self, program: &Program) -> (r: Result<(), Vec<TypeError>>)
        requires
            old(self).wf(),
        ensures
            final(self).wf(),
            final(self).pending_errors().len() == 0,
            r matches Err(es) ==> es@.len() > 0
                && es@.len() >= old(self).pending_errors().len()
                && es@.subrange(0, old(self).pending_errors().len() as int) == old(self).pending_errors(),
            (exists|i: int| 0 <= i < program.decls@.len() && decl_surely_fails(#[trigger] program.decls@[i].value))
                ==> r is Err,
            (old(self).pending_errors().len() == 0
                && forall|i: int| 0 <= i < program.decls@.len() ==> decl_surely_passes(#[trigger] program.decls@[i].value))
                ==> r is Ok,
            (old(self).pending_errors().len() == 0 && old(self).pending_constraints() == 0
                && forall|i: int| 0 <= i < program.decls@.len() ==> decl_plainly_checks(#[trigger] program.decls@[i].value))
                ==> r is Ok,
    {
        // Errors collected before this call are reported with this program's.
        let mut errors: Vec<TypeError> = Vec::new();
        std::mem::swap(&mut errors, &mut self.errors);
        let ghost before = errors@;
        let mut i: usize = 0;
        while i < program.decls.len()
            invariant
                self.wf(),
                i <= program.decls@.len(),
                errors@.len() >= before.len(),
                errors@.subrange(0, before.len() as int) == before,
                before == old(self).pending_errors(),
                (exists|j: int| 0 <= j < i && decl_surely_fails(#[trigger] program.decls@[j].value))
                    ==> errors@.len() > before.len(),
                (forall|j: int| 0 <= j < i ==> decl_surely_passes(#[trigger] program.decls@[j].value))
                    ==> errors@.len() == before.len(),
                (old(self).pending_constraints() == 0
                    && forall|j: int| 0 <= j < program.decls@.len() ==> decl_plainly_checks(#[trigger] program.decls@[j].value))
                    ==> (errors@.len() == before.len() && self.pending_constraints() == 0),
            decreases program.decls.len() - i,
        {
            let ghost n = errors@.len();
            match self.check_decl(&program.decls[i]) {
                Ok(()) => {},
                Err(e) => {
                    errors.push(e);
                    proof { assert(errors@.subrange(0, before.len() as int) =~= before); }
                },
            }
            proof {
                assert forall|j: int| 0 <= j < i + 1 && decl_surely_fails(#[trigger] program.decls@[j].value)
                    implies errors@.len() > before.len() by {
                    if j == i {
                        assert(errors@.len() > n);
                    }
                }
                if old(self).pending_constraints() == 0
                    && forall|j: int| 0 <= j < program.decls@.len() ==> decl_plainly_checks(#[trigger] program.decls@[j].value) {
                    assert(decl_plainly_checks(program.decls@[i as int].value));
                    assert(errors@.len() == n);
                }
                if forall|j: int| 0 <= j < i + 1 ==> decl_surely_passes(#[trigger] program.decls@[j].value) {
                    assert(decl_surely_passes(program.decls@[i as int].value));
                    assert(errors@.len() == n);
                }
            }
            i += 1;
        }
        self.errors = Vec::new();
        if errors.len() == 0 {
            Ok(())
        } else {
            Err(errors)
        }
    }

    /// Infer the type of an expression.
    pub fn infer_expr(&mut self, expr: &Spanned<Expr>) -> (r: Result<Type, TypeError>)
        requires
            old(self).wf(),
        ensures
            final(self).wf(),
            surely_ill_typed(expr.value) ==> r is Err,
            ground_type(expr.value) matches Some(t) ==> (r matches Ok(x) && x@ == t),
            expr.value is Command ==> (r matches Ok(x) ==> x@ == command_result_type()),
            ground_binop_type(expr.value) is Some ==> (r matches Ok(t) && t@ == ground_binop_type(expr.value)->0),
            r is Ok ==> comparison_unifies(expr.value, old(self).bindings(), old(self).substitution(),
                final(self).substitution()),
    {
        let ty = self.infer(expr)?;
        let r = self.subst.apply(&ty);
        proof {
            lemma_closed_types(expr.value);
            if ground_type(expr.value) is Some || expr.value is Command {
                super::model::lemma_dapply_noop(self.subst@, ty@);
            }
            if ground_binop_type(expr.value) is Some {
                lemma_closed_types(expr.value->BinOp_1.value);
                assert(super::model::fv_seq(Seq::<TypeV>::empty()) =~= Set::<u64>::empty());
                assert(super::model::fv(con0("bool"@)) =~= Set::<u64>::empty());
                assert(super::model::fv(con0("string"@)) =~= Set::<u64>::empty());
                super::model::lemma_dapply_noop(self.subst@, ty@);
            }
        }
        Ok(r)
    }

    /// Get the current environment.
    pub fn env(&self) -> (e: &TypeEnv)
        ensures
            e.vars() == self.bindings(),
            e.ctors() == self.constructors(),
    {
        &self.env
    }

    /// Look up the type of a name in the environment.
    pub fn lookup_type(&self, name: &str) -> (r: Option<Type>)
        ensures
            match r {
                Some(t) => self.bindings().dom().contains(name@) && t@ == self.bindings()[name@].1,
                None => !self.bindings().dom().contains(name@),
            },
    {
        match self.env.lookup(name) {
            Some(scheme) => Some(scheme.ty.clone()),
            None => None,
        }
    }

    /// Register a global variable binding (for REPL use).
    pub fn register_global(&mut self, name: &str, scheme: TypeScheme)
        requires
            old(self).wf(),
        ensures
            final(self).wf(),
            final(self).bindings() == old(self).bindings().insert(name@, scheme@),
    {
        self.env.insert(name.to_owned(), scheme);
    }

    // ========== Substitution and fresh variables ==========

    fn fresh(&mut self) -> (t: Type)
        requires
            old(self).wf(),
        ensures
            final(self).wf(),
            t@ is Var,
            final(self).bindings() == old(self).bindings(),
            final(self).constructors() == old(self).constructors(),
            final(self).substitution() == old(self).substitution(),
            final(self).known_types() == old(self).known_types(),
    {
        Type::var(&mut self.supply)
    }

    fn apply(&self, ty: &Type) -> (r: Type)
        requires
            self.wf(),
        ensures
            r@ == dapply(self.substitution(), ty@),
    {
        self.subst.apply(ty)
    }

    /// Add a unifier of `t1` and `t2` to the accumulated substitution.  Where the result
    /// would be cyclic (so that applying it would never end) this is reported as a
    /// mismatch of the two types and the substitution is left as it was.
    fn absorb(&mut self, s: &Substitution, t1: &Type, t2: &Type) -> (r: Result<(), TypeError>)
        requires
            old(self).wf(),
            idempotent(s@),
        ensures
            final(self).wf(),
            final(self).bindings() == old(self).bindings(),
            final(self).constructors() == old(self).constructors(),
            final(self).known_types() == old(self).known_types(),
            final(self).next_type_var() == old(self).next_type_var(),
            match r {
                Ok(()) => final(self).substitution() == super::subst::compose_spec(s@, old(self).substitution()),
                Err(e) => final(self).substitution() == old(self).substitution()
                    && (e matches TypeError::TypeMismatch { expected, actual } && expected@ == t1@ && actual@ == t2@),
            },
            s@ == Map::<u64, TypeV>::empty() ==> (r is Ok && final(self).substitution() == old(self).substitution()),
    {
        proof { lemma_idempotent_acyclic(s@); }
        if s.is_empty() {
            // Composing with the empty substitution changes nothing.
            proof {
                s.lemma_finite();
                assert(s@.dom() =~= Set::<u64>::empty()) by {
                    if exists|v: u64| s@.dom().contains(v) {
                        let v = choose|v: u64| s@.dom().contains(v);
                        vstd::set_lib::lemma_len_subset(set![v], s@.dom());
                    }
                };
                let c = super::subst::compose_spec(s@, self.subst@);
                assert forall|v: u64| #[trigger] c.dom().contains(v) implies c[v] == self.subst@[v] by {
                    super::model::lemma_dapply_noop(s@, self.subst@[v]);
                }
                assert(c =~= self.subst@);
            }
            return Ok(());
        }
        let mut next = self.subst.clone();
        next.extend(s);
        if next.is_acyclic() {
            self.subst = next;
            Ok(())
        } else {
            Err(TypeError::TypeMismatch { expected: t1.clone(), actual: t2.clone() })
        }
    }

    /// Unify two types and add the unifier to the accumulated substitution.
    fn unify_into(&mut self, t1: &Type, t2: &Type) -> (r: Result<(), TypeError>)
        requires
            old(self).wf(),
        ensures
            final(self).wf(),
            final(self).bindings() == old(self).bindings(),
            final(self).constructors() == old(self).constructors(),
            final(self).known_types() == old(self).known_types(),
            heads_clash(t1@, t2@) ==> (r matches Err(TypeError::TypeMismatch { expected, actual })
                && expected@ == t1@ && actual@ == t2@),
            t1@ == t2@ ==> (r is Ok && final(self).substitution() == old(self).substitution()),
            (r is Ok && super::model::fv(t1@).union(super::model::fv(t2@)).disjoint(old(self).substitution().dom()))
                ==> super::order::teq(dapply(final(self).substitution(), t1@), dapply(final(self).substitution(), t2@)),
            r is Ok ==> exists|u: Map<u64, TypeV>| #[trigger] idempotent(u)
                && final(self).substitution() == super::subst::compose_spec(u, old(self).substitution())
                && u.dom().union(super::model::range_vars(u)).subset_of(super::model::fv(t1@).union(super::model::fv(t2@))),
    {
        let s = unify(t1, t2)?;
        let r = self.absorb(&s, t1, t2);
        proof {
            let o = old(self).substitution();
            let f = super::model::fv(t1@).union(super::model::fv(t2@));
            if r is Ok && f.disjoint(o.dom()) {
                lemma_idempotent_acyclic(s@);
                assert(super::model::range_vars(s@).disjoint(o.dom())) by {
                    assert forall|x: u64| super::model::range_vars(s@).contains(x) implies !o.dom().contains(x) by {
                        assert(s@.dom().union(super::model::range_vars(s@)).contains(x));
                    }
                }
                assert(super::subst::chains_apart(s@, o)) by {
                    assert forall|x: u64| super::model::range_vars(o).intersect(o.dom()).contains(x) implies !s@.dom().contains(x) by {
                        if s@.dom().contains(x) {
                            assert(s@.dom().union(super::model::range_vars(s@)).contains(x));
                        }
                    }
                }
                super::subst::law_compose_acyclic_in_sequence(s@, o, t1@);
                super::subst::law_compose_acyclic_in_sequence(s@, o, t2@);
                assert(super::model::fv(t1@).disjoint(o.dom()));
                assert(super::model::fv(t2@).disjoint(o.dom()));
                super::model::lemma_dapply_noop(o, t1@);
                super::model::lemma_dapply_noop(o, t2@);
            }
        }
        r
    }

    /// Instantiate a scheme with fresh variables (a renaming that would be cyclic is
    /// reported as the quantified variable occurring in the scheme's type).
    pub(crate) fn instantiate(&mut self, scheme: &TypeScheme) -> (r: Result<Type, TypeError>)
        requires
            old(self).wf(),
        ensures
            final(self).wf(),
            final(self).bindings() == old(self).bindings(),
            final(self).constructors() == old(self).constructors(),
            final(self).substitution() == old(self).substitution(),
            final(self).next_type_var() == super::subst::advance(old(self).next_type_var(), scheme.vars@.len()),
            match r {
                Ok(t) => t@ == instance_of(scheme@, old(self).next_type_var()),
                Err(e) => scheme.vars@.len() > 0
                    && (e matches TypeError::InfiniteType { var, ty } && var == scheme.vars@[0] && ty@ == scheme.ty@),
            },
            idempotent(super::subst::inst_map(scheme.vars@, old(self).next_type_var())) ==> r is Ok,
    {
        match scheme.instantiate_checked(&mut self.supply) {
            Some(t) => Ok(t),
            None => Err(TypeError::InfiniteType { var: scheme.vars[0], ty: scheme.ty.clone() }),
        }
    }
}

impl TypeChecker {
    // ========== Declaration Type Checking ==========

    /// Check a single declaration (for REPL use).
    pub fn check_decl(&mut self, decl: &Spanned<Decl>) -> (r: Result<(), TypeError>)
        requires
            old(self).wf(),
        ensures
            final(self).wf(),
            decl_surely_passes(decl.value) ==> r is Ok,
            (decl_plainly_checks(decl.value) && old(self).pending_constraints() == 0)
                ==> (r is Ok && final(self).pending_constraints() == 0),
            match decl.value {
                Decl::Trait(_) | Decl::Impl(_) => r is Ok && *final(self) == *old(self),
                Decl::Type(td) => r is Ok && final(self).bindings() == old(self).bindings()
                    && final(self).known_types() == old(self).known_types().insert(td.name.value@, td.params@.len() as usize),
                Decl::Datatype(dd) => {
                    &&& final(self).bindings() == old(self).bindings()
                    &&& final(self).known_types() == old(self).known_types().insert(dd.name.value@, dd.params@.len() as usize)
                    &&& (forall|k: int| 0 <= k < dd.constructors@.len() ==> (#[trigger] dd.constructors@[k]).arg is None) ==> r is Ok
                    &&& r is Ok ==> forall|k: int| 0 <= k < dd.constructors@.len()
                        ==> final(self).constructors().dom().contains((#[trigger] dd.constructors@[k]).name.value@)
                },
                Decl::Val(v) => val_declared(v.pattern.value, r is Ok, final(self).bindings())
                    && ((!v.rec && surely_ill_typed(v.expr.value)) ==> r is Err)
                    && ((!v.rec && v.ty is None && v.pattern.value is Var && ground_type(v.expr.value) is Some
                        && old(self).pending_constraints() == 0) ==> r is Ok),
                Decl::Fun(f) => {
                    &&& f.clauses@.len() == 0 ==> (r is Ok && *final(self) == *old(self))
                    &&& (r is Ok && f.clauses@.len() > 0) ==> final(self).bindings().dom().contains(f.name.value@)
                },
            },
    {
        match &decl.value {
            Decl::Val(val) => self.check_val_decl(val, decl.span),
            Decl::Fun(fun) => self.check_fun_decl(fun, decl.span),
            Decl::Type(ty) => self.check_type_decl(ty),
            Decl::Datatype(dt) => self.check_datatype_decl(dt),
            Decl::Trait(tr) => self.check_trait_decl(tr),
            Decl::Impl(im) => self.check_impl_decl(im),
        }
    }

    fn check_val_decl(&mut self, decl: &ValDecl, span: Span) -> (r: Result<(), TypeError>)
        requires
            old(self).wf(),
        ensures
            final(self).wf(),
            (!decl.rec && surely_ill_typed(decl.expr.value)) ==> r is Err,
            (!decl.rec && decl.ty is None && decl.pattern.value is Var && ground_type(decl.expr.value) is Some
                && old(self).pending_constraints() == 0) ==> r is Ok,
            r is Ok ==> final(self).pending_constraints() == 0,
            val_declared(decl.pattern.value, r is Ok, final(self).bindings()),
    {
        let expr_ty = if decl.rec {
            // For recursive bindings, we need to add a placeholder type first
            let var = self.fresh();
            let name = self.pattern_name(&decl.pattern)?;
            let old_env = self.env.clone();
            self.env.insert(name, TypeScheme::mono(var.clone()));
            let inferred = self.infer(&decl.expr)?;
            self.unify_into(&var, &inferred)?;
            // Restore and generalize
            self.env = old_env;
            self.apply(&inferred)
        } else {
            self.infer(&decl.expr)?
        };
        // Check type annotation if present
        let final_ty = match &decl.ty {
            Some(ann) => {
                let ann_ty = self.resolve_type_expr(ann)?;
                match unify(&expr_ty, &ann_ty) {
                    Ok(s) => {
                        self.absorb(&s, &expr_ty, &ann_ty)?;
                        self.apply(&ann_ty)
                    },
                    Err(_) => {
                        return Err(TypeError::AnnotationMismatch {
                            annotation: ann_ty.clone(),
                            inferred: self.apply(&expr_ty),
                            span,
                        });
                    },
                }
            },
            None => self.apply(&expr_ty),
        };
        // Bind pattern variables
        self.bind_pattern(&decl.pattern, &final_ty)?;
        // Verify that all collected constraints can be satisfied
        self.verify_constraints(span)
    }

    /// Verify that all collected constraints can be satisfied.
    ///
    /// After type inference, we apply the accumulated substitution to the
    /// constraints and check that instances exist for each concrete type.
    fn verify_constraints(&mut self, span: Span) -> (r: Result<(), TypeError>)
        requires
            old(self).wf(),
        ensures
            final(self).wf(),
            final(self).constraints@.len() == 0,
            old(self).constraints@.len() == 0 ==> r is Ok,
            final(self).bindings() == old(self).bindings(),
            final(self).constructors() == old(self).constructors(),
            final(self).known_types() == old(self).known_types(),
    {
        let mut pending: Vec<Constraint> = Vec::new();
        std::mem::swap(&mut pending, &mut self.constraints);
        let ghost n0 = pending@.len();
        assert(n0 == old(self).constraints@.len());
        // Apply substitution to get concrete types
        let mut constraints: Vec<Constraint> = Vec::new();
        let mut i: usize = 0;
        while i < pending.len()
            invariant
                self.wf(),
                self.constraints@.len() == 0,
                n0 == old(self).constraints@.len(),
                n0 == pending@.len(),
                constraints@.len() == i,
                i <= pending@.len(),
                self.bindings() == old(self).bindings(),
                self.constructors() == old(self).constructors(),
                self.known_types() == old(self).known_types(),
            decreases pending.len() - i,
        {
            let ty = self.apply(&pending[i].ty);
            constraints.push(Constraint::new(pending[i].class_name.clone(), ty));
            i += 1;
        }
        let mut k: usize = 0;
        while k < constraints.len()
            invariant
                constraints@.len() == n0,
                self.wf(),
                self.constraints@.len() == 0,
                n0 == old(self).constraints@.len(),
                self.bindings() == old(self).bindings(),
                self.constructors() == old(self).constructors(),
                self.known_types() == old(self).known_types(),
            decreases constraints.len() - k,
        {
            let c = &constraints[k];
            // Skip constraints on type variables (they're polymorphic)
            if !c.ty.is_var() {
                // Check that an instance exists
                if self.env.find_instance(c.class_name.as_str(), &c.ty).is_none() {
                    return Err(TypeError::MissingInstance {
                        class_name: c.class_name.clone(),
                        ty: c.ty.clone(),
                        span,
                    });
                }
            }
            k += 1;
        }
        Ok(())
    }

    fn check_fun_decl(&mut self, decl: &FunDecl, _span: Span) -> (r: Result<(), TypeError>)
        requires
            old(self).wf(),
        ensures
            final(self).wf(),
            decl.clauses@.len() == 0 ==> (r is Ok && *final(self) == *old(self)),
            (r is Ok && decl.clauses@.len() > 0) ==> final(self).bindings().dom().contains(decl.name.value@),
    {
        // For now, just handle single-clause functions
        if decl.clauses.len() == 0 {
            return Ok(());
        }
        let clause = &decl.clauses[0];
        // Create type variables for parameters
        let mut param_tys: Vec<Type> = Vec::new();
        let mut i: usize = 0;
        while i < clause.params.len()
            invariant
                self.wf(),
                param_tys@.len() == i,
                i <= clause.params@.len(),
            decreases clause.params.len() - i,
        {
            param_tys.push(self.fresh());
            i += 1;
        }
        let ret_ty = self.fresh();
        // Build the function type
        let fun_ty = Type::arrows(copy_types(&param_tys), ret_ty.clone());
        // Add function to environment (for recursion)
        self.env.insert(decl.name.value.clone(), TypeScheme::mono(fun_ty.clone()));
        // Extend environment with parameters
        let mut param_bindings: Vec<(String, TypeScheme)> = Vec::new();
        let mut j: usize = 0;
        while j < clause.params.len()
            invariant
                self.wf(),
                param_tys@.len() == clause.params@.len(),
                decl.clauses@.len() > 0,
            decreases clause.params.len() - j,
        {
            self.collect_pattern_bindings(&clause.params[j], &param_tys[j], &mut param_bindings)?;
            j += 1;
        }
        let old_env = self.env.clone();
        self.insert_all(param_bindings);
        // Infer body type
        let body_ty = self.infer(&clause.body)?;
        // Unify with return type
        self.unify_into(&ret_ty, &body_ty)?;
        // Check result type annotation if present
        match &clause.result_ty {
            Some(ann) => {
                let ann_ty = self.resolve_type_expr(ann)?;
                let actual_ret = self.apply(&ret_ty);
                self.unify_into(&actual_ret, &ann_ty)?;
            },
            None => {},
        }
        // Restore environment
        self.env = old_env;
        // Generalize and update binding
        let final_ty = self.apply(&fun_ty);
        let scheme = self.env.generalize(&final_ty);
        self.env.insert(decl.name.value.clone(), scheme);
        // Verify constraints on concrete types within the function
        self.verify_constraints(decl.name.span)
    }

    /// Add bindings to the environment, in order.
    fn insert_all(&mut self, bindings: Vec<(String, TypeScheme)>)
        requires
            old(self).wf(),
        ensures
            final(self).wf(),
            final(self).bindings() == inserted(old(self).bindings(), bindings@),
            final(self).constructors() == old(self).constructors(),
            final(self).constraints@ == old(self).constraints@,
            final(self).substitution() == old(self).substitution(),
            final(self).known_types() == old(self).known_types(),
    {
        let mut i: usize = 0;
        while i < bindings.len()
            invariant
                self.wf(),
                i <= bindings@.len(),
                self.bindings() == inserted(old(self).bindings(), bindings@.subrange(0, i as int)),
                self.constraints@ == old(self).constraints@,
                self.constructors() == old(self).constructors(),
                self.substitution() == old(self).substitution(),
                self.known_types() == old(self).known_types(),
            decreases bindings.len() - i,
        {
            let name = bindings[i].0.clone();
            let scheme = bindings[i].1.clone();
            self.env.insert(name, scheme);
            proof {
                assert(bindings@.subrange(0, i + 1).drop_last() =~= bindings@.subrange(0, i as int));
            }
            i += 1;
        }
        proof { assert(bindings@.subrange(0, bindings@.len() as int) =~= bindings@); }
    }

    fn check_type_decl(&mut self, decl: &TypeDecl) -> (r: Result<(), TypeError>)
        requires
            old(self).wf(),
        ensures
            final(self).wf(),
            r is Ok,
            final(self).known_types() == old(self).known_types().insert(decl.name.value@, decl.params@.len() as usize),
            final(self).bindings() == old(self).bindings(),
            final(self).constructors() == old(self).constructors(),
            final(self).constraints@ == old(self).constraints@,
    {
        // Register the type constructor
        self.env.insert_type(decl.name.value.clone(), decl.params.len());
        Ok(())
    }

    fn check_datatype_decl(&mut self, decl: &DatatypeDecl) -> (r: Result<(), TypeError>)
        requires
            old(self).wf(),
        ensures
            final(self).wf(),
            final(self).bindings() == old(self).bindings(),
            final(self).known_types() == old(self).known_types().insert(decl.name.value@, decl.params@.len() as usize),
            (forall|k: int| 0 <= k < decl.constructors@.len() ==> (#[trigger] decl.constructors@[k]).arg is None) ==> r is Ok,
            r is Ok ==> forall|k: int| 0 <= k < decl.constructors@.len()
                ==> final(self).constructors().dom().contains((#[trigger] decl.constructors@[k]).name.value@),
            r is Ok ==> forall|c: Seq<char>| #[trigger] old(self).constructors().dom().contains(c)
                ==> final(self).constructors().dom().contains(c),
    {
        // Register the type constructor
        self.env.insert_type(decl.name.value.clone(), decl.params.len());
        // Create type variables for parameters
        let mut param_vars: Vec<TypeVar> = Vec::new();
        let mut param_tys: Vec<Type> = Vec::new();
        let mut i: usize = 0;
        while i < decl.params.len()
            invariant
                self.wf(),
                param_vars@.len() == i,
                i <= decl.params@.len(),
                self.bindings() == old(self).bindings(),
                self.constructors() == old(self).constructors(),
                self.known_types() == old(self).known_types().insert(decl.name.value@, decl.params@.len() as usize),
            decreases decl.params.len() - i,
        {
            let v = TypeVar::fresh(&mut self.supply);
            param_vars.push(v);
            param_tys.push(Type::Var(v));
            i += 1;
        }
        // The result type
        let result_ty = Type::Con(decl.name.value.clone(), param_tys);
        // Register each constructor
        let mut k: usize = 0;
        while k < decl.constructors.len()
            invariant
                self.wf(),
                param_vars@.len() == decl.params@.len(),
                k <= decl.constructors@.len(),
                self.bindings() == old(self).bindings(),
                self.known_types() == old(self).known_types().insert(decl.name.value@, decl.params@.len() as usize),
                forall|m: int| 0 <= m < k ==> self.constructors().dom().contains((#[trigger] decl.constructors@[m]).name.value@),
                forall|c: Seq<char>| #[trigger] old(self).constructors().dom().contains(c)
                    ==> self.constructors().dom().contains(c),
            decreases decl.constructors.len() - k,
        {
            let con = &decl.constructors[k];
            let con_ty = match &con.arg {
                // Constructor with argument: arg -> result_ty
                Some(arg_ty_expr) => {
                    let arg_ty = self.resolve_type_expr_with_vars(arg_ty_expr, &decl.params, &param_vars)?;
                    Type::arrow(arg_ty, result_ty.clone())
                },
                // Nullary constructor: just result_ty
                None => result_ty.clone(),
            };
            let scheme = TypeScheme::poly(copy_vars(&param_vars), con_ty);
            self.env.insert_constructor(con.name.value.clone(), scheme);
            k += 1;
        }
        Ok(())
    }

    /// Trait declarations are accepted without checks (their methods are not registered).
    fn check_trait_decl(&mut self, _decl: &TraitDecl) -> (r: Result<(), TypeError>)
        ensures
            r is Ok,
            *final(self) == *old(self),
    {
        Ok(())
    }

    /// Impl declarations are accepted without checks.
    fn check_impl_decl(&mut self, _decl: &ImplDecl) -> (r: Result<(), TypeError>)
        ensures
            r is Ok,
            *final(self) == *old(self),
    {
        Ok(())
    }
}

fn copy_types(ts: &Vec<Type>) -> (r: Vec<Type>)
    ensures
        r@.len() == ts@.len(),
        forall|i: int| 0 <= i < ts@.len() ==> #[trigger] r@[i]@ == ts@[i]@,
{
    let mut r: Vec<Type> = Vec::new();
    let mut i: usize = 0;
    while i < ts.len()
        invariant
            i <= ts@.len(),
            r@.len() == i,
            forall|j: int| 0 <= j < i ==> #[trigger] r@[j]@ == ts@[j]@,
        decreases ts.len() - i,
    {
        r.push(ts[i].clone());
        i += 1;
    }
    r
}

fn copy_vars(vs: &Vec<TypeVar>) -> (r: Vec<TypeVar>)
    ensures
        r@ == vs@,
{
    let mut r: Vec<TypeVar> = Vec::new();
    let mut i: usize = 0;
    while i < vs.len()
        invariant
            i <= vs@.len(),
            r@ == vs@.take(i as int),
        decreases vs.len() - i,
    {
        r.push(vs[i]);
        i += 1;
        assert(r@ =~= vs@.take(i as int));
    }
    assert(vs@.take(i as int) =~= vs@);
    r
}

impl TypeChecker {
    // ========== Expression Type Inference ==========

    fn infer(&mut self, expr: &Spanned<Expr>) -> (r: Result<Type, TypeError>)
        requires
            old(self).wf(),
        ensures
            final(self).wf(),
            ground_type(expr.value) matches Some(t) ==> (r matches Ok(x) && x@ == t),
            ground_type(expr.value) is Some ==> *final(self) == *old(self),
            expr.value is Command ==> (r matches Ok(x) ==> x@ == command_result_type()),
            surely_ill_typed(expr.value) ==> r is Err,
            ground_binop_type(expr.value) is Some ==> (r matches Ok(t) && t@ == ground_binop_type(expr.value)->0),
            known_type(expr.value, old(self).bindings()) matches Some(t) ==> (r matches Ok(x) && x@ == t
                && final(self).wf() && final(self).substitution() == old(self).substitution()
                && final(self).bindings() == old(self).bindings()),
            r is Ok ==> comparison_unifies(expr.value, old(self).bindings(), old(self).substitution(),
                final(self).substitution()),
            r matches Ok(t) ==> arithmetic_unifies(expr.value, old(self).bindings(), old(self).substitution(),
                final(self).substitution(), t@),
        decreases expr, 1nat,
    {
        match &expr.value {
            Expr::Lit(lit) => Ok(self.infer_literal(lit)),
            Expr::Var(name) => self.infer_var(name.as_str(), expr.span),
            Expr::Con(name) => self.infer_constructor(name.as_str(), expr.span),
            Expr::App(_, _) => self.infer_app(expr),
            Expr::Lambda(_, _) => self.infer_lambda(expr),
            Expr::If(_, _, _) => self.infer_if(expr),
            Expr::Match(_, _) => self.infer_match(expr),
            Expr::BinOp(_, _, _) => self.infer_binop(expr),
            Expr::UnOp(_, _) => self.infer_unop(expr),
            Expr::Tuple(_) => self.infer_tuple(expr),
            Expr::List(_) => self.infer_list(expr),
            Expr::Record(_) => self.infer_record(expr),
            Expr::Field(_, _) => self.infer_field(expr),
            Expr::Annot(_, _) => self.infer_annot(expr),
            Expr::Pipe(_, _) => self.infer_pipe(expr),
            Expr::Unit => Ok(Type::unit()),
            Expr::EnvVar(_) => Ok(Type::option(Type::string())),
            Expr::Command(parts) => {
                // Infer types of interpolated expressions
                let mut i: usize = 0;
                while i < parts.len()
                    invariant
                        self.wf(),
                        expr.value == Expr::Command(*parts),
                    decreases parts.len() - i,
                {
                    match &parts[i] {
                        CommandPart::Interpolation(e) => {
                            assert(decreases_to!(expr => expr.value));
                            assert(decreases_to!(expr.value => expr.value->Command_0));
                            assert(decreases_to!(*parts => parts@));
                            assert(decreases_to!(parts@ => parts@[i as int]));
                            assert(decreases_to!(parts@[i as int] => **e));
                            self.infer(e)?;
                        },
                        CommandPart::Literal(_) => {},
                    }
                    i += 1;
                }
                // Commands return a record: {exitCode: int, stdout: string, stderr: string}
                Ok(Type::command_result())
            },
            Expr::Do(_) => self.infer_do(expr),
            Expr::Redirect { expr: inner, .. } => {
                // Redirect produces IO<unit>
                assert(decreases_to!(expr => expr.value));
                let _ = self.infer(inner)?;
                Ok(Type::io(Type::unit()))
            },
            Expr::Let { pattern, ty, value, body, .. } => {
                // `let p = e1 in e2`: the body sees the pattern's variables
                assert(decreases_to!(expr => expr.value));
                let value_ty = self.infer(value)?;
                let bound_ty = match ty {
                    Some(ann) => {
                        let ann_ty = self.resolve_type_expr(ann)?;
                        self.unify_into(&value_ty, &ann_ty)?;
                        self.apply(&ann_ty)
                    },
                    None => self.apply(&value_ty),
                };
                let old_env = self.env.clone();
                self.bind_pattern(pattern, &bound_ty)?;
                let body_ty = self.infer(body)?;
                self.env = old_env;
                Ok(body_ty)
            },
        }
    }

    fn infer_literal(&self, lit: &Literal) -> (t: Type)
        ensures
            t@ == literal_type(*lit),
    {
        match lit {
            Literal::Int(_) => Type::int_type(),
            Literal::Float(_) => Type::float(),
            Literal::String(_) => Type::string(),
            Literal::Char(_) => Type::char(),
            Literal::Bool(_) => Type::bool(),
        }
    }

    fn infer_var(&mut self, name: &str, span: Span) -> (r: Result<Type, TypeError>)
        requires
            old(self).wf(),
        ensures
            final(self).wf(),
            old(self).bindings().dom().contains(name@) ==> match r {
                Ok(t) => t@ == instance_of(old(self).bindings()[name@], old(self).next_type_var()),
                Err(e) => e is InfiniteType,
            },
            old(self).bindings().dom().contains(name@) ==> (final(self).substitution() == old(self).substitution()
                && final(self).bindings() == old(self).bindings()),
            (old(self).bindings().dom().contains(name@) && old(self).bindings()[name@].0.len() == 0)
                ==> (r matches Ok(t) && t@ == old(self).bindings()[name@].1),
            !old(self).bindings().dom().contains(name@)
                && (forall|c: Seq<char>| #[trigger] old(self).classes().dom().contains(c)
                    ==> super::env::find_named(old(self).classes()[c].1, name@) is None)
                ==> (r matches Err(TypeError::UnboundVariable { name: n, span: sp }) && n@ == name@ && sp == span),
    {
        // First check if it's a regular variable
        match self.env.lookup(name) {
            Some(scheme) => {
                let scheme = scheme.clone();
                proof {
                    if scheme.vars@.len() == 0 {
                        let m = super::subst::inst_map(scheme.vars@, self.next_type_var());
                        assert(m =~= Map::<u64, TypeV>::empty());
                        super::model::lemma_dapply_noop(m, scheme.ty@);
                    }
                }
                return self.instantiate(&scheme);
            },
            None => {},
        }
        // Check if it's a trait method
        match self.env.find_method_class(name) {
            Some((class_name, method_scheme)) => {
                assert(self.classes().dom().contains(class_name@));
                // Instantiate the method type with fresh type variables
                let method_ty = self.instantiate(&method_scheme)?;
                // Add a constraint that the first argument type must implement the trait
                // For a method like `show: 'a -> string`, we add constraint `Show 'a`
                match self.get_first_arg_type(&method_ty) {
                    Some(arg_ty) => self.constraints.push(Constraint::new(class_name, arg_ty)),
                    None => {},
                }
                Ok(method_ty)
            },
            None => Err(TypeError::UnboundVariable { name: name.to_owned(), span }),
        }
    }

    /// Extract the first argument type from a function type.
    fn get_first_arg_type(&self, ty: &Type) -> (r: Option<Type>)
        ensures
            match ty@ {
                TypeV::Arrow(a, _) => r matches Some(t) && t@ == *a,
                _ => r is None,
            },
    {
        match ty.decompose_arrow() {
            Some((arg, _)) => Some(arg.clone()),
            None => None,
        }
    }

    fn infer_constructor(&mut self, name: &str, span: Span) -> (r: Result<Type, TypeError>)
        requires
            old(self).wf(),
        ensures
            final(self).wf(),
            match r {
                Ok(t) => old(self).constructors().dom().contains(name@)
                    && t@ == instance_of(old(self).constructors()[name@], old(self).next_type_var()),
                Err(e) => if old(self).constructors().dom().contains(name@) {
                    e is InfiniteType
                } else {
                    e matches TypeError::UnboundConstructor { name: n, span: sp } && n@ == name@ && sp == span
                },
            },
    {
        match self.env.lookup_constructor(name) {
            Some(scheme) => {
                let scheme = scheme.clone();
                self.instantiate(&scheme)
            },
            None => Err(TypeError::UnboundConstructor { name: name.to_owned(), span }),
        }
    }

    fn infer_app(&mut self, expr: &Spanned<Expr>) -> (r: Result<Type, TypeError>)
        requires
            old(self).wf(),
        ensures
            final(self).wf(),
            !(expr.value is App) ==> r == Err::<Type, TypeError>(TypeError::InvalidPattern { span: expr.span }),
            (expr.value is App && ground_type(expr.value->App_0.value) is Some && ground_type(expr.value->App_1.value) is Some)
                ==> (r matches Err(TypeError::NotAFunction { ty, span })
                    && ty@ == ground_type(expr.value->App_0.value)->0 && span == expr.value->App_0.span),
        decreases expr, 0nat,
    {
        match &expr.value {
            Expr::App(func, arg) => {
                assert(decreases_to!(expr => expr.value));
                let func_ty = self.infer(func)?;
                let arg_ty = self.infer(arg)?;
                let ret_ty = self.fresh();
                let expected = Type::arrow(arg_ty.clone(), ret_ty.clone());
                match unify(&func_ty, &expected) {
                    Ok(s) => {
                        self.absorb(&s, &func_ty, &expected)?;
                        Ok(self.apply(&ret_ty))
                    },
                    Err(_) => {
                        proof {
                            lemma_closed_types(func.value);
                            if ground_type(func.value) is Some {
                                super::model::lemma_dapply_noop(self.substitution(), func_ty@);
                            }
                        }
                        Err(TypeError::NotAFunction { ty: self.apply(&func_ty), span: func.span })
                    },
                }
            },
            _ => Err(TypeError::InvalidPattern { span: expr.span }),
        }
    }

    fn infer_lambda(&mut self, expr: &Spanned<Expr>) -> (r: Result<Type, TypeError>)
        requires
            old(self).wf(),
        ensures
            final(self).wf(),
            !(expr.value is Lambda) ==> r == Err::<Type, TypeError>(TypeError::InvalidPattern { span: expr.span }),
            (expr.value is Lambda && r is Ok) ==> arrow_depth(r->Ok_0@) >= expr.value->Lambda_0@.len(),
        decreases expr, 0nat,
    {
        match &expr.value {
            Expr::Lambda(params, body) => {
                assert(decreases_to!(expr => expr.value));
                // Create type variables for parameters
                let mut param_tys: Vec<Type> = Vec::new();
                let mut i: usize = 0;
                while i < params.len()
                    invariant
                        expr.value is Lambda,
                        self.wf(),
                        param_tys@.len() == i,
                        i <= params@.len(),
                    decreases params.len() - i,
                {
                    param_tys.push(self.fresh());
                    i += 1;
                }
                // Extend environment with parameters
                let mut bindings: Vec<(String, TypeScheme)> = Vec::new();
                let mut j: usize = 0;
                while j < params.len()
                    invariant
                        expr.value is Lambda,
                        self.wf(),
                        param_tys@.len() == params@.len(),
                    decreases params.len() - j,
                {
                    self.collect_pattern_bindings(&params[j], &param_tys[j], &mut bindings)?;
                    j += 1;
                }
                let old_env = self.env.clone();
                self.insert_all(bindings);
                // Infer body type
                let body_ty = self.infer(body)?;
                // Restore environment
                self.env = old_env;
                // Build function type
                let mut func_ty = body_ty;
                let mut k: usize = param_tys.len();
                while k > 0
                    invariant
                        expr.value is Lambda,
                        k <= param_tys@.len(),
                        param_tys@.len() == params@.len(),
                        arrow_depth(func_ty@) >= param_tys@.len() - k,
                    decreases k,
                {
                    k -= 1;
                    func_ty = Type::arrow(param_tys[k].clone(), func_ty);
                }
                Ok(func_ty)
            },
            _ => Err(TypeError::InvalidPattern { span: expr.span }),
        }
    }

    fn infer_if(&mut self, expr: &Spanned<Expr>) -> (r: Result<Type, TypeError>)
        requires
            old(self).wf(),
        ensures
            final(self).wf(),
            !(expr.value is If) ==> r == Err::<Type, TypeError>(TypeError::InvalidPattern { span: expr.span }),
            (expr.value is If && ground_type(expr.value->If_0.value) is Some
                && heads_clash(ground_type(expr.value->If_0.value)->0, con0("bool"@)))
                ==> (r matches Err(TypeError::TypeMismatch { expected, actual })
                    && expected@ == ground_type(expr.value->If_0.value)->0 && actual@ == con0("bool"@)),
        decreases expr, 0nat,
    {
        match &expr.value {
            Expr::If(cond, then_branch, else_branch) => {
                assert(decreases_to!(expr => expr.value));
                let cond_ty = self.infer(cond)?;
                self.unify_into(&cond_ty, &Type::bool())?;
                let then_ty = self.infer(then_branch)?;
                let else_ty = self.infer(else_branch)?;
                self.unify_into(&then_ty, &else_ty)?;
                Ok(self.apply(&then_ty))
            },
            _ => Err(TypeError::InvalidPattern { span: expr.span }),
        }
    }

    fn infer_match(&mut self, expr: &Spanned<Expr>) -> (r: Result<Type, TypeError>)
        requires
            old(self).wf(),
        ensures
            final(self).wf(),
            !(expr.value is Match) ==> r == Err::<Type, TypeError>(TypeError::InvalidPattern { span: expr.span }),
            (expr.value is Match && expr.value->Match_1@.len() == 0 && ground_type(expr.value->Match_0.value) is Some)
                ==> r is Ok,
        decreases expr, 0nat,
    {
        match &expr.value {
            Expr::Match(scrutinee, arms) => {
                assert(decreases_to!(expr => expr.value));
                let scrutinee_ty = self.infer(scrutinee)?;
                let result_ty = self.fresh();
                let mut i: usize = 0;
                while i < arms.len()
                    invariant
                        self.wf(),
                        expr.value == Expr::Match(*scrutinee, *arms),
                    decreases arms.len() - i,
                {
                    let arm = &arms[i];
                    // Infer pattern type and collect bindings
                    let (pattern_ty, bindings) = self.infer_pattern(&arm.pattern)?;
                    // Unify pattern type with scrutinee
                    self.unify_into(&scrutinee_ty, &pattern_ty)?;
                    // Extend environment with pattern bindings
                    let old_env = self.env.clone();
                    self.insert_all(bindings);
                    // Infer body type
                    assert(decreases_to!(expr => expr.value));
                    assert(decreases_to!(expr.value => expr.value->Match_1));
                    assert(decreases_to!(*arms => arms@));
                    assert(decreases_to!(arms@ => arms@[i as int]));
                    assert(decreases_to!(arms@[i as int] => arms@[i as int].body));
                    let body_ty = self.infer(&arm.body)?;
                    // Restore environment
                    self.env = old_env;
                    // Unify body type with result type
                    self.unify_into(&result_ty, &body_ty)?;
                    i += 1;
                }
                Ok(self.apply(&result_ty))
            },
            _ => Err(TypeError::InvalidPattern { span: expr.span }),
        }
    }

    fn infer_binop(&mut self, expr: &Spanned<Expr>) -> (r: Result<Type, TypeError>)
        requires
            old(self).wf(),
        ensures
            final(self).wf(),
            !(expr.value is BinOp) ==> r == Err::<Type, TypeError>(TypeError::InvalidPattern { span: expr.span }),
            (expr.value is BinOp && r is Ok) ==> binop_result_shape(expr.value->BinOp_0, r->Ok_0@),
            ground_binop_type(expr.value) is Some ==> (r matches Ok(t) && t@ == ground_binop_type(expr.value)->0),
            binop_clash(expr.value) matches Some((x, y)) ==> (r matches Err(TypeError::TypeMismatch { expected, actual })
                && expected@ == x && actual@ == y),
            r is Ok ==> comparison_unifies(expr.value, old(self).bindings(), old(self).substitution(),
                final(self).substitution()),
            r matches Ok(t) ==> arithmetic_unifies(expr.value, old(self).bindings(), old(self).substitution(),
                final(self).substitution(), t@),
        decreases expr, 0nat,
    {
        match &expr.value {
            Expr::BinOp(op, lhs, rhs) => {
                assert(decreases_to!(expr => expr.value));
                let lhs_ty = self.infer(lhs)?;
                let rhs_ty = self.infer(rhs)?;
                match op {
                    BinOp::Add | BinOp::Sub | BinOp::Mul | BinOp::Div | BinOp::Mod => {
                        // Numeric operations: both operands same numeric type
                        let ghost s0 = self.substitution();
                        self.unify_into(&lhs_ty, &rhs_ty)?;
                        proof {
                            lemma_closed_types(lhs.value);
                            if ground_type(lhs.value) is Some {
                                super::model::lemma_dapply_noop(self.substitution(), lhs_ty@);
                            }
                        }
                        let resolved = self.apply(&lhs_ty);
                        let ghost s1 = self.substitution();
                        // Default to int if still a variable
                        if resolved.is_var() {
                            self.unify_into(&resolved, &Type::int_type())?;
                            proof {
                                if super::model::fv(lhs_ty@).union(super::model::fv(rhs_ty@)).disjoint(s0.dom()) {
                                    super::model::lemma_dapply_clears(s1, lhs_ty@);
                                    assert(super::model::fv_seq(Seq::<TypeV>::empty()) =~= Set::<u64>::empty());
                                    assert(super::model::fv(con0("int"@)) =~= Set::<u64>::empty());
                                    assert(super::model::fv(resolved@).union(super::model::fv(con0("int"@))).disjoint(s1.dom()));
                                    lemma_arith_default(s1, self.substitution(), resolved@, lhs_ty@, rhs_ty@);
                                }
                            }
                            Ok(Type::int_type())
                        } else {
                            Ok(resolved)
                        }
                    },
                    BinOp::Eq | BinOp::Neq | BinOp::Lt | BinOp::Le | BinOp::Gt | BinOp::Ge => {
                        // Equality and comparison: both operands same type, returns bool
                        self.unify_into(&lhs_ty, &rhs_ty)?;
                        Ok(Type::bool())
                    },
                    BinOp::And | BinOp::Or => {
                        // Logical: both operands bool, returns bool
                        self.unify_into(&lhs_ty, &Type::bool())?;
                        self.unify_into(&rhs_ty, &Type::bool())?;
                        Ok(Type::bool())
                    },
                    BinOp::Concat => {
                        // String concatenation
                        self.unify_into(&lhs_ty, &Type::string())?;
                        self.unify_into(&rhs_ty, &Type::string())?;
                        Ok(Type::string())
                    },
                    BinOp::Cons => {
                        // List cons: 'a -> 'a list -> 'a list
                        let list_ty = Type::list(lhs_ty);
                        self.unify_into(&rhs_ty, &list_ty)?;
                        proof { lemma_dapply_seq(self.substitution(), list_ty@->Con_1); }
                        Ok(self.apply(&list_ty))
                    },
                    BinOp::Append => {
                        // List append: 'a list -> 'a list -> 'a list
                        let elem_ty = self.fresh();
                        let list_ty = Type::list(elem_ty);
                        self.unify_into(&lhs_ty, &list_ty)?;
                        let applied = self.apply(&list_ty);
                        self.unify_into(&rhs_ty, &applied)?;
                        proof { lemma_dapply_seq(self.substitution(), list_ty@->Con_1); }
                        Ok(self.apply(&list_ty))
                    },
                }
            },
            _ => Err(TypeError::InvalidPattern { span: expr.span }),
        }
    }

    fn infer_unop(&mut self, expr: &Spanned<Expr>) -> (r: Result<Type, TypeError>)
        requires
            old(self).wf(),
        ensures
            final(self).wf(),
            !(expr.value is UnOp) ==> r == Err::<Type, TypeError>(TypeError::InvalidPattern { span: expr.span }),
            (expr.value is UnOp && r is Ok) ==> unop_result_shape(expr.value->UnOp_0, r->Ok_0@),
        decreases expr, 0nat,
    {
        match &expr.value {
            Expr::UnOp(op, operand) => {
                assert(decreases_to!(expr => expr.value));
                let operand_ty = self.infer(operand)?;
                match op {
                    UnOp::Neg => {
                        // Numeric negation: defaults to int
                        if operand_ty.is_var() {
                            self.unify_into(&operand_ty, &Type::int_type())?;
                            Ok(Type::int_type())
                        } else {
                            Ok(operand_ty)
                        }
                    },
                    UnOp::Not => {
                        // Logical not: bool -> bool
                        self.unify_into(&operand_ty, &Type::bool())?;
                        Ok(Type::bool())
                    },
                }
            },
            _ => Err(TypeError::InvalidPattern { span: expr.span }),
        }
    }

    fn infer_tuple(&mut self, expr: &Spanned<Expr>) -> (r: Result<Type, TypeError>)
        requires
            old(self).wf(),
        ensures
            final(self).wf(),
            !(expr.value is Tuple) ==> r == Err::<Type, TypeError>(TypeError::InvalidPattern { span: expr.span }),
            (expr.value is Tuple && r is Ok) ==> (r->Ok_0@ is Tuple
                && r->Ok_0@->Tuple_0.len() == expr.value->Tuple_0@.len()),
        decreases expr, 0nat,
    {
        match &expr.value {
            Expr::Tuple(elems) => {
                let mut elem_tys: Vec<Type> = Vec::new();
                let mut i: usize = 0;
                while i < elems.len()
                    invariant
                        self.wf(),
                        expr.value == Expr::Tuple(*elems),
                        elem_tys.len() == i,
                        i <= elems.len(),
                    decreases elems.len() - i,
                {
                    assert(decreases_to!(expr => expr.value));
                    assert(decreases_to!(expr.value => expr.value->Tuple_0));
                    assert(decreases_to!(*elems => elems@));
                    assert(decreases_to!(elems@ => elems@[i as int]));
                    elem_tys.push(self.infer(&elems[i])?);
                    i += 1;
                }
                proof { lemma_tview_seq(elem_tys@); }
                Ok(Type::Tuple(elem_tys))
            },
            _ => Err(TypeError::InvalidPattern { span: expr.span }),
        }
    }

    fn infer_list(&mut self, expr: &Spanned<Expr>) -> (r: Result<Type, TypeError>)
        requires
            old(self).wf(),
        ensures
            final(self).wf(),
            !(expr.value is List) ==> r == Err::<Type, TypeError>(TypeError::InvalidPattern { span: expr.span }),
            (expr.value is List && r is Ok) ==> is_list_type(r->Ok_0@),
        decreases expr, 0nat,
    {
        match &expr.value {
            Expr::List(elems) => {
                if elems.len() == 0 {
                    let v = self.fresh();
                    Ok(Type::list(v))
                } else {
                    assert(decreases_to!(expr => expr.value));
                    assert(decreases_to!(expr.value => expr.value->List_0));
                    assert(decreases_to!(*elems => elems@));
                    assert(decreases_to!(elems@ => elems@[0]));
                    let first_ty = self.infer(&elems[0])?;
                    let mut i: usize = 1;
                    while i < elems.len()
                        invariant
                            self.wf(),
                            expr.value == Expr::List(*elems),
                        decreases elems.len() - i,
                    {
                        assert(decreases_to!(expr => expr.value));
                        assert(decreases_to!(expr.value => expr.value->List_0));
                        assert(decreases_to!(*elems => elems@));
                        assert(decreases_to!(elems@ => elems@[i as int]));
                        let elem_ty = self.infer(&elems[i])?;
                        self.unify_into(&first_ty, &elem_ty)?;
                        i += 1;
                    }
                    Ok(Type::list(self.apply(&first_ty)))
                }
            },
            _ => Err(TypeError::InvalidPattern { span: expr.span }),
        }
    }

    fn infer_record(&mut self, expr: &Spanned<Expr>) -> (r: Result<Type, TypeError>)
        requires
            old(self).wf(),
        ensures
            final(self).wf(),
            !(expr.value is Record) ==> r == Err::<Type, TypeError>(TypeError::InvalidPattern { span: expr.span }),
            (expr.value is Record && r is Ok) ==> (r->Ok_0@ is Record
                && r->Ok_0@->Record_0.len() == expr.value->Record_0@.len()
                && forall|j: int| 0 <= j < expr.value->Record_0@.len()
                    ==> #[trigger] r->Ok_0@->Record_0[j].0 == expr.value->Record_0@[j].0.value@),
        decreases expr, 0nat,
    {
        match &expr.value {
            Expr::Record(fields) => {
                let mut field_tys: Vec<(String, Type)> = Vec::new();
                let mut i: usize = 0;
                while i < fields.len()
                    invariant
                        self.wf(),
                        expr.value == Expr::Record(*fields),
                        field_tys.len() == i,
                        i <= fields.len(),
                        forall|j: int| 0 <= j < i ==> #[trigger] field_tys@[j].0@ == fields@[j].0.value@,
                    decreases fields.len() - i,
                {
                    assert(decreases_to!(expr => expr.value));
                    assert(decreases_to!(expr.value => expr.value->Record_0));
                    assert(decreases_to!(*fields => fields@));
                    assert(decreases_to!(fields@ => fields@[i as int]));
                    assert(decreases_to!(fields@[i as int] => fields@[i as int].1));
                    let ty = self.infer(&fields[i].1)?;
                    field_tys.push((fields[i].0.value.clone(), ty));
                    i += 1;
                }
                proof { lemma_tview_fields(field_tys@); }
                Ok(Type::Record(field_tys))
            },
            _ => Err(TypeError::InvalidPattern { span: expr.span }),
        }
    }

    fn infer_field(&mut self, expr: &Spanned<Expr>) -> (r: Result<Type, TypeError>)
        requires
            old(self).wf(),
        ensures
            final(self).wf(),
            !(expr.value is Field) ==> r == Err::<Type, TypeError>(TypeError::InvalidPattern { span: expr.span }),
            (expr.value is Field && ground_type(expr.value->Field_0.value) is Some)
                ==> (r matches Err(TypeError::NotARecord { ty, span })
                    && ty@ == ground_type(expr.value->Field_0.value)->0 && span == expr.value->Field_0.span),
        decreases expr, 0nat,
    {
        match &expr.value {
            Expr::Field(record, field) => {
                assert(decreases_to!(expr => expr.value));
                let record_ty = self.infer(record)?;
                proof {
                    lemma_closed_types(record.value);
                    if ground_type(record.value) is Some {
                        super::model::lemma_dapply_noop(self.substitution(), record_ty@);
                    }
                }
                // Create a record type with the requested field
                let field_ty = self.fresh();
                let expected_record = Type::Record(vec![(field.value.clone(), field_ty.clone())]);
                // A more sophisticated implementation would handle row polymorphism
                let resolved = self.apply(&record_ty);
                match &resolved {
                    Type::Record(fields) => {
                        let mut i: usize = 0;
                        while i < fields.len()
                            invariant
                                expr.value is Field,
                                ground_type(expr.value->Field_0.value) is None,
                                self.wf(),
                            decreases fields.len() - i,
                        {
                            if fields[i].0 == field.value {
                                return Ok(fields[i].1.clone());
                            }
                            i += 1;
                        }
                        Err(TypeError::MissingField {
                            name: field.value.clone(),
                            record_ty: self.apply(&record_ty),
                            span: field.span,
                        })
                    },
                    Type::Var(_) => {
                        // If still a variable, create constraint
                        self.unify_into(&resolved, &expected_record)?;
                        Ok(self.apply(&field_ty))
                    },
                    _ => Err(TypeError::NotARecord { ty: resolved.clone(), span: record.span }),
                }
            },
            _ => Err(TypeError::InvalidPattern { span: expr.span }),
        }
    }

    fn infer_annot(&mut self, expr: &Spanned<Expr>) -> (r: Result<Type, TypeError>)
        requires
            old(self).wf(),
        ensures
            final(self).wf(),
            !(expr.value is Annot) ==> r == Err::<Type, TypeError>(TypeError::InvalidPattern { span: expr.span }),
            (expr.value is Annot && expr.value->Annot_1.value is Con && r is Ok)
                ==> r->Ok_0@ == con0(expr.value->Annot_1.value->Con_0@),
            (expr.value is Annot && expr.value->Annot_1.value is Con && ground_type(expr.value->Annot_0.value) is Some)
                ==> if old(self).known_types().dom().contains(expr.value->Annot_1.value->Con_0@) {
                    heads_clash(ground_type(expr.value->Annot_0.value)->0, con0(expr.value->Annot_1.value->Con_0@))
                        ==> (r matches Err(TypeError::TypeMismatch { expected, actual })
                            && expected@ == ground_type(expr.value->Annot_0.value)->0
                            && actual@ == con0(expr.value->Annot_1.value->Con_0@))
                } else {
                    r matches Err(TypeError::UnknownType { name, span })
                        && name@ == expr.value->Annot_1.value->Con_0@ && span == expr.value->Annot_1.span
                },
        decreases expr, 0nat,
    {
        match &expr.value {
            Expr::Annot(inner, ty_expr) => {
                assert(decreases_to!(expr => expr.value));
                let inferred = self.infer(inner)?;
                let annotated = self.resolve_type_expr(ty_expr)?;
                self.unify_into(&inferred, &annotated)?;
                proof {
                    if ty_expr.value is Con {
                        assert(super::model::fv_seq(Seq::<TypeV>::empty()) =~= Set::<u64>::empty());
                        assert(super::model::fv(annotated@) =~= Set::<u64>::empty());
                        super::model::lemma_dapply_noop(self.substitution(), annotated@);
                    }
                }
                Ok(self.apply(&annotated))
            },
            _ => Err(TypeError::InvalidPattern { span: expr.span }),
        }
    }

    fn infer_pipe(&mut self, expr: &Spanned<Expr>) -> (r: Result<Type, TypeError>)
        requires
            old(self).wf(),
        ensures
            final(self).wf(),
            !(expr.value is Pipe) ==> r == Err::<Type, TypeError>(TypeError::InvalidPattern { span: expr.span }),
            (expr.value matches Expr::Pipe(a, b) && a.value is Command && b.value is Command && r is Ok)
                ==> r->Ok_0@ == command_result_type(),
        decreases expr, 0nat,
    {
        match &expr.value {
            Expr::Pipe(lhs, rhs) => {
                assert(decreases_to!(expr => expr.value));
                // Check if both sides are commands - if so, this is a shell pipeline
                if matches!(lhs.value, Expr::Command(_)) && matches!(rhs.value, Expr::Command(_)) {
                    // Infer types of both commands (to check interpolations)
                    self.infer(lhs)?;
                    self.infer(rhs)?;
                    return Ok(Type::command_result());
                }
                // Check for chained pipeline: (cmd1 |> cmd2) |> cmd3
                match &lhs.value {
                    Expr::Pipe(inner_lhs, inner_rhs) => {
                        if matches!(inner_lhs.value, Expr::Command(_)) && matches!(inner_rhs.value, Expr::Command(_)) && matches!(rhs.value, Expr::Command(_)) {
                            assert(decreases_to!(**lhs => lhs.value));
                            self.infer(inner_lhs)?;
                            self.infer(inner_rhs)?;
                            self.infer(rhs)?;
                            return Ok(Type::command_result());
                        }
                    },
                    _ => {},
                }
                // x |> f  is equivalent to  f x
                let lhs_ty = self.infer(lhs)?;
                let rhs_ty = self.infer(rhs)?;
                let ret_ty = self.fresh();
                let expected_func = Type::arrow(lhs_ty, ret_ty.clone());
                self.unify_into(&rhs_ty, &expected_func)?;
                Ok(self.apply(&ret_ty))
            },
            _ => Err(TypeError::InvalidPattern { span: expr.span }),
        }
    }

    fn infer_do(&mut self, expr: &Spanned<Expr>) -> (r: Result<Type, TypeError>)
        requires
            old(self).wf(),
        ensures
            final(self).wf(),
            !(expr.value is Do) ==> r == Err::<Type, TypeError>(TypeError::InvalidPattern { span: expr.span }),
            expr.value matches Expr::Do(st) && st@.len() == 0
                ==> (r matches Ok(t) && t@ == TypeV::Con("io"@, seq![con0("unit"@)])),
        decreases expr, 0nat,
    {
        match &expr.value {
            Expr::Do(stmts) => {
                if stmts.len() == 0 {
                    return Ok(Type::io(Type::unit()));
                }
                let mut result_ty = self.fresh();
                let mut i: usize = 0;
                while i < stmts.len()
                    invariant
                        self.wf(),
                        expr.value == Expr::Do(*stmts),
                        stmts@.len() > 0,
                    decreases stmts.len() - i,
                {
                    let is_last = i == stmts.len() - 1;
                    assert(decreases_to!(expr => expr.value));
                    assert(decreases_to!(expr.value => expr.value->Do_0));
                    assert(decreases_to!(*stmts => stmts@));
                    assert(decreases_to!(stmts@ => stmts@[i as int]));
                    match &stmts[i] {
                        DoStmt::Expr(e) => {
                            let ty = self.infer(e)?;
                            if is_last {
                                // Last expression determines the type
                                result_ty = ty;
                            } else {
                                // Non-last expressions should be IO<_> (a mismatch is not reported)
                                let inner = self.fresh();
                                let expected = Type::io(inner);
                                let _ = unify(&ty, &expected);
                            }
                        },
                        DoStmt::Bind(pattern, e) => {
                            let expr_ty = self.infer(e)?;
                            // expr should have type IO<t>
                            let inner_ty = self.fresh();
                            let expected = Type::io(inner_ty.clone());
                            self.unify_into(&expr_ty, &expected)?;
                            // Bind pattern to inner type
                            let resolved_inner = self.apply(&inner_ty);
                            self.bind_pattern(pattern, &resolved_inner)?;
                        },
                        DoStmt::Let(pattern, e) => {
                            let expr_ty = self.infer(e)?;
                            self.bind_pattern(pattern, &expr_ty)?;
                        },
                    }
                    i += 1;
                }
                Ok(result_ty)
            },
            _ => Err(TypeError::InvalidPattern { span: expr.span }),
        }
    }
}

impl TypeChecker {
    // ========== Pattern Type Inference ==========

    fn infer_pattern(&mut self, pattern: &Spanned<Pattern>) -> (r: Result<(Type, Vec<(String, TypeScheme)>), TypeError>)
        requires
            old(self).wf(),
        ensures
            final(self).wf(),
            final(self).bindings() == old(self).bindings(),
            final(self).constructors() == old(self).constructors(),
            match pattern.value {
                Pattern::Wildcard => r matches Ok(t) && t.0@ is Var && r->Ok_0.1@ == Seq::<(String, TypeScheme)>::empty(),
                Pattern::Var(name) => r matches Ok(t) && t.0@ is Var && r->Ok_0.1@.len() == Seq::<(String, TypeScheme)>::empty().len() + 1
                    && r->Ok_0.1@.last().0@ == name@ && r->Ok_0.1@.last().1@ == (Seq::<TypeVar>::empty(), t.0@),
                Pattern::Lit(l) => r matches Ok(t) && t.0@ == literal_type(l) && r->Ok_0.1@ == Seq::<(String, TypeScheme)>::empty(),
                Pattern::Con(name, arg) => if old(self).constructors().dom().contains(name@) {
                    (arg is None && r is Ok) ==> r->Ok_0.0@ == instance_of(old(self).constructors()[name@], old(self).next_type_var())
                } else {
                    r matches Err(TypeError::UnboundConstructor { name: n, span: sp }) && n@ == name@ && sp == pattern.span
                },
                Pattern::Tuple(es) => r matches Ok(t) ==> (t.0@ is Tuple && t.0@->Tuple_0.len() == es@.len()),
                Pattern::List(_) | Pattern::Cons(_, _) => r matches Ok(t) ==> is_list_type(t.0@),
                Pattern::Record(fs) => r matches Ok(t) ==> (t.0@ is Record && t.0@->Record_0.len() == fs@.len()
                    && forall|j: int| 0 <= j < fs@.len() ==> #[trigger] t.0@->Record_0[j].0 == fs@[j].0.value@),
                _ => true,
            },
    {
        let mut bindings: Vec<(String, TypeScheme)> = Vec::new();
        let ty = self.infer_pattern_inner(pattern, &mut bindings)?;
        Ok((ty, bindings))
    }

    fn infer_pattern_inner(&mut self, pattern: &Spanned<Pattern>, bindings: &mut Vec<(String, TypeScheme)>) -> (r: Result<Type, TypeError>)
        requires
            old(self).wf(),
        ensures
            final(self).wf(),
            final(bindings)@.len() >= old(bindings)@.len(),
            final(bindings)@.subrange(0, old(bindings)@.len() as int) == old(bindings)@,
            final(self).bindings() == old(self).bindings(),
            final(self).constructors() == old(self).constructors(),
            match pattern.value {
                Pattern::Wildcard => r matches Ok(t) && t@ is Var && final(bindings)@ == old(bindings)@,
                Pattern::Var(name) => r matches Ok(t) && t@ is Var && final(bindings)@.len() == old(bindings)@.len() + 1
                    && final(bindings)@.last().0@ == name@ && final(bindings)@.last().1@ == (Seq::<TypeVar>::empty(), t@),
                Pattern::Lit(l) => r matches Ok(t) && t@ == literal_type(l) && final(bindings)@ == old(bindings)@,
                Pattern::Con(name, arg) => if old(self).constructors().dom().contains(name@) {
                    (arg is None && r is Ok) ==> r->Ok_0@ == instance_of(old(self).constructors()[name@], old(self).next_type_var())
                } else {
                    r matches Err(TypeError::UnboundConstructor { name: n, span: sp }) && n@ == name@ && sp == pattern.span
                },
                Pattern::Tuple(es) => r matches Ok(t) ==> (t@ is Tuple && t@->Tuple_0.len() == es@.len()),
                Pattern::List(_) | Pattern::Cons(_, _) => r matches Ok(t) ==> is_list_type(t@),
                Pattern::Record(fs) => r matches Ok(t) ==> (t@ is Record && t@->Record_0.len() == fs@.len()
                    && forall|j: int| 0 <= j < fs@.len() ==> #[trigger] t@->Record_0[j].0 == fs@[j].0.value@),
                _ => true,
            },
        decreases pattern,
    {
        match &pattern.value {
            Pattern::Wildcard => Ok(self.fresh()),
            Pattern::Var(name) => {
                let ty = self.fresh();
                bindings.push((name.clone(), TypeScheme::mono(ty.clone())));
                Ok(ty)
            },
            Pattern::Lit(lit) => Ok(self.infer_literal(lit)),
            Pattern::Con(name, arg) => {
                let scheme = match self.env.lookup_constructor(name.as_str()) {
                    Some(s) => s.clone(),
                    None => {
                        return Err(TypeError::UnboundConstructor { name: name.clone(), span: pattern.span });
                    },
                };
                let con_ty = self.instantiate(&scheme)?;
                match arg {
                    Some(arg_pattern) => {
                        // Constructor with argument
                        match con_ty.decompose_arrow() {
                            Some((arg_ty, ret_ty)) => {
                                assert(decreases_to!(pattern => pattern.value));
                                let pattern_arg_ty = self.infer_pattern_inner(arg_pattern, bindings)?;
                                self.unify_into(arg_ty, &pattern_arg_ty)?;
                                Ok(self.apply(ret_ty))
                            },
                            None => Err(TypeError::UnboundConstructor { name: name.clone(), span: pattern.span }),
                        }
                    },
                    // Nullary constructor
                    None => Ok(con_ty),
                }
            },
            Pattern::Tuple(elems) => {
                let mut elem_tys: Vec<Type> = Vec::new();
                let mut i: usize = 0;
                while i < elems.len()
                    invariant
                        self.wf(),
                        pattern.value == Pattern::Tuple(*elems),
                        elem_tys@.len() == i,
                        i <= elems@.len(),
                        bindings@.len() >= old(bindings)@.len(),
                        bindings@.subrange(0, old(bindings)@.len() as int) == old(bindings)@,
                        self.bindings() == old(self).bindings(),
                        self.constructors() == old(self).constructors(),
                    decreases elems.len() - i,
                {
                    assert(decreases_to!(pattern => pattern.value));
                    assert(decreases_to!(pattern.value => pattern.value->Tuple_0));
                    assert(decreases_to!(*elems => elems@));
                    assert(decreases_to!(elems@ => elems@[i as int]));
                    let ghost before = bindings@;
                    elem_tys.push(self.infer_pattern_inner(&elems[i], bindings)?);
                    proof { assert(bindings@.subrange(0, old(bindings)@.len() as int) =~= before.subrange(0, old(bindings)@.len() as int)); }
                    i += 1;
                }
                proof { lemma_tview_seq(elem_tys@); }
                Ok(Type::Tuple(elem_tys))
            },
            Pattern::List(elems) => {
                if elems.len() == 0 {
                    let v = self.fresh();
                    Ok(Type::list(v))
                } else {
                    assert(decreases_to!(pattern => pattern.value));
                    assert(decreases_to!(pattern.value => pattern.value->List_0));
                    assert(decreases_to!(*elems => elems@));
                    assert(decreases_to!(elems@ => elems@[0]));
                    let first_ty = self.infer_pattern_inner(&elems[0], bindings)?;
                    let mut i: usize = 1;
                    while i < elems.len()
                        invariant
                            self.wf(),
                            pattern.value == Pattern::List(*elems),
                            bindings@.len() >= old(bindings)@.len(),
                            bindings@.subrange(0, old(bindings)@.len() as int) == old(bindings)@,
                            self.bindings() == old(self).bindings(),
                            self.constructors() == old(self).constructors(),
                        bindings@.subrange(0, old(bindings)@.len() as int) == old(bindings)@,
                        self.bindings() == old(self).bindings(),
                        self.constructors() == old(self).constructors(),
                        decreases elems.len() - i,
                    {
                        assert(decreases_to!(pattern => pattern.value));
                        assert(decreases_to!(pattern.value => pattern.value->List_0));
                        assert(decreases_to!(*elems => elems@));
                        assert(decreases_to!(elems@ => elems@[i as int]));
                        let elem_ty = self.infer_pattern_inner(&elems[i], bindings)?;
                        self.unify_into(&first_ty, &elem_ty)?;
                        i += 1;
                    }
                    Ok(Type::list(self.apply(&first_ty)))
                }
            },
            Pattern::Cons(head, tail) => {
                assert(decreases_to!(pattern => pattern.value));
                let head_ty = self.infer_pattern_inner(head, bindings)?;
                let tail_ty = self.infer_pattern_inner(tail, bindings)?;
                let list_ty = Type::list(head_ty);
                self.unify_into(&tail_ty, &list_ty)?;
                proof { lemma_dapply_seq(self.substitution(), list_ty@->Con_1); }
                Ok(self.apply(&list_ty))
            },
            Pattern::Record(fields) => {
                let mut field_tys: Vec<(String, Type)> = Vec::new();
                let mut i: usize = 0;
                while i < fields.len()
                    invariant
                        self.wf(),
                        pattern.value == Pattern::Record(*fields),
                        field_tys@.len() == i,
                        i <= fields@.len(),
                        forall|j: int| 0 <= j < i ==> #[trigger] field_tys@[j].0@ == fields@[j].0.value@,
                        bindings@.len() >= old(bindings)@.len(),
                        bindings@.subrange(0, old(bindings)@.len() as int) == old(bindings)@,
                        self.bindings() == old(self).bindings(),
                        self.constructors() == old(self).constructors(),
                    decreases fields.len() - i,
                {
                    assert(decreases_to!(pattern => pattern.value));
                    assert(decreases_to!(pattern.value => pattern.value->Record_0));
                    assert(decreases_to!(*fields => fields@));
                    assert(decreases_to!(fields@ => fields@[i as int]));
                    assert(decreases_to!(fields@[i as int] => fields@[i as int].1));
                    let ghost before = bindings@;
                    let ty = self.infer_pattern_inner(&fields[i].1, bindings)?;
                    proof { assert(bindings@.subrange(0, old(bindings)@.len() as int) =~= before.subrange(0, old(bindings)@.len() as int)); }
                    field_tys.push((fields[i].0.value.clone(), ty));
                    i += 1;
                }
                proof { lemma_tview_fields(field_tys@); }
                Ok(Type::Record(field_tys))
            },
            Pattern::Or(lhs, rhs) => {
                assert(decreases_to!(pattern => pattern.value));
                let lhs_ty = self.infer_pattern_inner(lhs, bindings)?;
                let rhs_ty = self.infer_pattern_inner(rhs, bindings)?;
                self.unify_into(&lhs_ty, &rhs_ty)?;
                Ok(self.apply(&lhs_ty))
            },
            Pattern::Annot(inner, ty_expr) => {
                assert(decreases_to!(pattern => pattern.value));
                let pattern_ty = self.infer_pattern_inner(inner, bindings)?;
                let annotated_ty = self.resolve_type_expr(ty_expr)?;
                self.unify_into(&pattern_ty, &annotated_ty)?;
                Ok(self.apply(&annotated_ty))
            },
            Pattern::As(inner, name) => {
                assert(decreases_to!(pattern => pattern.value));
                let ty = self.infer_pattern_inner(inner, bindings)?;
                bindings.push((name.value.clone(), TypeScheme::mono(ty.clone())));
                Ok(ty)
            },
        }
    }

    // ========== Helper Methods ==========

    fn pattern_name(&self, pattern: &Spanned<Pattern>) -> (r: Result<String, TypeError>)
        ensures
            match r {
                Ok(n) => pattern.value matches Pattern::Var(v) && n@ == v@,
                Err(e) => !(pattern.value is Var) && e == (TypeError::InvalidPattern { span: pattern.span }),
            },
    {
        match &pattern.value {
            Pattern::Var(name) => Ok(name.clone()),
            _ => Err(TypeError::InvalidPattern { span: pattern.span }),
        }
    }

    fn bind_pattern(&mut self, pattern: &Spanned<Pattern>, ty: &Type) -> (r: Result<(), TypeError>)
        requires
            old(self).wf(),
        ensures
            final(self).wf(),
            final(self).constructors() == old(self).constructors(),
            r is Err ==> final(self).bindings() == old(self).bindings(),
            pattern.value is Var ==> final(self).constraints@ == old(self).constraints@,
            match pattern.value {
                Pattern::Var(name) => r is Ok
                    && final(self).bindings() == old(self).bindings().insert(name@, (Seq::<TypeVar>::empty(), ty@)),
                Pattern::Wildcard | Pattern::Lit(_) | Pattern::Con(_, _) | Pattern::List(_) | Pattern::Cons(_, _)
                | Pattern::Or(_, _) | Pattern::Annot(_, _) | Pattern::As(_, _) => r is Ok
                    && final(self).bindings() == old(self).bindings(),
                _ => true,
            },
    {
        let mut bindings: Vec<(String, TypeScheme)> = Vec::new();
        self.collect_pattern_bindings(pattern, ty, &mut bindings)?;
        proof {
            assert(inserted(self.bindings(), Seq::<(String, TypeScheme)>::empty()) == self.bindings());
            if pattern.value is Var {
                assert(bindings@.drop_last() =~= Seq::<(String, TypeScheme)>::empty());
            } else if !(pattern.value is Tuple) && !(pattern.value is Record) {
                assert(bindings@ =~= Seq::<(String, TypeScheme)>::empty());
            }
        }
        self.insert_all(bindings);
        Ok(())
    }

    fn tuple_of_fresh(&mut self, n: usize) -> (r: Vec<Type>)
        requires
            old(self).wf(),
        ensures
            final(self).wf(),
            r@.len() == n,
            final(self).bindings() == old(self).bindings(),
            final(self).constructors() == old(self).constructors(),
    {
        let mut tys: Vec<Type> = Vec::new();
        while tys.len() < n
            invariant
                self.wf(),
                tys@.len() <= n,
                self.bindings() == old(self).bindings(),
                self.constructors() == old(self).constructors(),
            decreases n - tys.len(),
        {
            tys.push(self.fresh());
        }
        tys
    }

    fn collect_pattern_bindings(&mut self, pattern: &Spanned<Pattern>, ty: &Type, bindings: &mut Vec<(String, TypeScheme)>) -> (r: Result<(), TypeError>)
        requires
            old(self).wf(),
        ensures
            final(self).wf(),
            final(bindings)@.len() >= old(bindings)@.len(),
            final(bindings)@.subrange(0, old(bindings)@.len() as int) == old(bindings)@,
            final(self).bindings() == old(self).bindings(),
            final(self).constructors() == old(self).constructors(),
            pattern.value is Var ==> *final(self) == *old(self),
            match pattern.value {
                Pattern::Var(name) => r is Ok && final(bindings)@.len() == old(bindings)@.len() + 1
                    && final(bindings)@.last().0@ == name@
                    && final(bindings)@.last().1@ == (Seq::<TypeVar>::empty(), ty@),
                Pattern::Wildcard | Pattern::Lit(_) | Pattern::Con(_, _) | Pattern::List(_) | Pattern::Cons(_, _)
                | Pattern::Or(_, _) | Pattern::Annot(_, _) | Pattern::As(_, _) => r is Ok
                    && final(bindings)@ == old(bindings)@ && *final(self) == *old(self),
                Pattern::Record(_) => !(ty@ is Record) ==> (r is Ok && final(bindings)@ == old(bindings)@),
                Pattern::Tuple(es) => ((!(ty@ is Tuple) && !(ty@ is Var))
                    || (ty@ is Tuple && ty@->Tuple_0.len() != es@.len())) ==> (r matches Err(TypeError::PatternTypeMismatch {
                        scrutinee_ty: st, span: sp, .. }) && st@ == ty@ && sp == pattern.span),
            },
        decreases pattern,
    {
        match &pattern.value {
            Pattern::Wildcard => Ok(()),
            Pattern::Var(name) => {
                bindings.push((name.clone(), TypeScheme::mono(ty.clone())));
                Ok(())
            },
            Pattern::Tuple(elems) => {
                match ty {
                    Type::Tuple(elem_tys) => {
                        proof { lemma_tview_seq(elem_tys@); }
                        if elems.len() != elem_tys.len() {
                            let placeholders = self.tuple_of_fresh(elems.len());
                            return Err(TypeError::PatternTypeMismatch {
                                pattern_ty: Type::Tuple(placeholders),
                                scrutinee_ty: ty.clone(),
                                span: pattern.span,
                            });
                        }
                        let mut i: usize = 0;
                        while i < elems.len()
                            invariant
                                self.wf(),
                                pattern.value == Pattern::Tuple(*elems),
                                elems@.len() == elem_tys@.len(),
                                ty@ is Tuple || ty@ is Var,
                                ty@ is Tuple ==> ty@->Tuple_0.len() == elems@.len(),
                                bindings@.len() >= old(bindings)@.len(),
                                bindings@.subrange(0, old(bindings)@.len() as int) == old(bindings)@,
                                self.bindings() == old(self).bindings(),
                                self.constructors() == old(self).constructors(),
                            decreases elems.len() - i,
                        {
                            assert(decreases_to!(pattern => pattern.value));
                            assert(decreases_to!(pattern.value => pattern.value->Tuple_0));
                            assert(decreases_to!(*elems => elems@));
                            assert(decreases_to!(elems@ => elems@[i as int]));
                            let ghost before = bindings@;
                            self.collect_pattern_bindings(&elems[i], &elem_tys[i], bindings)?;
                            proof { assert(bindings@.subrange(0, old(bindings)@.len() as int) =~= before.subrange(0, old(bindings)@.len() as int)); }
                            i += 1;
                        }
                        Ok(())
                    },
                    Type::Var(_) => {
                        // Create tuple type
                        let elem_tys = self.tuple_of_fresh(elems.len());
                        let tuple_ty = Type::Tuple(copy_types(&elem_tys));
                        self.unify_into(ty, &tuple_ty)?;
                        let mut i: usize = 0;
                        while i < elems.len()
                            invariant
                                self.wf(),
                                pattern.value == Pattern::Tuple(*elems),
                                elems@.len() == elem_tys@.len(),
                                ty@ is Tuple || ty@ is Var,
                                ty@ is Tuple ==> ty@->Tuple_0.len() == elems@.len(),
                                bindings@.len() >= old(bindings)@.len(),
                                bindings@.subrange(0, old(bindings)@.len() as int) == old(bindings)@,
                                self.bindings() == old(self).bindings(),
                                self.constructors() == old(self).constructors(),
                            decreases elems.len() - i,
                        {
                            assert(decreases_to!(pattern => pattern.value));
                            assert(decreases_to!(pattern.value => pattern.value->Tuple_0));
                            assert(decreases_to!(*elems => elems@));
                            assert(decreases_to!(elems@ => elems@[i as int]));
                            let t = self.apply(&elem_tys[i]);
                            let ghost before = bindings@;
                            self.collect_pattern_bindings(&elems[i], &t, bindings)?;
                            proof { assert(bindings@.subrange(0, old(bindings)@.len() as int) =~= before.subrange(0, old(bindings)@.len() as int)); }
                            i += 1;
                        }
                        Ok(())
                    },
                    _ => {
                        let placeholders = self.tuple_of_fresh(elems.len());
                        Err(TypeError::PatternTypeMismatch {
                            pattern_ty: Type::Tuple(placeholders),
                            scrutinee_ty: ty.clone(),
                            span: pattern.span,
                        })
                    },
                }
            },
            // These patterns don't introduce bindings in this simplified version
            Pattern::Lit(_) | Pattern::Con(_, _) | Pattern::List(_) | Pattern::Cons(_, _) => Ok(()),
            Pattern::Record(fields) => {
                match ty {
                    Type::Record(field_tys) => {
                        let mut i: usize = 0;
                        while i < fields.len()
                            invariant
                                self.wf(),
                                pattern.value == Pattern::Record(*fields),
                                ty@ is Record,
                                bindings@.len() >= old(bindings)@.len(),
                                bindings@.subrange(0, old(bindings)@.len() as int) == old(bindings)@,
                                self.bindings() == old(self).bindings(),
                                self.constructors() == old(self).constructors(),
                            decreases fields.len() - i,
                        {
                            let mut k: usize = 0;
                            let mut found: Option<usize> = None;
                            while k < field_tys.len()
                                invariant
                                    i < fields@.len(),
                                    found matches Some(f) ==> f < field_tys@.len(),
                                decreases field_tys.len() - k,
                            {
                                if field_tys[k].0 == fields[i].0.value {
                                    found = Some(k);
                                    break;
                                }
                                k += 1;
                            }
                            match found {
                                Some(f) => {
                                    assert(decreases_to!(pattern => pattern.value));
                                    assert(decreases_to!(pattern.value => pattern.value->Record_0));
                                    assert(decreases_to!(*fields => fields@));
                                    assert(decreases_to!(fields@ => fields@[i as int]));
                                    assert(decreases_to!(fields@[i as int] => fields@[i as int].1));
                                    let ghost before = bindings@;
                                    self.collect_pattern_bindings(&fields[i].1, &field_tys[f].1, bindings)?;
                                    proof { assert(bindings@.subrange(0, old(bindings)@.len() as int) =~= before.subrange(0, old(bindings)@.len() as int)); }
                                },
                                None => {},
                            }
                            i += 1;
                        }
                        Ok(())
                    },
                    _ => Ok(()),
                }
            },
            // Simplified handling
            Pattern::Or(_, _) | Pattern::Annot(_, _) | Pattern::As(_, _) => Ok(()),
        }
    }

    fn resolve_type_expr(&mut self, ty_expr: &Spanned<TypeExpr>) -> (r: Result<Type, TypeError>)
        requires
            old(self).wf(),
        ensures
            final(self).wf(),
            final(self).bindings() == old(self).bindings(),
            final(self).constructors() == old(self).constructors(),
            final(self).known_types() == old(self).known_types(),
            final(self).substitution() == old(self).substitution(),
            match ty_expr.value {
                TypeExpr::Con(name) => if old(self).known_types().dom().contains(name@) {
                    r matches Ok(t) && t@ == con0(name@)
                } else {
                    r matches Err(TypeError::UnknownType { name: n, span: sp }) && n@ == name@ && sp == ty_expr.span
                },
                TypeExpr::Var(name) => r matches Ok(t) && t@ is Var,
                TypeExpr::Arrow(_, _) => r matches Ok(t) ==> t@ is Arrow,
                TypeExpr::Tuple(es) => r matches Ok(t) ==> (t@ is Tuple && t@->Tuple_0.len() == es@.len()),
                TypeExpr::Record(fs) => r matches Ok(t) ==> (t@ is Record && t@->Record_0.len() == fs@.len()
                    && forall|j: int| 0 <= j < fs@.len() ==> #[trigger] t@->Record_0[j].0 == fs@[j].0.value@),
                _ => true,
            },
    {
        let no_names: Vec<Spanned<String>> = Vec::new();
        let no_vars: Vec<TypeVar> = Vec::new();
        self.resolve_type_expr_with_vars(ty_expr, &no_names, &no_vars)
    }

    fn resolve_type_expr_with_vars(
        &mut self,
        ty_expr: &Spanned<TypeExpr>,
        param_names: &Vec<Spanned<String>>,
        param_vars: &Vec<TypeVar>,
    ) -> (r: Result<Type, TypeError>)
        requires
            old(self).wf(),
        ensures
            final(self).wf(),
            final(self).bindings() == old(self).bindings(),
            final(self).constructors() == old(self).constructors(),
            final(self).known_types() == old(self).known_types(),
            final(self).substitution() == old(self).substitution(),
            match ty_expr.value {
                TypeExpr::Con(name) => if old(self).known_types().dom().contains(name@) {
                    r matches Ok(t) && t@ == con0(name@)
                } else {
                    r matches Err(TypeError::UnknownType { name: n, span: sp }) && n@ == name@ && sp == ty_expr.span
                },
                TypeExpr::Var(name) => r matches Ok(t) && t@ is Var
                    && (param_slot(param_names@, param_vars@.len() as int, name@, 0) matches Some(i)
                        ==> t@ == TypeV::Var(param_vars@[i].0)),
                TypeExpr::Arrow(_, _) => r matches Ok(t) ==> t@ is Arrow,
                TypeExpr::Tuple(es) => r matches Ok(t) ==> (t@ is Tuple && t@->Tuple_0.len() == es@.len()),
                TypeExpr::Record(fs) => r matches Ok(t) ==> (t@ is Record && t@->Record_0.len() == fs@.len()
                    && forall|j: int| 0 <= j < fs@.len() ==> #[trigger] t@->Record_0[j].0 == fs@[j].0.value@),
                _ => true,
            },
        decreases ty_expr,
    {
        match &ty_expr.value {
            TypeExpr::Var(name) => {
                // Check if it's a bound type parameter
                let mut i: usize = 0;
                while i < param_names.len() && i < param_vars.len()
                    invariant
                        self.wf(),
                        *self == *old(self),
                        ty_expr.value == TypeExpr::Var(*name),
                        param_slot(param_names@, param_vars@.len() as int, name@, 0)
                            == param_slot(param_names@, param_vars@.len() as int, name@, i as int),
                    decreases param_names.len() - i,
                {
                    if param_names[i].value == *name {
                        return Ok(Type::Var(param_vars[i]));
                    }
                    i += 1;
                }
                // Otherwise it's a fresh type variable
                Ok(self.fresh())
            },
            TypeExpr::Con(name) => {
                if self.env.type_arity(name.as_str()).is_some() {
                    let no_args: Vec<Type> = Vec::new();
                    proof { assert(tview_seq(no_args@) =~= Seq::<TypeV>::empty()); }
                    Ok(Type::Con(name.clone(), no_args))
                } else {
                    Err(TypeError::UnknownType { name: name.clone(), span: ty_expr.span })
                }
            },
            TypeExpr::App(con, args) => {
                assert(decreases_to!(ty_expr => ty_expr.value));
                let con_ty = self.resolve_type_expr_with_vars(con, param_names, param_vars)?;
                let mut arg_tys: Vec<Type> = Vec::new();
                let mut i: usize = 0;
                while i < args.len()
                    invariant
                        self.wf(),
                        ty_expr.value == TypeExpr::App(*con, *args),
                        self.bindings() == old(self).bindings(),
                        self.constructors() == old(self).constructors(),
                        self.known_types() == old(self).known_types(),
                        self.substitution() == old(self).substitution(),
                    decreases args.len() - i,
                {
                    assert(decreases_to!(ty_expr => ty_expr.value));
                    assert(decreases_to!(ty_expr.value => ty_expr.value->App_1));
                    assert(decreases_to!(*args => args@));
                    assert(decreases_to!(args@ => args@[i as int]));
                    arg_tys.push(self.resolve_type_expr_with_vars(&args[i], param_names, param_vars)?);
                    i += 1;
                }
                match con_ty {
                    Type::Con(name, _) => Ok(Type::Con(name, arg_tys)),
                    other => Ok(other),
                }
            },
            TypeExpr::Arrow(t1, t2) => {
                assert(decreases_to!(ty_expr => ty_expr.value));
                let ty1 = self.resolve_type_expr_with_vars(t1, param_names, param_vars)?;
                let ty2 = self.resolve_type_expr_with_vars(t2, param_names, param_vars)?;
                Ok(Type::arrow(ty1, ty2))
            },
            TypeExpr::Tuple(elems) => {
                let mut elem_tys: Vec<Type> = Vec::new();
                let mut i: usize = 0;
                while i < elems.len()
                    invariant
                        self.wf(),
                        ty_expr.value == TypeExpr::Tuple(*elems),
                        self.bindings() == old(self).bindings(),
                        self.constructors() == old(self).constructors(),
                        self.known_types() == old(self).known_types(),
                        self.substitution() == old(self).substitution(),
                        elem_tys@.len() == i,
                        i <= elems@.len(),
                    decreases elems.len() - i,
                {
                    assert(decreases_to!(ty_expr => ty_expr.value));
                    assert(decreases_to!(ty_expr.value => ty_expr.value->Tuple_0));
                    assert(decreases_to!(*elems => elems@));
                    assert(decreases_to!(elems@ => elems@[i as int]));
                    elem_tys.push(self.resolve_type_expr_with_vars(&elems[i], param_names, param_vars)?);
                    i += 1;
                }
                proof { lemma_tview_seq(elem_tys@); }
                Ok(Type::Tuple(elem_tys))
            },
            TypeExpr::Record(fields) => {
                let mut field_tys: Vec<(String, Type)> = Vec::new();
                let mut i: usize = 0;
                while i < fields.len()
                    invariant
                        self.wf(),
                        ty_expr.value == TypeExpr::Record(*fields),
                        self.bindings() == old(self).bindings(),
                        self.constructors() == old(self).constructors(),
                        self.known_types() == old(self).known_types(),
                        self.substitution() == old(self).substitution(),
                        field_tys@.len() == i,
                        i <= fields@.len(),
                        forall|j: int| 0 <= j < i ==> #[trigger] field_tys@[j].0@ == fields@[j].0.value@,
                    decreases fields.len() - i,
                {
                    assert(decreases_to!(ty_expr => ty_expr.value));
                    assert(decreases_to!(ty_expr.value => ty_expr.value->Record_0));
                    assert(decreases_to!(*fields => fields@));
                    assert(decreases_to!(fields@ => fields@[i as int]));
                    assert(decreases_to!(fields@[i as int] => fields@[i as int].1));
                    let resolved = self.resolve_type_expr_with_vars(&fields[i].1, param_names, param_vars)?;
                    field_tys.push((fields[i].0.value.clone(), resolved));
                    i += 1;
                }
                proof { lemma_tview_fields(field_tys@); }
                Ok(Type::Record(field_tys))
            },
            TypeExpr::Paren(inner) => {
                assert(decreases_to!(ty_expr => ty_expr.value));
                self.resolve_type_expr_with_vars(inner, param_names, param_vars)
            },
        }
    }
}

} // verus!
