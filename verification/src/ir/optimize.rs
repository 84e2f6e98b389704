//! IR optimizations
//!
//! This module provides basic optimizations on the IR:
//! - Constant folding
//! - Dead code elimination
//! - Simple beta reduction
//! - If simplification

use vstd::prelude::*;
use crate::types::model::TypeV;
use super::base::{Primitive, VarId};
use super::fold::fold_prim;
use super::tree::{
    Binding, DeclV, IRCommandPart, IRDecl, IRExpr, IRLiteral, IRPattern, IRProgram, IrV, LitV, PartV, PatV,
    decls_view, is_value_v,
    aview_seq, bview_seq, cview, cview_seq, eview, eview_seq, fview_seq, lemma_aview_seq, lemma_bview_seq,
    lemma_cview_seq, lemma_eview_seq, lemma_fview_seq, lemma_pview_fields, lemma_pview_seq, pview,
    pview_fields, pview_seq,
};

verus! {

// ========== Which variables a pattern binds ==========

/// Whether a pattern binds a variable.
pub open spec fn binds(p: PatV, v: VarId) -> bool
    decreases p,
{
    match p {
        PatV::Var(x, _) => x == v,
        PatV::Tuple(ps) => binds_seq(ps, v),
        PatV::Record(fs) => binds_fields(fs, v),
        PatV::Con(_, arg) => match arg {
            Some(a) => binds(*a, v),
            None => false,
        },
        _ => false,
    }
}

pub open spec fn binds_seq(s: Seq<PatV>, v: VarId) -> bool
    decreases s,
{
    if s.len() == 0 { false } else { binds_seq(s.drop_last(), v) || binds(s.last(), v) }
}

pub open spec fn binds_fields(s: Seq<(Seq<char>, PatV)>, v: VarId) -> bool
    decreases s,
{
    if s.len() == 0 { false } else { binds_fields(s.drop_last(), v) || binds(s.last().1, v) }
}

/// Check if a pattern binds a variable.
fn pattern_binds(pattern: &IRPattern, var: VarId) -> (b: bool)
    ensures
        b == binds(pattern@, var),
    decreases pattern@,
{
    match pattern {
        IRPattern::Var(v, _) => *v == var,
        IRPattern::Tuple(elems) => {
            assert(decreases_to!(pattern@ => pattern@->Tuple_0));
            any_binds(elems, var)
        },
        IRPattern::Record(fields) => {
            assert(decreases_to!(pattern@ => pattern@->Record_0));
            any_field_binds(fields, var)
        },
        IRPattern::Con { arg, .. } => match arg {
            Some(p) => {
                assert(decreases_to!(pattern@ => pattern@->Con_1));
                assert(decreases_to!(pattern@->Con_1 => (pattern@->Con_1)->0));
                pattern_binds(p, var)
            },
            None => false,
        },
        IRPattern::Wildcard | IRPattern::Lit(_) => false,
    }
}

fn any_binds(elems: &Vec<IRPattern>, var: VarId) -> (b: bool)
    ensures
        b == binds_seq(pview_seq(elems@), var),
    decreases pview_seq(elems@),
{
    proof { lemma_pview_seq(elems@); }
    let ghost s = pview_seq(elems@);
    let mut i: usize = 0;
    while i < elems.len()
        invariant
            i <= elems@.len(),
            s == pview_seq(elems@),
            s.len() == elems@.len(),
            forall|j: int| 0 <= j < s.len() ==> #[trigger] s[j] == pview(elems@[j]),
            binds_seq(s.take(i as int), var) == false,
        decreases elems.len() - i,
    {
        proof {
            assert(s.take(i + 1).drop_last() =~= s.take(i as int));
            assert(s.take(i + 1).last() == s[i as int]);
        }
        assert(decreases_to!(s => s[i as int]));
        if pattern_binds(&elems[i], var) {
            proof { lemma_binds_seq_prefix(s, i + 1, var); }
            return true;
        }
        i += 1;
    }
    assert(s.take(i as int) =~= s);
    false
}

fn any_field_binds(fields: &Vec<(String, IRPattern)>, var: VarId) -> (b: bool)
    ensures
        b == binds_fields(pview_fields(fields@), var),
    decreases pview_fields(fields@),
{
    proof { lemma_pview_fields(fields@); }
    let ghost s = pview_fields(fields@);
    let mut i: usize = 0;
    while i < fields.len()
        invariant
            i <= fields@.len(),
            s == pview_fields(fields@),
            s.len() == fields@.len(),
            forall|j: int| 0 <= j < s.len() ==> #[trigger] s[j] == (fields@[j].0@, pview(fields@[j].1)),
            binds_fields(s.take(i as int), var) == false,
        decreases fields.len() - i,
    {
        proof {
            assert(s.take(i + 1).drop_last() =~= s.take(i as int));
            assert(s.take(i + 1).last() == s[i as int]);
        }
        assert(decreases_to!(s => s[i as int]));
        assert(decreases_to!(s[i as int] => s[i as int].1));
        if pattern_binds(&fields[i].1, var) {
            proof { lemma_binds_fields_prefix(s, i + 1, var); }
            return true;
        }
        i += 1;
    }
    assert(s.take(i as int) =~= s);
    false
}

pub proof fn lemma_binds_seq_prefix(s: Seq<PatV>, k: int, v: VarId)
    requires
        0 <= k <= s.len(),
        binds_seq(s.take(k), v),
    ensures
        binds_seq(s, v),
    decreases s.len() - k,
{
    if k < s.len() {
        assert(s.take(k + 1).drop_last() =~= s.take(k));
        lemma_binds_seq_prefix(s, k + 1, v);
    } else {
        assert(s.take(k) =~= s);
    }
}

pub proof fn lemma_binds_fields_prefix(s: Seq<(Seq<char>, PatV)>, k: int, v: VarId)
    requires
        0 <= k <= s.len(),
        binds_fields(s.take(k), v),
    ensures
        binds_fields(s, v),
    decreases s.len() - k,
{
    if k < s.len() {
        assert(s.take(k + 1).drop_last() =~= s.take(k));
        lemma_binds_fields_prefix(s, k + 1, v);
    } else {
        assert(s.take(k) =~= s);
    }
}


// ========== How often a variable is used ==========

/// Whether one of a group of recursive bindings binds the variable.
pub open spec fn shadows(bs: Seq<(VarId, crate::types::model::TypeV, IrV)>, v: VarId) -> bool {
    exists|i: int| 0 <= i < bs.len() && bs[i].0 == v
}

/// The number of free uses of a variable in an expression.
pub open spec fn uses(v: VarId, e: IrV) -> nat
    decreases e,
{
    match e {
        IrV::Var(x, _) => if x == v { 1 } else { 0 },
        IrV::Global(..) | IrV::Lit(..) | IrV::Unit => 0,
        IrV::Let(b, _, value, body) => uses(v, *value) + if b == v { 0 } else { uses(v, *body) },
        IrV::LetRec(bs, body) => uses_binds(v, bs) + if shadows(bs, v) { 0 } else { uses(v, *body) },
        IrV::Lambda(p, _, body, _) => if p == v { 0 } else { uses(v, *body) },
        IrV::App(f, a, _) => uses(v, *f) + uses(v, *a),
        IrV::If(c, t, f, _) => uses(v, *c) + uses(v, *t) + uses(v, *f),
        IrV::Match(scrut, arms, _) => uses(v, *scrut) + uses_arms(v, arms),
        IrV::Prim(_, args, _) => uses_seq(v, args),
        IrV::Construct(_, arg, _) => match arg {
            Some(a) => uses(v, *a),
            None => 0,
        },
        IrV::Tuple(es, _) => uses_seq(v, es),
        IrV::TupleProj(t, _, _) => uses(v, *t),
        IrV::Record(fs, _) => uses_fields(v, fs),
        IrV::Field(r, _, _) => uses(v, *r),
        IrV::Command(parts, stdin, _) => uses_parts(v, parts) + match stdin {
            Some(s) => uses(v, *s),
            None => 0,
        },
    }
}

pub open spec fn uses_seq(v: VarId, s: Seq<IrV>) -> nat
    decreases s,
{
    if s.len() == 0 { 0 } else { uses_seq(v, s.drop_last()) + uses(v, s.last()) }
}

pub open spec fn uses_binds(v: VarId, s: Seq<(VarId, crate::types::model::TypeV, IrV)>) -> nat
    decreases s,
{
    if s.len() == 0 { 0 } else { uses_binds(v, s.drop_last()) + uses(v, s.last().2) }
}

pub open spec fn uses_arms(v: VarId, s: Seq<(PatV, IrV)>) -> nat
    decreases s,
{
    if s.len() == 0 {
        0
    } else {
        uses_arms(v, s.drop_last()) + if binds(s.last().0, v) { 0 } else { uses(v, s.last().1) }
    }
}

pub open spec fn uses_fields(v: VarId, s: Seq<(Seq<char>, IrV)>) -> nat
    decreases s,
{
    if s.len() == 0 { 0 } else { uses_fields(v, s.drop_last()) + uses(v, s.last().1) }
}

pub open spec fn uses_parts(v: VarId, s: Seq<PartV>) -> nat
    decreases s,
{
    if s.len() == 0 {
        0
    } else {
        uses_parts(v, s.drop_last()) + match s.last() {
            PartV::Literal(_) => 0,
            PartV::Interpolation(e) => uses(v, *e),
        }
    }
}

/// A count, or the largest `usize` where the count exceeds it.
pub open spec fn capped(n: nat) -> usize {
    if n <= usize::MAX { n as usize } else { usize::MAX }
}

pub(crate) fn capped_add(a: usize, b: usize) -> (r: usize)
    ensures
        forall|x: nat, y: nat| #![trigger capped(x), capped(y)] a == capped(x) && b == capped(y) ==> r == capped(x + y),
{
    if a > usize::MAX - b { usize::MAX } else { a + b }
}

/// Count uses of a variable in an expression (counts beyond the largest `usize`
/// are given as the largest `usize`).
#[verifier::rlimit(60)]
#[verifier::spinoff_prover]
fn count_uses(var: VarId, expr: &IRExpr) -> (n: usize)
    ensures
        n == capped(uses(var, expr@)),
    decreases expr@,
{
    assert(capped(0) == 0 && capped(1) == 1);
    match expr {
        IRExpr::Var(v, _) => {
            if *v == var {
                assert(uses(var, expr@) == 1);
                assert(capped(1) == 1);
                1
            } else {
                assert(uses(var, expr@) == 0);
                assert(capped(0) == 0);
                0
            }
        },
        IRExpr::Global(_, _) | IRExpr::Lit(_, _) | IRExpr::Unit => {
            assert(capped(0) == 0);
            0
        },
        IRExpr::Let { var: bound_var, value, body, .. } => {
            assert(decreases_to!(expr@ => expr@->Let_2));
            assert(decreases_to!(expr@ => expr@->Let_3));
            let in_value = count_uses(var, value);
            if *bound_var == var {
                // Shadowed in body
                in_value
            } else {
                let in_body = count_uses(var, body);
                capped_add(in_value, in_body)
            }
        },
        IRExpr::LetRec { bindings, body } => {
            assert(decreases_to!(expr@ => expr@->LetRec_0));
            assert(decreases_to!(expr@ => expr@->LetRec_1));
            let in_bindings = count_uses_binds(var, bindings);
            if binding_shadows(bindings, var) {
                in_bindings
            } else {
                let in_body = count_uses(var, body);
                capped_add(in_bindings, in_body)
            }
        },
        IRExpr::Lambda { param, body, .. } => {
            assert(decreases_to!(expr@ => expr@->Lambda_2));
            if *param == var { 0 } else { count_uses(var, body) }
        },
        IRExpr::App { func, arg, .. } => {
            assert(decreases_to!(expr@ => expr@->App_0));
            assert(decreases_to!(expr@ => expr@->App_1));
            let a = count_uses(var, func);
            let b = count_uses(var, arg);
            capped_add(a, b)
        },
        IRExpr::If { cond, then_branch, else_branch, .. } => {
            assert(decreases_to!(expr@ => expr@->If_0));
            assert(decreases_to!(expr@ => expr@->If_1));
            assert(decreases_to!(expr@ => expr@->If_2));
            let a = count_uses(var, cond);
            let b = count_uses(var, then_branch);
            let c = count_uses(var, else_branch);
            let ab = capped_add(a, b);
            capped_add(ab, c)
        },
        IRExpr::Match { scrutinee, arms, .. } => {
            assert(decreases_to!(expr@ => expr@->Match_0));
            assert(decreases_to!(expr@ => expr@->Match_1));
            let a = count_uses(var, scrutinee);
            let b = count_uses_arms(var, arms);
            capped_add(a, b)
        },
        IRExpr::Prim { args, .. } => {
            assert(decreases_to!(expr@ => expr@->Prim_1));
            count_uses_seq(var, args)
        },
        IRExpr::Construct { arg, .. } => match arg {
            Some(a) => {
                assert(decreases_to!(expr@ => expr@->Construct_1));
                assert(decreases_to!(expr@->Construct_1 => (expr@->Construct_1)->0));
                count_uses(var, a)
            },
            None => 0,
        },
        IRExpr::Tuple { elems, .. } => {
            assert(decreases_to!(expr@ => expr@->Tuple_0));
            count_uses_seq(var, elems)
        },
        IRExpr::TupleProj { tuple, .. } => {
            assert(decreases_to!(expr@ => expr@->TupleProj_0));
            count_uses(var, tuple)
        },
        IRExpr::Record { fields, .. } => {
            assert(decreases_to!(expr@ => expr@->Record_0));
            count_uses_fields(var, fields)
        },
        IRExpr::Field { record, .. } => {
            assert(decreases_to!(expr@ => expr@->Field_0));
            count_uses(var, record)
        },
        IRExpr::Command { parts, stdin, .. } => {
            assert(decreases_to!(expr@ => expr@->Command_0));
            let in_parts = count_uses_parts(var, parts);
            let in_stdin = match stdin {
                Some(s) => {
                    assert(decreases_to!(expr@ => expr@->Command_1));
                    assert(decreases_to!(expr@->Command_1 => (expr@->Command_1)->0));
                    count_uses(var, s)
                },
                None => 0,
            };
            capped_add(in_parts, in_stdin)
        },
    }
}

fn binding_shadows(bindings: &Vec<Binding>, var: VarId) -> (b: bool)
    ensures
        b == shadows(bview_seq(bindings@), var),
{
    proof { lemma_bview_seq(bindings@); }
    let mut i: usize = 0;
    while i < bindings.len()
        invariant
            i <= bindings@.len(),
            bview_seq(bindings@).len() == bindings@.len(),
            forall|j: int| 0 <= j < bindings@.len() ==> #[trigger] bview_seq(bindings@)[j] == (bindings@[j].var, bindings@[j].ty@, eview(bindings@[j].value)),
            forall|j: int| 0 <= j < i ==> bindings@[j].var != var,
        decreases bindings.len() - i,
    {
        if bindings[i].var == var {
            assert(bview_seq(bindings@)[i as int].0 == var);
            return true;
        }
        i += 1;
    }
    false
}

fn count_uses_seq(var: VarId, es: &Vec<IRExpr>) -> (n: usize)
    ensures
        n == capped(uses_seq(var, eview_seq(es@))),
    decreases eview_seq(es@),
{
    proof { lemma_eview_seq(es@); }
    let ghost s = eview_seq(es@);
    let mut acc: usize = 0;
    let mut i: usize = 0;
    assert(s.take(0) =~= Seq::<IrV>::empty());
    while i < es.len()
        invariant
            i <= es@.len(),
            s == eview_seq(es@),
            s.len() == es@.len(),
            forall|j: int| 0 <= j < s.len() ==> #[trigger] s[j] == eview(es@[j]),
            acc == capped(uses_seq(var, s.take(i as int))),
        decreases es.len() - i,
    {
        proof {
            assert(s.take(i + 1).drop_last() =~= s.take(i as int));
            assert(s.take(i + 1).last() == s[i as int]);
        }
        assert(decreases_to!(s => s[i as int]));
        let c = count_uses(var, &es[i]);
        acc = capped_add(acc, c);
        i += 1;
    }
    assert(s.take(i as int) =~= s);
    acc
}

fn count_uses_binds(var: VarId, bs: &Vec<Binding>) -> (n: usize)
    ensures
        n == capped(uses_binds(var, bview_seq(bs@))),
    decreases bview_seq(bs@),
{
    proof { lemma_bview_seq(bs@); }
    let ghost s = bview_seq(bs@);
    let mut acc: usize = 0;
    let mut i: usize = 0;
    assert(s.take(0) =~= Seq::<(VarId, crate::types::model::TypeV, IrV)>::empty());
    while i < bs.len()
        invariant
            i <= bs@.len(),
            s == bview_seq(bs@),
            s.len() == bs@.len(),
            forall|j: int| 0 <= j < s.len() ==> #[trigger] s[j] == (bs@[j].var, bs@[j].ty@, eview(bs@[j].value)),
            acc == capped(uses_binds(var, s.take(i as int))),
        decreases bs.len() - i,
    {
        proof {
            assert(s.take(i + 1).drop_last() =~= s.take(i as int));
            assert(s.take(i + 1).last() == s[i as int]);
        }
        assert(decreases_to!(s => s[i as int]));
        assert(decreases_to!(s[i as int] => s[i as int].2));
        let c = count_uses(var, &bs[i].value);
        acc = capped_add(acc, c);
        i += 1;
    }
    assert(s.take(i as int) =~= s);
    acc
}

fn count_uses_arms(var: VarId, arms: &Vec<(IRPattern, IRExpr)>) -> (n: usize)
    ensures
        n == capped(uses_arms(var, aview_seq(arms@))),
    decreases aview_seq(arms@),
{
    proof { lemma_aview_seq(arms@); }
    let ghost s = aview_seq(arms@);
    let mut acc: usize = 0;
    let mut i: usize = 0;
    assert(s.take(0) =~= Seq::<(PatV, IrV)>::empty());
    while i < arms.len()
        invariant
            i <= arms@.len(),
            s == aview_seq(arms@),
            s.len() == arms@.len(),
            forall|j: int| 0 <= j < s.len() ==> #[trigger] s[j] == (arms@[j].0@, eview(arms@[j].1)),
            acc == capped(uses_arms(var, s.take(i as int))),
        decreases arms.len() - i,
    {
        proof {
            assert(s.take(i + 1).drop_last() =~= s.take(i as int));
            assert(s.take(i + 1).last() == s[i as int]);
        }
        assert(decreases_to!(s => s[i as int]));
        assert(decreases_to!(s[i as int] => s[i as int].1));
        let c = if pattern_binds(&arms[i].0, var) { 0 } else { count_uses(var, &arms[i].1) };
        assert(c == capped(if binds(s[i as int].0, var) { 0 } else { uses(var, s[i as int].1) }));
        acc = capped_add(acc, c);
        i += 1;
    }
    assert(s.take(i as int) =~= s);
    acc
}

fn count_uses_fields(var: VarId, fields: &Vec<(String, IRExpr)>) -> (n: usize)
    ensures
        n == capped(uses_fields(var, fview_seq(fields@))),
    decreases fview_seq(fields@),
{
    proof { lemma_fview_seq(fields@); }
    let ghost s = fview_seq(fields@);
    let mut acc: usize = 0;
    let mut i: usize = 0;
    assert(s.take(0) =~= Seq::<(Seq<char>, IrV)>::empty());
    while i < fields.len()
        invariant
            i <= fields@.len(),
            s == fview_seq(fields@),
            s.len() == fields@.len(),
            forall|j: int| 0 <= j < s.len() ==> #[trigger] s[j] == (fields@[j].0@, eview(fields@[j].1)),
            acc == capped(uses_fields(var, s.take(i as int))),
        decreases fields.len() - i,
    {
        proof {
            assert(s.take(i + 1).drop_last() =~= s.take(i as int));
            assert(s.take(i + 1).last() == s[i as int]);
        }
        assert(decreases_to!(s => s[i as int]));
        assert(decreases_to!(s[i as int] => s[i as int].1));
        let c = count_uses(var, &fields[i].1);
        acc = capped_add(acc, c);
        i += 1;
    }
    assert(s.take(i as int) =~= s);
    acc
}

fn count_uses_parts(var: VarId, parts: &Vec<IRCommandPart>) -> (n: usize)
    ensures
        n == capped(uses_parts(var, cview_seq(parts@))),
    decreases cview_seq(parts@),
{
    proof { lemma_cview_seq(parts@); }
    let ghost s = cview_seq(parts@);
    let mut acc: usize = 0;
    let mut i: usize = 0;
    assert(s.take(0) =~= Seq::<PartV>::empty());
    while i < parts.len()
        invariant
            i <= parts@.len(),
            s == cview_seq(parts@),
            s.len() == parts@.len(),
            forall|j: int| 0 <= j < s.len() ==> #[trigger] s[j] == cview(parts@[j]),
            acc == capped(uses_parts(var, s.take(i as int))),
        decreases parts.len() - i,
    {
        proof {
            assert(s.take(i + 1).drop_last() =~= s.take(i as int));
            assert(s.take(i + 1).last() == s[i as int]);
        }
        let c = match &parts[i] {
            IRCommandPart::Literal(_) => {
                assert(0 == capped(0));
                0
            },
            IRCommandPart::Interpolation(e) => {
                assert(decreases_to!(s => s[i as int]));
                assert(decreases_to!(s[i as int] => s[i as int]->Interpolation_0));
                count_uses(var, e)
            },
        };
        acc = capped_add(acc, c);
        i += 1;
    }
    assert(s.take(i as int) =~= s);
    acc
}


// ========== Substitution ==========

/// An expression with the free uses of a variable replaced by another expression.
pub open spec fn subst_v(v: VarId, r: IrV, e: IrV) -> IrV
    decreases e,
{
    match e {
        IrV::Var(x, _) => if x == v { r } else { e },
        IrV::Global(..) | IrV::Lit(..) | IrV::Unit => e,
        IrV::Let(b, t, value, body) => IrV::Let(
            b,
            t,
            Box::new(subst_v(v, r, *value)),
            if b == v { body } else { Box::new(subst_v(v, r, *body)) },
        ),
        IrV::LetRec(bs, body) => if shadows(bs, v) {
            e
        } else {
            IrV::LetRec(subst_binds(v, r, bs), Box::new(subst_v(v, r, *body)))
        },
        IrV::Lambda(p, pt, body, rt) => if p == v { e } else { IrV::Lambda(p, pt, Box::new(subst_v(v, r, *body)), rt) },
        IrV::App(f, a, t) => IrV::App(Box::new(subst_v(v, r, *f)), Box::new(subst_v(v, r, *a)), t),
        IrV::If(c, th, el, t) => IrV::If(
            Box::new(subst_v(v, r, *c)),
            Box::new(subst_v(v, r, *th)),
            Box::new(subst_v(v, r, *el)),
            t,
        ),
        IrV::Match(scrut, arms, t) => IrV::Match(Box::new(subst_v(v, r, *scrut)), subst_arms(v, r, arms), t),
        IrV::Prim(op, args, t) => IrV::Prim(op, subst_seq(v, r, args), t),
        IrV::Construct(c, arg, t) => IrV::Construct(c, match arg {
            Some(a) => Some(Box::new(subst_v(v, r, *a))),
            None => None,
        }, t),
        IrV::Tuple(es, t) => IrV::Tuple(subst_seq(v, r, es), t),
        IrV::TupleProj(tu, i, t) => IrV::TupleProj(Box::new(subst_v(v, r, *tu)), i, t),
        IrV::Record(fs, t) => IrV::Record(subst_fields(v, r, fs), t),
        IrV::Field(rec, f, t) => IrV::Field(Box::new(subst_v(v, r, *rec)), f, t),
        IrV::Command(parts, stdin, t) => IrV::Command(subst_parts(v, r, parts), match stdin {
            Some(x) => Some(Box::new(subst_v(v, r, *x))),
            None => None,
        }, t),
    }
}

pub open spec fn subst_seq(v: VarId, r: IrV, s: Seq<IrV>) -> Seq<IrV>
    decreases s,
{
    if s.len() == 0 { s } else { subst_seq(v, r, s.drop_last()).push(subst_v(v, r, s.last())) }
}

pub open spec fn subst_binds(v: VarId, r: IrV, s: Seq<(VarId, crate::types::model::TypeV, IrV)>) -> Seq<(VarId, crate::types::model::TypeV, IrV)>
    decreases s,
{
    if s.len() == 0 {
        s
    } else {
        subst_binds(v, r, s.drop_last()).push((s.last().0, s.last().1, subst_v(v, r, s.last().2)))
    }
}

pub open spec fn subst_arms(v: VarId, r: IrV, s: Seq<(PatV, IrV)>) -> Seq<(PatV, IrV)>
    decreases s,
{
    if s.len() == 0 {
        s
    } else {
        subst_arms(v, r, s.drop_last()).push((
            s.last().0,
            if binds(s.last().0, v) { s.last().1 } else { subst_v(v, r, s.last().1) },
        ))
    }
}

pub open spec fn subst_fields(v: VarId, r: IrV, s: Seq<(Seq<char>, IrV)>) -> Seq<(Seq<char>, IrV)>
    decreases s,
{
    if s.len() == 0 { s } else { subst_fields(v, r, s.drop_last()).push((s.last().0, subst_v(v, r, s.last().1))) }
}

pub open spec fn subst_part(v: VarId, r: IrV, p: PartV) -> PartV
    decreases p,
{
    match p {
        PartV::Literal(t) => PartV::Literal(t),
        PartV::Interpolation(e) => PartV::Interpolation(Box::new(subst_v(v, r, *e))),
    }
}

pub open spec fn subst_parts(v: VarId, r: IrV, s: Seq<PartV>) -> Seq<PartV>
    decreases s,
{
    if s.len() == 0 { s } else { subst_parts(v, r, s.drop_last()).push(subst_part(v, r, s.last())) }
}

fn substitute_exprs(var: VarId, replacement: &IRExpr, es: Vec<IRExpr>) -> (r: Vec<IRExpr>)
    ensures
        eview_seq(r@) == subst_seq(var, replacement@, eview_seq(es@)),
    decreases eview_seq(es@),
{
    proof { lemma_eview_seq(es@); }
    let ghost s = eview_seq(es@);
    let ghost orig = es@;
    let mut r: Vec<IRExpr> = Vec::new();
    proof { assert(s.take(0) =~= Seq::<IrV>::empty()); }
    for x in it: es
        invariant
            s == eview_seq(orig),
            s.len() == orig.len(),
            it.seq() == orig,
            forall|j: int| 0 <= j < s.len() ==> #[trigger] s[j] == eview(orig[j]),
            eview_seq(r@) == subst_seq(var, replacement@, s.take(it.index() as int)),
    {
        let ghost k = it.index() as int;
        proof {
            assert(s.take(k + 1).drop_last() =~= s.take(k));
            assert(s.take(k + 1).last() == s[k]);
            assert(decreases_to!(s => s[k]));
        }
        let y = substitute(var, replacement, x);
        let ghost prev = r@;
        r.push(y);
        proof {
            assert(r@.drop_last() =~= prev);
        }
    }
    proof {
        broadcast use vstd::std_specs::vec::axiom_spec_into_iter;
        assert(s.take(s.len() as int) =~= s);
    }
    r
}


fn substitute_bindings(var: VarId, replacement: &IRExpr, bs: Vec<Binding>) -> (r: Vec<Binding>)
    ensures
        bview_seq(r@) == subst_binds(var, replacement@, bview_seq(bs@)),
    decreases bview_seq(bs@),
{
    proof { lemma_bview_seq(bs@); }
    let ghost s = bview_seq(bs@);
    let ghost orig = bs@;
    let mut r: Vec<Binding> = Vec::new();
    proof { assert(s.take(0) =~= Seq::<(VarId, crate::types::model::TypeV, IrV)>::empty()); }
    for b in it: bs
        invariant
            s == bview_seq(orig),
            s.len() == orig.len(),
            it.seq() == orig,
            forall|j: int| 0 <= j < s.len() ==> #[trigger] s[j] == (orig[j].var, orig[j].ty@, eview(orig[j].value)),
            bview_seq(r@) == subst_binds(var, replacement@, s.take(it.index() as int)),
    {
        let ghost k = it.index() as int;
        proof {
            assert(s.take(k + 1).drop_last() =~= s.take(k));
            assert(s.take(k + 1).last() == s[k]);
            assert(decreases_to!(s => s[k]));
            assert(decreases_to!(s[k] => s[k].2));
        }
        let Binding { var: bv, ty, value } = b;
        let nv = substitute(var, replacement, value);
        let ghost prev = r@;
        r.push(Binding { var: bv, ty, value: nv });
        proof {
            assert(r@.drop_last() =~= prev);
        }
    }
    proof {
        broadcast use vstd::std_specs::vec::axiom_spec_into_iter;
        assert(s.take(s.len() as int) =~= s);
    }
    r
}

fn substitute_arms(var: VarId, replacement: &IRExpr, arms: Vec<(IRPattern, IRExpr)>) -> (r: Vec<(IRPattern, IRExpr)>)
    ensures
        aview_seq(r@) == subst_arms(var, replacement@, aview_seq(arms@)),
    decreases aview_seq(arms@),
{
    proof { lemma_aview_seq(arms@); }
    let ghost s = aview_seq(arms@);
    let ghost orig = arms@;
    let mut r: Vec<(IRPattern, IRExpr)> = Vec::new();
    proof { assert(s.take(0) =~= Seq::<(PatV, IrV)>::empty()); }
    for arm in it: arms
        invariant
            s == aview_seq(orig),
            s.len() == orig.len(),
            it.seq() == orig,
            forall|j: int| 0 <= j < s.len() ==> #[trigger] s[j] == (orig[j].0@, eview(orig[j].1)),
            aview_seq(r@) == subst_arms(var, replacement@, s.take(it.index() as int)),
    {
        let ghost k = it.index() as int;
        proof {
            assert(s.take(k + 1).drop_last() =~= s.take(k));
            assert(s.take(k + 1).last() == s[k]);
            assert(decreases_to!(s => s[k]));
            assert(decreases_to!(s[k] => s[k].1));
        }
        let (pat, body) = arm;
        let new_body = if pattern_binds(&pat, var) { body } else { substitute(var, replacement, body) };
        let ghost prev = r@;
        r.push((pat, new_body));
        proof {
            assert(r@.drop_last() =~= prev);
        }
    }
    proof {
        broadcast use vstd::std_specs::vec::axiom_spec_into_iter;
        assert(s.take(s.len() as int) =~= s);
    }
    r
}

fn substitute_fields(var: VarId, replacement: &IRExpr, fields: Vec<(String, IRExpr)>) -> (r: Vec<(String, IRExpr)>)
    ensures
        fview_seq(r@) == subst_fields(var, replacement@, fview_seq(fields@)),
    decreases fview_seq(fields@),
{
    proof { lemma_fview_seq(fields@); }
    let ghost s = fview_seq(fields@);
    let ghost orig = fields@;
    let mut r: Vec<(String, IRExpr)> = Vec::new();
    proof { assert(s.take(0) =~= Seq::<(Seq<char>, IrV)>::empty()); }
    for field in it: fields
        invariant
            s == fview_seq(orig),
            s.len() == orig.len(),
            it.seq() == orig,
            forall|j: int| 0 <= j < s.len() ==> #[trigger] s[j] == (orig[j].0@, eview(orig[j].1)),
            fview_seq(r@) == subst_fields(var, replacement@, s.take(it.index() as int)),
    {
        let ghost k = it.index() as int;
        proof {
            assert(s.take(k + 1).drop_last() =~= s.take(k));
            assert(s.take(k + 1).last() == s[k]);
            assert(decreases_to!(s => s[k]));
            assert(decreases_to!(s[k] => s[k].1));
        }
        let (n, e) = field;
        let ne = substitute(var, replacement, e);
        let ghost prev = r@;
        r.push((n, ne));
        proof {
            assert(r@.drop_last() =~= prev);
        }
    }
    proof {
        broadcast use vstd::std_specs::vec::axiom_spec_into_iter;
        assert(s.take(s.len() as int) =~= s);
    }
    r
}

fn substitute_parts(var: VarId, replacement: &IRExpr, parts: Vec<IRCommandPart>) -> (r: Vec<IRCommandPart>)
    ensures
        cview_seq(r@) == subst_parts(var, replacement@, cview_seq(parts@)),
    decreases cview_seq(parts@),
{
    proof { lemma_cview_seq(parts@); }
    let ghost s = cview_seq(parts@);
    let ghost orig = parts@;
    let mut r: Vec<IRCommandPart> = Vec::new();
    proof { assert(s.take(0) =~= Seq::<PartV>::empty()); }
    for part in it: parts
        invariant
            s == cview_seq(orig),
            s.len() == orig.len(),
            it.seq() == orig,
            forall|j: int| 0 <= j < s.len() ==> #[trigger] s[j] == cview(orig[j]),
            cview_seq(r@) == subst_parts(var, replacement@, s.take(it.index() as int)),
    {
        let ghost k = it.index() as int;
        proof {
            assert(s.take(k + 1).drop_last() =~= s.take(k));
            assert(s.take(k + 1).last() == s[k]);
        }
        let ghost pv = cview(part);
        let np = match part {
            IRCommandPart::Literal(t) => IRCommandPart::Literal(t),
            IRCommandPart::Interpolation(e) => {
                assert(decreases_to!(s => s[k]));
                assert(decreases_to!(s[k] => s[k]->Interpolation_0));
                IRCommandPart::Interpolation(Box::new(substitute(var, replacement, *e)))
            },
        };
        assert(cview(np) == subst_part(var, replacement@, pv));
        let ghost prev = r@;
        r.push(np);
        proof {
            assert(r@.drop_last() =~= prev);
        }
    }
    proof {
        broadcast use vstd::std_specs::vec::axiom_spec_into_iter;
        assert(s.take(s.len() as int) =~= s);
    }
    r
}

/// Substitute a variable with an expression.
#[verifier::rlimit(60)]
#[verifier::spinoff_prover]
fn substitute(var: VarId, replacement: &IRExpr, expr: IRExpr) -> (r: IRExpr)
    ensures
        r@ == subst_v(var, replacement@, expr@),
    decreases expr@,
{
    let ghost ev = expr@;
    match expr {
        IRExpr::Var(v, t) => {
            if v == var {
                replacement.clone()
            } else {
                IRExpr::Var(v, t)
            }
        },
        IRExpr::Global(n, t) => IRExpr::Global(n, t),
        IRExpr::Lit(l, t) => IRExpr::Lit(l, t),
        IRExpr::Unit => IRExpr::Unit,
        IRExpr::Let { var: bound_var, ty, value, body } => {
            assert(decreases_to!(ev => ev->Let_2));
            assert(decreases_to!(ev => ev->Let_3));
            let new_value = Box::new(substitute(var, replacement, *value));
            let new_body = if bound_var == var { body } else { Box::new(substitute(var, replacement, *body)) };
            IRExpr::Let { var: bound_var, ty, value: new_value, body: new_body }
        },
        IRExpr::LetRec { bindings, body } => {
            assert(decreases_to!(ev => ev->LetRec_0));
            assert(decreases_to!(ev => ev->LetRec_1));
            let shadowed = binding_shadows(&bindings, var);
            if shadowed {
                IRExpr::LetRec { bindings, body }
            } else {
                let new_bindings = substitute_bindings(var, replacement, bindings);
                let new_body = Box::new(substitute(var, replacement, *body));
                IRExpr::LetRec { bindings: new_bindings, body: new_body }
            }
        },
        IRExpr::Lambda { param, param_ty, body, result_ty } => {
            if param == var {
                IRExpr::Lambda { param, param_ty, body, result_ty }
            } else {
                assert(decreases_to!(ev => ev->Lambda_2));
                IRExpr::Lambda { param, param_ty, body: Box::new(substitute(var, replacement, *body)), result_ty }
            }
        },
        IRExpr::App { func, arg, result_ty } => {
            assert(decreases_to!(ev => ev->App_0));
            assert(decreases_to!(ev => ev->App_1));
            IRExpr::App {
                func: Box::new(substitute(var, replacement, *func)),
                arg: Box::new(substitute(var, replacement, *arg)),
                result_ty,
            }
        },
        IRExpr::If { cond, then_branch, else_branch, ty } => {
            assert(decreases_to!(ev => ev->If_0));
            assert(decreases_to!(ev => ev->If_1));
            assert(decreases_to!(ev => ev->If_2));
            IRExpr::If {
                cond: Box::new(substitute(var, replacement, *cond)),
                then_branch: Box::new(substitute(var, replacement, *then_branch)),
                else_branch: Box::new(substitute(var, replacement, *else_branch)),
                ty,
            }
        },
        IRExpr::Match { scrutinee, arms, ty } => {
            assert(decreases_to!(ev => ev->Match_0));
            assert(decreases_to!(ev => ev->Match_1));
            let new_scrutinee = Box::new(substitute(var, replacement, *scrutinee));
            let new_arms = substitute_arms(var, replacement, arms);
            IRExpr::Match { scrutinee: new_scrutinee, arms: new_arms, ty }
        },
        IRExpr::Prim { op, args, ty } => {
            assert(decreases_to!(ev => ev->Prim_1));
            IRExpr::Prim { op, args: substitute_exprs(var, replacement, args), ty }
        },
        IRExpr::Construct { ctor, arg, ty } => {
            let new_arg = match arg {
                Some(a) => {
                    assert(decreases_to!(ev => ev->Construct_1));
                    assert(decreases_to!(ev->Construct_1 => (ev->Construct_1)->0));
                    Some(Box::new(substitute(var, replacement, *a)))
                },
                None => None,
            };
            IRExpr::Construct { ctor, arg: new_arg, ty }
        },
        IRExpr::Tuple { elems, ty } => {
            assert(decreases_to!(ev => ev->Tuple_0));
            IRExpr::Tuple { elems: substitute_exprs(var, replacement, elems), ty }
        },
        IRExpr::TupleProj { tuple, index, ty } => {
            assert(decreases_to!(ev => ev->TupleProj_0));
            IRExpr::TupleProj { tuple: Box::new(substitute(var, replacement, *tuple)), index, ty }
        },
        IRExpr::Record { fields, ty } => {
            assert(decreases_to!(ev => ev->Record_0));
            IRExpr::Record { fields: substitute_fields(var, replacement, fields), ty }
        },
        IRExpr::Field { record, field, ty } => {
            assert(decreases_to!(ev => ev->Field_0));
            IRExpr::Field { record: Box::new(substitute(var, replacement, *record)), field, ty }
        },
        IRExpr::Command { parts, stdin, ty } => {
            assert(decreases_to!(ev => ev->Command_0));
            let new_parts = substitute_parts(var, replacement, parts);
            let new_stdin = match stdin {
                Some(x) => {
                    assert(decreases_to!(ev => ev->Command_1));
                    assert(decreases_to!(ev->Command_1 => (ev->Command_1)->0));
                    Some(Box::new(substitute(var, replacement, *x)))
                },
                None => None,
            };
            IRExpr::Command { parts: new_parts, stdin: new_stdin, ty }
        },
    }
}


// ========== Free variables ==========

/// The variables a pattern binds.
pub open spec fn pat_vars(p: PatV) -> Set<VarId>
    decreases p,
{
    match p {
        PatV::Var(x, _) => set![x],
        PatV::Tuple(ps) => pat_vars_seq(ps),
        PatV::Record(fs) => pat_vars_fields(fs),
        PatV::Con(_, arg) => match arg {
            Some(a) => pat_vars(*a),
            None => Set::empty(),
        },
        _ => Set::empty(),
    }
}

pub open spec fn pat_vars_seq(s: Seq<PatV>) -> Set<VarId>
    decreases s,
{
    if s.len() == 0 { Set::empty() } else { pat_vars_seq(s.drop_last()).union(pat_vars(s.last())) }
}

pub open spec fn pat_vars_fields(s: Seq<(Seq<char>, PatV)>) -> Set<VarId>
    decreases s,
{
    if s.len() == 0 { Set::empty() } else { pat_vars_fields(s.drop_last()).union(pat_vars(s.last().1)) }
}

/// The variables of a group of recursive bindings.
pub open spec fn bound_by(bs: Seq<(VarId, crate::types::model::TypeV, IrV)>) -> Set<VarId> {
    Set::new(|x: VarId| shadows(bs, x))
}

/// The free variables of an expression.
pub open spec fn ir_fv(e: IrV) -> Set<VarId>
    decreases e,
{
    match e {
        IrV::Var(x, _) => set![x],
        IrV::Global(..) | IrV::Lit(..) | IrV::Unit => Set::empty(),
        IrV::Let(b, _, value, body) => ir_fv(*value).union(ir_fv(*body).remove(b)),
        IrV::LetRec(bs, body) => fv_binds(bs).union(ir_fv(*body)).difference(bound_by(bs)),
        IrV::Lambda(p, _, body, _) => ir_fv(*body).remove(p),
        IrV::App(f, a, _) => ir_fv(*f).union(ir_fv(*a)),
        IrV::If(c, t, f, _) => ir_fv(*c).union(ir_fv(*t)).union(ir_fv(*f)),
        IrV::Match(scrut, arms, _) => ir_fv(*scrut).union(fv_arms(arms)),
        IrV::Prim(_, args, _) => fv_seq(args),
        IrV::Construct(_, arg, _) => match arg {
            Some(a) => ir_fv(*a),
            None => Set::empty(),
        },
        IrV::Tuple(es, _) => fv_seq(es),
        IrV::TupleProj(t, _, _) => ir_fv(*t),
        IrV::Record(fs, _) => fv_fields(fs),
        IrV::Field(r, _, _) => ir_fv(*r),
        IrV::Command(parts, stdin, _) => fv_parts(parts).union(match stdin {
            Some(x) => ir_fv(*x),
            None => Set::empty(),
        }),
    }
}

pub open spec fn fv_seq(s: Seq<IrV>) -> Set<VarId>
    decreases s,
{
    if s.len() == 0 { Set::empty() } else { fv_seq(s.drop_last()).union(ir_fv(s.last())) }
}

pub open spec fn fv_binds(s: Seq<(VarId, crate::types::model::TypeV, IrV)>) -> Set<VarId>
    decreases s,
{
    if s.len() == 0 { Set::empty() } else { fv_binds(s.drop_last()).union(ir_fv(s.last().2)) }
}

pub open spec fn fv_arms(s: Seq<(PatV, IrV)>) -> Set<VarId>
    decreases s,
{
    if s.len() == 0 {
        Set::empty()
    } else {
        fv_arms(s.drop_last()).union(ir_fv(s.last().1).difference(pat_vars(s.last().0)))
    }
}

pub open spec fn fv_fields(s: Seq<(Seq<char>, IrV)>) -> Set<VarId>
    decreases s,
{
    if s.len() == 0 { Set::empty() } else { fv_fields(s.drop_last()).union(ir_fv(s.last().1)) }
}

pub open spec fn fv_parts(s: Seq<PartV>) -> Set<VarId>
    decreases s,
{
    if s.len() == 0 {
        Set::empty()
    } else {
        fv_parts(s.drop_last()).union(match s.last() {
            PartV::Literal(_) => Set::empty(),
            PartV::Interpolation(e) => ir_fv(*e),
        })
    }
}

/// The variables of a list, as a set.
pub open spec fn id_set(s: Seq<VarId>) -> Set<VarId> {
    Set::new(|x: VarId| s.contains(x))
}

/// No variable occurs twice.
pub open spec fn distinct_ids(s: Seq<VarId>) -> bool {
    forall|i: int, j: int| 0 <= i < j < s.len() ==> s[i] != s[j]
}

fn contains_id(vs: &Vec<VarId>, v: VarId) -> (b: bool)
    ensures
        b == vs@.contains(v),
{
    let mut i: usize = 0;
    while i < vs.len()
        invariant
            i <= vs@.len(),
            forall|j: int| 0 <= j < i ==> vs@[j] != v,
        decreases vs.len() - i,
    {
        if vs[i] == v {
            assert(vs@[i as int] == v);
            return true;
        }
        i += 1;
    }
    false
}

fn insert_id(vs: &mut Vec<VarId>, v: VarId)
    ensures
        distinct_ids(old(vs)@) ==> distinct_ids(final(vs)@),
        id_set(final(vs)@) == id_set(old(vs)@).insert(v),
{
    if !contains_id(vs, v) {
        let ghost before = vs@;
        vs.push(v);
        assert(id_set(vs@) =~= id_set(before).insert(v)) by {
            assert forall|x: VarId| vs@.contains(x) <==> before.contains(x) || x == v by {
                if vs@.contains(x) {
                    let k = choose|k: int| 0 <= k < vs@.len() && vs@[k] == x;
                    if k < before.len() {
                        assert(before[k] == x);
                    }
                }
                if before.contains(x) {
                    let k = choose|k: int| 0 <= k < before.len() && before[k] == x;
                    assert(vs@[k] == x);
                }
                if x == v {
                    assert(vs@[before.len() as int] == v);
                }
            }
        }
    } else {
        assert(id_set(vs@) =~= id_set(vs@).insert(v));
    }
}

fn copy_ids(vs: &Vec<VarId>) -> (r: Vec<VarId>)
    ensures
        r@ == vs@,
{
    let mut r: Vec<VarId> = Vec::new();
    let mut i: usize = 0;
    while i < vs.len()
        invariant
            i <= vs@.len(),
            r@ == vs@.take(i as int),
        decreases vs.len() - i,
    {
        r.push(vs[i]);
        i += 1;
        assert(r@ =~= vs@.take(i as int));
    }
    assert(vs@.take(i as int) =~= vs@);
    r
}

/// Collect variables bound by a pattern.
fn collect_pattern_vars(pattern: &IRPattern, vars: &mut Vec<VarId>)
    ensures
        distinct_ids(old(vars)@) ==> distinct_ids(final(vars)@),
        id_set(final(vars)@) == id_set(old(vars)@).union(pat_vars(pattern@)),
    decreases pattern@,
{
    match pattern {
        IRPattern::Var(v, _) => {
            insert_id(vars, *v);
            assert(id_set(vars@) =~= id_set(old(vars)@).union(pat_vars(pattern@)));
        },
        IRPattern::Tuple(elems) => {
            assert(decreases_to!(pattern@ => pattern@->Tuple_0));
            proof { lemma_pview_seq(elems@); }
            let ghost s = pview_seq(elems@);
            let ghost start = id_set(vars@);
            let ghost was = distinct_ids(vars@);
            let mut i: usize = 0;
            assert(start =~= start.union(pat_vars_seq(s.take(0))));
            while i < elems.len()
                invariant
                    i <= elems@.len(),
                    s == pview_seq(elems@),
                    s.len() == elems@.len(),
                    forall|j: int| 0 <= j < s.len() ==> #[trigger] s[j] == pview(elems@[j]),
                    was ==> distinct_ids(vars@),
                    id_set(vars@) == start.union(pat_vars_seq(s.take(i as int))),
                    decreases_to!(pattern@ => s),
                decreases elems.len() - i,
            {
                proof {
                    assert(s.take(i + 1).drop_last() =~= s.take(i as int));
                    assert(s.take(i + 1).last() == s[i as int]);
                    assert(decreases_to!(s => s[i as int]));
                }
                collect_pattern_vars(&elems[i], vars);
                assert(id_set(vars@) =~= start.union(pat_vars_seq(s.take(i + 1))));
                i += 1;
            }
            assert(s.take(i as int) =~= s);
        },
        IRPattern::Record(fields) => {
            assert(decreases_to!(pattern@ => pattern@->Record_0));
            proof { lemma_pview_fields(fields@); }
            let ghost s = pview_fields(fields@);
            let ghost start = id_set(vars@);
            let ghost was = distinct_ids(vars@);
            let mut i: usize = 0;
            assert(start =~= start.union(pat_vars_fields(s.take(0))));
            while i < fields.len()
                invariant
                    i <= fields@.len(),
                    s == pview_fields(fields@),
                    s.len() == fields@.len(),
                    forall|j: int| 0 <= j < s.len() ==> #[trigger] s[j] == (fields@[j].0@, pview(fields@[j].1)),
                    was ==> distinct_ids(vars@),
                    id_set(vars@) == start.union(pat_vars_fields(s.take(i as int))),
                    decreases_to!(pattern@ => s),
                decreases fields.len() - i,
            {
                proof {
                    assert(s.take(i + 1).drop_last() =~= s.take(i as int));
                    assert(s.take(i + 1).last() == s[i as int]);
                    assert(decreases_to!(s => s[i as int]));
                    assert(decreases_to!(s[i as int] => s[i as int].1));
                }
                collect_pattern_vars(&fields[i].1, vars);
                assert(id_set(vars@) =~= start.union(pat_vars_fields(s.take(i + 1))));
                i += 1;
            }
            assert(s.take(i as int) =~= s);
        },
        IRPattern::Con { arg, .. } => {
            match arg {
                Some(a) => {
                    assert(decreases_to!(pattern@ => pattern@->Con_1));
                    assert(decreases_to!(pattern@->Con_1 => (pattern@->Con_1)->0));
                    collect_pattern_vars(a, vars);
                },
                None => {
                    assert(id_set(vars@) =~= id_set(vars@).union(Set::<VarId>::empty()));
                },
            }
        },
        IRPattern::Wildcard | IRPattern::Lit(_) => {
            assert(id_set(vars@) =~= id_set(vars@).union(Set::<VarId>::empty()));
        },
    }
}


/// Collect all free variables in an expression, each once.
pub fn free_vars(expr: &IRExpr) -> (r: Vec<VarId>)
    ensures
        distinct_ids(r@),
        id_set(r@) == ir_fv(expr@),
{
    let mut vars: Vec<VarId> = Vec::new();
    let bound: Vec<VarId> = Vec::new();
    collect_free_vars(expr, &mut vars, &bound);
    assert(id_set(vars@) =~= ir_fv(expr@));
    vars
}

fn with_bound(bound: &Vec<VarId>, v: VarId) -> (r: Vec<VarId>)
    ensures
        id_set(r@) == id_set(bound@).insert(v),
{
    let mut r = copy_ids(bound);
    r.push(v);
    assert(id_set(r@) =~= id_set(bound@).insert(v)) by {
        assert forall|x: VarId| r@.contains(x) <==> bound@.contains(x) || x == v by {
            if r@.contains(x) {
                let k = choose|k: int| 0 <= k < r@.len() && r@[k] == x;
                if k < bound@.len() {
                    assert(bound@[k] == x);
                }
            }
            if bound@.contains(x) {
                let k = choose|k: int| 0 <= k < bound@.len() && bound@[k] == x;
                assert(r@[k] == x);
            }
            if x == v {
                assert(r@[bound@.len() as int] == v);
            }
        }
    }
    r
}

/// Helper for collecting free variables: adds those of `expr` not in `bound`.
#[verifier::rlimit(80)]
#[verifier::spinoff_prover]
fn collect_free_vars(expr: &IRExpr, vars: &mut Vec<VarId>, bound: &Vec<VarId>)
    requires
        distinct_ids(old(vars)@),
    ensures
        distinct_ids(final(vars)@),
        id_set(final(vars)@) == id_set(old(vars)@).union(ir_fv(expr@).difference(id_set(bound@))),
    decreases expr@,
{
    let ghost start = id_set(vars@);
    let ghost b = id_set(bound@);
    match expr {
        IRExpr::Var(v, _) => {
            if !contains_id(bound, *v) {
                insert_id(vars, *v);
            }
            assert(id_set(vars@) =~= start.union(ir_fv(expr@).difference(b)));
        },
        IRExpr::Global(_, _) | IRExpr::Lit(_, _) | IRExpr::Unit => {
            assert(id_set(vars@) =~= start.union(ir_fv(expr@).difference(b)));
        },
        IRExpr::Let { var, value, body, .. } => {
            assert(decreases_to!(expr@ => expr@->Let_2));
            assert(decreases_to!(expr@ => expr@->Let_3));
            collect_free_vars(value, vars, bound);
            let new_bound = with_bound(bound, *var);
            collect_free_vars(body, vars, &new_bound);
            assert(id_set(vars@) =~= start.union(ir_fv(expr@).difference(b)));
        },
        IRExpr::LetRec { bindings, body } => {
            assert(decreases_to!(expr@ => expr@->LetRec_0));
            assert(decreases_to!(expr@ => expr@->LetRec_1));
            proof { lemma_bview_seq(bindings@); }
            let ghost s = bview_seq(bindings@);
            let mut new_bound = copy_ids(bound);
            let mut i: usize = 0;
            while i < bindings.len()
                invariant
                    i <= bindings@.len(),
                    s == bview_seq(bindings@),
                    s.len() == bindings@.len(),
                    forall|j: int| 0 <= j < s.len() ==> #[trigger] s[j] == (bindings@[j].var, bindings@[j].ty@, eview(bindings@[j].value)),
                    id_set(new_bound@) == b.union(Set::new(|x: VarId| exists|j: int| 0 <= j < i && s[j].0 == x)),
                decreases bindings.len() - i,
            {
                let ghost before = new_bound@;
                new_bound.push(bindings[i].var);
                assert(id_set(new_bound@) =~= b.union(Set::new(|x: VarId| exists|j: int| 0 <= j < i + 1 && s[j].0 == x))) by {
                    assert forall|x: VarId| new_bound@.contains(x) <==> (b.contains(x) || exists|j: int| 0 <= j < i + 1 && s[j].0 == x) by {
                        if new_bound@.contains(x) {
                            let k = choose|k: int| 0 <= k < new_bound@.len() && new_bound@[k] == x;
                            if k < before.len() {
                                assert(before[k] == x);
                                assert(id_set(before).contains(x));
                            } else {
                                assert(s[i as int].0 == x);
                            }
                        }
                        if b.contains(x) || exists|j: int| 0 <= j < i && s[j].0 == x {
                            assert(id_set(before).contains(x));
                            let k = choose|k: int| 0 <= k < before.len() && before[k] == x;
                            assert(new_bound@[k] == x);
                        } else if exists|j: int| 0 <= j < i + 1 && s[j].0 == x {
                            assert(new_bound@[before.len() as int] == x);
                        }
                    }
                }
                i += 1;
            }
            let ghost nb = id_set(new_bound@);
            proof {
                assert(nb =~= b.union(bound_by(s)));
            }
            let mut k: usize = 0;
            assert(start =~= start.union(fv_binds(s.take(0)).difference(nb)));
            while k < bindings.len()
                invariant
                    k <= bindings@.len(),
                    s == bview_seq(bindings@),
                    s.len() == bindings@.len(),
                    forall|j: int| 0 <= j < s.len() ==> #[trigger] s[j] == (bindings@[j].var, bindings@[j].ty@, eview(bindings@[j].value)),
                    distinct_ids(vars@),
                    nb == id_set(new_bound@),
                    id_set(vars@) == start.union(fv_binds(s.take(k as int)).difference(nb)),
                    decreases_to!(expr@ => s),
                decreases bindings.len() - k,
            {
                proof {
                    assert(s.take(k + 1).drop_last() =~= s.take(k as int));
                    assert(s.take(k + 1).last() == s[k as int]);
                    assert(decreases_to!(s => s[k as int]));
                    assert(decreases_to!(s[k as int] => s[k as int].2));
                }
                collect_free_vars(&bindings[k].value, vars, &new_bound);
                assert(id_set(vars@) =~= start.union(fv_binds(s.take(k + 1)).difference(nb)));
                k += 1;
            }
            assert(s.take(k as int) =~= s);
            collect_free_vars(body, vars, &new_bound);
            assert(id_set(vars@) =~= start.union(ir_fv(expr@).difference(b)));
        },
        IRExpr::Lambda { param, body, .. } => {
            assert(decreases_to!(expr@ => expr@->Lambda_2));
            let new_bound = with_bound(bound, *param);
            collect_free_vars(body, vars, &new_bound);
            assert(id_set(vars@) =~= start.union(ir_fv(expr@).difference(b)));
        },
        IRExpr::App { func, arg, .. } => {
            assert(decreases_to!(expr@ => expr@->App_0));
            assert(decreases_to!(expr@ => expr@->App_1));
            collect_free_vars(func, vars, bound);
            collect_free_vars(arg, vars, bound);
            assert(id_set(vars@) =~= start.union(ir_fv(expr@).difference(b)));
        },
        IRExpr::If { cond, then_branch, else_branch, .. } => {
            assert(decreases_to!(expr@ => expr@->If_0));
            assert(decreases_to!(expr@ => expr@->If_1));
            assert(decreases_to!(expr@ => expr@->If_2));
            collect_free_vars(cond, vars, bound);
            collect_free_vars(then_branch, vars, bound);
            collect_free_vars(else_branch, vars, bound);
            assert(id_set(vars@) =~= start.union(ir_fv(expr@).difference(b)));
        },
        IRExpr::Match { scrutinee, arms, .. } => {
            assert(decreases_to!(expr@ => expr@->Match_0));
            assert(decreases_to!(expr@ => expr@->Match_1));
            collect_free_vars(scrutinee, vars, bound);
            let ghost mid = id_set(vars@);
            proof { lemma_aview_seq(arms@); }
            let ghost s = aview_seq(arms@);
            let mut i: usize = 0;
            assert(mid =~= mid.union(fv_arms(s.take(0)).difference(b)));
            while i < arms.len()
                invariant
                    i <= arms@.len(),
                    s == aview_seq(arms@),
                    s.len() == arms@.len(),
                    forall|j: int| 0 <= j < s.len() ==> #[trigger] s[j] == (arms@[j].0@, eview(arms@[j].1)),
                    distinct_ids(vars@),
                    id_set(vars@) == mid.union(fv_arms(s.take(i as int)).difference(b)),
                    b == id_set(bound@),
                    decreases_to!(expr@ => s),
                decreases arms.len() - i,
            {
                proof {
                    assert(s.take(i + 1).drop_last() =~= s.take(i as int));
                    assert(s.take(i + 1).last() == s[i as int]);
                    assert(decreases_to!(s => s[i as int]));
                    assert(decreases_to!(s[i as int] => s[i as int].1));
                }
                let mut new_bound = copy_ids(bound);
                collect_pattern_vars(&arms[i].0, &mut new_bound);
                collect_free_vars(&arms[i].1, vars, &new_bound);
                assert(id_set(vars@) =~= mid.union(fv_arms(s.take(i + 1)).difference(b)));
                i += 1;
            }
            assert(s.take(i as int) =~= s);
            assert(id_set(vars@) =~= start.union(ir_fv(expr@).difference(b)));
        },
        IRExpr::Prim { args, .. } => {
            assert(decreases_to!(expr@ => expr@->Prim_1));
            proof { lemma_eview_seq(args@); }
            let ghost s = eview_seq(args@);
            let mut i: usize = 0;
            assert(start =~= start.union(fv_seq(s.take(0)).difference(b)));
            while i < args.len()
                invariant
                    i <= args@.len(),
                    s == eview_seq(args@),
                    s.len() == args@.len(),
                    forall|j: int| 0 <= j < s.len() ==> #[trigger] s[j] == eview(args@[j]),
                    distinct_ids(vars@),
                    id_set(vars@) == start.union(fv_seq(s.take(i as int)).difference(b)),
                    b == id_set(bound@),
                    decreases_to!(expr@ => s),
                decreases args.len() - i,
            {
                proof {
                    assert(s.take(i + 1).drop_last() =~= s.take(i as int));
                    assert(s.take(i + 1).last() == s[i as int]);
                    assert(decreases_to!(s => s[i as int]));
                }
                collect_free_vars(&args[i], vars, bound);
                assert(id_set(vars@) =~= start.union(fv_seq(s.take(i + 1)).difference(b)));
                i += 1;
            }
            assert(s.take(i as int) =~= s);
        },
        IRExpr::Construct { arg, .. } => {
            match arg {
                Some(a) => {
                    assert(decreases_to!(expr@ => expr@->Construct_1));
                    assert(decreases_to!(expr@->Construct_1 => (expr@->Construct_1)->0));
                    collect_free_vars(a, vars, bound);
                },
                None => {},
            }
            assert(id_set(vars@) =~= start.union(ir_fv(expr@).difference(b)));
        },
        IRExpr::Tuple { elems, .. } => {
            assert(decreases_to!(expr@ => expr@->Tuple_0));
            proof { lemma_eview_seq(elems@); }
            let ghost s = eview_seq(elems@);
            let mut i: usize = 0;
            assert(start =~= start.union(fv_seq(s.take(0)).difference(b)));
            while i < elems.len()
                invariant
                    i <= elems@.len(),
                    s == eview_seq(elems@),
                    s.len() == elems@.len(),
                    forall|j: int| 0 <= j < s.len() ==> #[trigger] s[j] == eview(elems@[j]),
                    distinct_ids(vars@),
                    id_set(vars@) == start.union(fv_seq(s.take(i as int)).difference(b)),
                    b == id_set(bound@),
                    decreases_to!(expr@ => s),
                decreases elems.len() - i,
            {
                proof {
                    assert(s.take(i + 1).drop_last() =~= s.take(i as int));
                    assert(s.take(i + 1).last() == s[i as int]);
                    assert(decreases_to!(s => s[i as int]));
                }
                collect_free_vars(&elems[i], vars, bound);
                assert(id_set(vars@) =~= start.union(fv_seq(s.take(i + 1)).difference(b)));
                i += 1;
            }
            assert(s.take(i as int) =~= s);
        },
        IRExpr::TupleProj { tuple, .. } => {
            assert(decreases_to!(expr@ => expr@->TupleProj_0));
            collect_free_vars(tuple, vars, bound);
        },
        IRExpr::Record { fields, .. } => {
            assert(decreases_to!(expr@ => expr@->Record_0));
            proof { lemma_fview_seq(fields@); }
            let ghost s = fview_seq(fields@);
            let mut i: usize = 0;
            assert(start =~= start.union(fv_fields(s.take(0)).difference(b)));
            while i < fields.len()
                invariant
                    i <= fields@.len(),
                    s == fview_seq(fields@),
                    s.len() == fields@.len(),
                    forall|j: int| 0 <= j < s.len() ==> #[trigger] s[j] == (fields@[j].0@, eview(fields@[j].1)),
                    distinct_ids(vars@),
                    id_set(vars@) == start.union(fv_fields(s.take(i as int)).difference(b)),
                    b == id_set(bound@),
                    decreases_to!(expr@ => s),
                decreases fields.len() - i,
            {
                proof {
                    assert(s.take(i + 1).drop_last() =~= s.take(i as int));
                    assert(s.take(i + 1).last() == s[i as int]);
                    assert(decreases_to!(s => s[i as int]));
                    assert(decreases_to!(s[i as int] => s[i as int].1));
                }
                collect_free_vars(&fields[i].1, vars, bound);
                assert(id_set(vars@) =~= start.union(fv_fields(s.take(i + 1)).difference(b)));
                i += 1;
            }
            assert(s.take(i as int) =~= s);
        },
        IRExpr::Field { record, .. } => {
            assert(decreases_to!(expr@ => expr@->Field_0));
            collect_free_vars(record, vars, bound);
        },
        IRExpr::Command { parts, stdin, .. } => {
            assert(decreases_to!(expr@ => expr@->Command_0));
            proof { lemma_cview_seq(parts@); }
            let ghost s = cview_seq(parts@);
            let mut i: usize = 0;
            assert(start =~= start.union(fv_parts(s.take(0)).difference(b)));
            while i < parts.len()
                invariant
                    i <= parts@.len(),
                    s == cview_seq(parts@),
                    s.len() == parts@.len(),
                    forall|j: int| 0 <= j < s.len() ==> #[trigger] s[j] == cview(parts@[j]),
                    distinct_ids(vars@),
                    id_set(vars@) == start.union(fv_parts(s.take(i as int)).difference(b)),
                    b == id_set(bound@),
                    decreases_to!(expr@ => s),
                decreases parts.len() - i,
            {
                proof {
                    assert(s.take(i + 1).drop_last() =~= s.take(i as int));
                    assert(s.take(i + 1).last() == s[i as int]);
                }
                match &parts[i] {
                    IRCommandPart::Interpolation(e) => {
                        assert(decreases_to!(s => s[i as int]));
                        assert(decreases_to!(s[i as int] => s[i as int]->Interpolation_0));
                        collect_free_vars(e, vars, bound);
                    },
                    IRCommandPart::Literal(_) => {},
                }
                assert(id_set(vars@) =~= start.union(fv_parts(s.take(i + 1)).difference(b)));
                i += 1;
            }
            assert(s.take(i as int) =~= s);
            let ghost mid = id_set(vars@);
            match stdin {
                Some(x) => {
                    assert(decreases_to!(expr@ => expr@->Command_1));
                    assert(decreases_to!(expr@->Command_1 => (expr@->Command_1)->0));
                    collect_free_vars(x, vars, bound);
                },
                None => {},
            }
            assert(id_set(vars@) =~= start.union(ir_fv(expr@).difference(b)));
        },
    }
}

// ========== The optimizer: what it computes ==========

/// Constant folding at the root of an expression.
pub open spec fn fold_step(e: IrV) -> (IrV, bool) {
    match e {
        IrV::Prim(op, args, ty) => match fold_prim(op, args, ty) {
            Some(r) => (r, true),
            None => (e, false),
        },
        _ => (e, false),
    }
}

/// A conditional on a boolean literal becomes the branch it selects.
pub open spec fn if_step(e: IrV) -> (IrV, bool) {
    match e {
        IrV::If(c, t, f, _) => match *c {
            IrV::Lit(LitV::Bool(b), _) => if b { (*t, true) } else { (*f, true) },
            _ => (e, false),
        },
        _ => (e, false),
    }
}

/// A `let` of a value used at most once is inlined (or dropped where unused).
pub open spec fn beta_step(e: IrV) -> (IrV, bool) {
    match e {
        IrV::Let(v, _, value, body) => if is_value_v(*value) && uses(v, *body) == 0 {
            (*body, true)
        } else if is_value_v(*value) && uses(v, *body) == 1 {
            (subst_v(v, *value, *body), true)
        } else {
            (e, false)
        },
        _ => (e, false),
    }
}

/// A `let` whose variable is unused in its body is dropped.
pub open spec fn dce_step(e: IrV) -> (IrV, bool) {
    match e {
        IrV::Let(v, _, _, body) => if uses(v, *body) == 0 { (*body, true) } else { (e, false) },
        _ => (e, false),
    }
}

/// The local rewrites, in the order the optimizer applies them.
pub open spec fn local_steps(e: IrV) -> (IrV, bool) {
    let (e2, c2) = fold_step(e);
    let (e3, c3) = if_step(e2);
    let (e4, c4) = beta_step(e3);
    let (e5, c5) = dce_step(e4);
    (e5, c2 || c3 || c4 || c5)
}

/// One optimization of an expression: its subexpressions first, then the local rewrites;
/// the flag tells whether anything changed.
pub open spec fn opt(e: IrV) -> (IrV, bool)
    decreases e, 1nat,
{
    let (e1, c1) = opt_sub(e);
    let (e2, c2) = local_steps(e1);
    (e2, c1 || c2)
}

/// The optimization of the immediate subexpressions.
pub open spec fn opt_sub(e: IrV) -> (IrV, bool)
    decreases e, 0nat,
{
    match e {
        IrV::Let(v, t, value, body) => {
            let (a, c1) = opt(*value);
            let (b, c2) = opt(*body);
            (IrV::Let(v, t, Box::new(a), Box::new(b)), c1 || c2)
        },
        IrV::LetRec(bs, body) => {
            let (nbs, c1) = opt_binds(bs);
            let (b, c2) = opt(*body);
            (IrV::LetRec(nbs, Box::new(b)), c1 || c2)
        },
        IrV::Lambda(p, pt, body, rt) => {
            let (b, c) = opt(*body);
            (IrV::Lambda(p, pt, Box::new(b), rt), c)
        },
        IrV::App(f, a, t) => {
            let (f2, c1) = opt(*f);
            let (a2, c2) = opt(*a);
            (IrV::App(Box::new(f2), Box::new(a2), t), c1 || c2)
        },
        IrV::If(c, th, el, t) => {
            let (c2, k1) = opt(*c);
            let (th2, k2) = opt(*th);
            let (el2, k3) = opt(*el);
            (IrV::If(Box::new(c2), Box::new(th2), Box::new(el2), t), k1 || k2 || k3)
        },
        IrV::Match(scrut, arms, t) => {
            let (s2, c1) = opt(*scrut);
            let (arms2, c2) = opt_arms(arms);
            (IrV::Match(Box::new(s2), arms2, t), c1 || c2)
        },
        IrV::Prim(op, args, t) => {
            let (args2, c) = opt_seq(args);
            (IrV::Prim(op, args2, t), c)
        },
        IrV::Construct(k, arg, t) => match arg {
            Some(a) => {
                let (a2, c) = opt(*a);
                (IrV::Construct(k, Some(Box::new(a2)), t), c)
            },
            None => (e, false),
        },
        IrV::Tuple(es, t) => {
            let (es2, c) = opt_seq(es);
            (IrV::Tuple(es2, t), c)
        },
        IrV::TupleProj(tu, i, t) => {
            let (tu2, c) = opt(*tu);
            (IrV::TupleProj(Box::new(tu2), i, t), c)
        },
        IrV::Record(fs, t) => {
            let (fs2, c) = opt_fields(fs);
            (IrV::Record(fs2, t), c)
        },
        IrV::Field(rec, f, t) => {
            let (rec2, c) = opt(*rec);
            (IrV::Field(Box::new(rec2), f, t), c)
        },
        IrV::Command(parts, stdin, t) => match stdin {
            Some(x) => {
                let (x2, c) = opt(*x);
                (IrV::Command(parts, Some(Box::new(x2)), t), c)
            },
            None => (e, false),
        },
        IrV::Lit(..) | IrV::Var(..) | IrV::Global(..) | IrV::Unit => (e, false),
    }
}

pub open spec fn opt_seq(s: Seq<IrV>) -> (Seq<IrV>, bool)
    decreases s, 0nat,
{
    if s.len() == 0 {
        (s, false)
    } else {
        let (a, c1) = opt_seq(s.drop_last());
        let (b, c2) = opt(s.last());
        (a.push(b), c1 || c2)
    }
}

pub open spec fn opt_binds(s: Seq<(VarId, TypeV, IrV)>) -> (Seq<(VarId, TypeV, IrV)>, bool)
    decreases s, 0nat,
{
    if s.len() == 0 {
        (s, false)
    } else {
        let (a, c1) = opt_binds(s.drop_last());
        let (b, c2) = opt(s.last().2);
        (a.push((s.last().0, s.last().1, b)), c1 || c2)
    }
}

pub open spec fn opt_arms(s: Seq<(PatV, IrV)>) -> (Seq<(PatV, IrV)>, bool)
    decreases s, 0nat,
{
    if s.len() == 0 {
        (s, false)
    } else {
        let (a, c1) = opt_arms(s.drop_last());
        let (b, c2) = opt(s.last().1);
        (a.push((s.last().0, b)), c1 || c2)
    }
}

pub open spec fn opt_fields(s: Seq<(Seq<char>, IrV)>) -> (Seq<(Seq<char>, IrV)>, bool)
    decreases s, 0nat,
{
    if s.len() == 0 {
        (s, false)
    } else {
        let (a, c1) = opt_fields(s.drop_last());
        let (b, c2) = opt(s.last().1);
        (a.push((s.last().0, b)), c1 || c2)
    }
}

/// The optimization of a declaration: the bodies of values and functions.
pub open spec fn opt_decl(d: DeclV) -> (DeclV, bool) {
    match d {
        DeclV::Val(n, t, v) => {
            let (v2, c) = opt(v);
            (DeclV::Val(n, t, v2), c)
        },
        DeclV::Fun(n, t, ps, b) => {
            let (b2, c) = opt(b);
            (DeclV::Fun(n, t, ps, b2), c)
        },
        DeclV::Data(..) => (d, false),
    }
}

/// One pass over the declarations of a program.
pub open spec fn opt_decls(s: Seq<DeclV>) -> (Seq<DeclV>, bool)
    decreases s.len(),
{
    if s.len() == 0 {
        (s, false)
    } else {
        let (a, c1) = opt_decls(s.drop_last());
        let (d, c2) = opt_decl(s.last());
        (a.push(d), c1 || c2)
    }
}

/// Up to `n` passes, stopping after the first that changes nothing.
pub open spec fn opt_passes(n: nat, s: Seq<DeclV>) -> Seq<DeclV>
    decreases n,
{
    if n == 0 {
        s
    } else {
        let (s2, c) = opt_decls(s);
        if c { opt_passes((n - 1) as nat, s2) } else { s2 }
    }
}

// ========== The optimizer ==========

/// The optimizer.
pub struct Optimizer {
    /// How many optimization passes to run
    max_passes: usize,
}

impl Default for Optimizer {
    fn default() -> (r: Self)
        ensures
            r.pass_limit() == 10,
    {
        Self::new()
    }
}

impl Optimizer {
    /// The most passes `optimize` runs.
    pub closed spec fn pass_limit(&self) -> nat {
        self.max_passes as nat
    }

    /// Create a new optimizer.
    pub fn new() -> (r: Self)
        ensures
            r.pass_limit() == 10,
    {
        Self { max_passes: 10 }
    }

    /// Create an optimizer with a custom pass limit.
    pub fn with_max_passes(max_passes: usize) -> (r: Self)
        ensures
            r.pass_limit() == max_passes,
    {
        Self { max_passes }
    }

    /// Optimize an IR program.
    pub fn optimize(&self, program: IRProgram) -> (r: IRProgram)
        ensures
            decls_view(r.decls@) == opt_passes(self.pass_limit(), decls_view(program.decls@)),
    {
        let ghost target = opt_passes(self.pass_limit(), decls_view(program.decls@));
        let mut decls = program.decls;
        let mut pass: usize = 0;
        let mut done = false;
        while pass < self.max_passes && !done
            invariant
                pass <= self.max_passes,
                done ==> decls_view(decls@) == target,
                !done ==> opt_passes((self.pass_limit() - pass) as nat, decls_view(decls@)) == target,
            decreases self.max_passes - pass,
        {
            let (new_decls, changed) = self.optimize_decls(decls);
            decls = new_decls;
            pass += 1;
            if !changed {
                done = true;
            }
        }
        IRProgram::new(decls)
    }

    /// One pass over a program's declarations.
    fn optimize_decls(&self, decls: Vec<IRDecl>) -> (r: (Vec<IRDecl>, bool))
        ensures
            (decls_view(r.0@), r.1) == opt_decls(decls_view(decls@)),
    {
        let ghost s = decls_view(decls@);
        let ghost orig = decls@;
        let mut out: Vec<IRDecl> = Vec::new();
        let mut changed = false;
        proof {
            assert(s.take(0) =~= Seq::<DeclV>::empty());
            assert(decls_view(out@) =~= Seq::<DeclV>::empty());
        }
        for decl in it: decls
            invariant
                s == decls_view(orig),
                it.seq() == orig,
                (decls_view(out@), changed) == opt_decls(s.take(it.index() as int)),
        {
            let ghost k = it.index() as int;
            proof {
                assert(s.take(k + 1).drop_last() =~= s.take(k));
                assert(s.take(k + 1).last() == orig[k]@);
            }
            let (d, c) = self.optimize_decl(decl);
            let ghost prev = out@;
            out.push(d);
            changed = changed || c;
            proof {
                assert(decls_view(out@) =~= decls_view(prev).push(out@.last()@));
            }
        }
        proof {
            broadcast use vstd::std_specs::vec::axiom_spec_into_iter;
            assert(s.take(s.len() as int) =~= s);
        }
        (out, changed)
    }

    /// Optimize a declaration.
    fn optimize_decl(&self, decl: IRDecl) -> (r: (IRDecl, bool))
        ensures
            (r.0@, r.1) == opt_decl(decl@),
    {
        match decl {
            IRDecl::Val { name, ty, value } => {
                let (new_value, changed) = self.optimize_expr_internal(value);
                (IRDecl::Val { name, ty, value: new_value }, changed)
            },
            IRDecl::Fun { name, ty, params, body } => {
                let (new_body, changed) = self.optimize_expr_internal(body);
                (IRDecl::Fun { name, ty, params, body: new_body }, changed)
            },
            IRDecl::Data { name, params, constructors } => (IRDecl::Data { name, params, constructors }, false),
        }
    }

    /// Optimize a standalone expression (for REPL use).
    pub fn optimize_expr(&self, expr: IRExpr) -> (r: IRExpr)
        ensures
            r@ == opt(expr@).0,
    {
        let (optimized, _) = self.optimize_expr_internal(expr);
        optimized
    }

    /// Optimize an expression (internal, returns changed flag).
    fn optimize_expr_internal(&self, expr: IRExpr) -> (r: (IRExpr, bool))
        ensures
            (r.0@, r.1) == opt(expr@),
        decreases expr@, 1nat,
    {
        // First, recursively optimize subexpressions
        let (expr, changed) = self.optimize_subexprs(expr);
        // Then apply local optimizations
        let (expr, const_folded) = self.constant_fold(expr);
        let (expr, if_simplified) = self.simplify_if(expr);
        let (expr, beta_reduced) = self.beta_reduce(expr);
        let (expr, dce) = self.dead_code_elimination(expr);
        (expr, changed || const_folded || if_simplified || beta_reduced || dce)
    }

    fn optimize_exprs(&self, es: Vec<IRExpr>) -> (r: (Vec<IRExpr>, bool))
        ensures
            (eview_seq(r.0@), r.1) == opt_seq(eview_seq(es@)),
        decreases eview_seq(es@), 0nat,
    {
        proof { lemma_eview_seq(es@); }
        let ghost s = eview_seq(es@);
        let ghost orig = es@;
        let mut r: Vec<IRExpr> = Vec::new();
        let mut changed = false;
        proof { assert(s.take(0) =~= Seq::<IrV>::empty()); }
        for x in it: es
            invariant
                s == eview_seq(orig),
                s.len() == orig.len(),
                it.seq() == orig,
                forall|j: int| 0 <= j < s.len() ==> #[trigger] s[j] == eview(orig[j]),
                (eview_seq(r@), changed) == opt_seq(s.take(it.index() as int)),
        {
            let ghost k = it.index() as int;
            proof {
                assert(s.take(k + 1).drop_last() =~= s.take(k));
                assert(s.take(k + 1).last() == s[k]);
                assert(decreases_to!(s => s[k]));
            }
            let (y, c) = self.optimize_expr_internal(x);
            let ghost prev = r@;
            r.push(y);
            changed = changed || c;
            proof {
                assert(r@.drop_last() =~= prev);
            }
        }
        proof {
            broadcast use vstd::std_specs::vec::axiom_spec_into_iter;
            assert(s.take(s.len() as int) =~= s);
        }
        (r, changed)
    }

    fn optimize_bindings(&self, bs: Vec<Binding>) -> (r: (Vec<Binding>, bool))
        ensures
            (bview_seq(r.0@), r.1) == opt_binds(bview_seq(bs@)),
        decreases bview_seq(bs@), 0nat,
    {
        proof { lemma_bview_seq(bs@); }
        let ghost s = bview_seq(bs@);
        let ghost orig = bs@;
        let mut r: Vec<Binding> = Vec::new();
        let mut changed = false;
        proof { assert(s.take(0) =~= Seq::<(VarId, TypeV, IrV)>::empty()); }
        for b in it: bs
            invariant
                s == bview_seq(orig),
                s.len() == orig.len(),
                it.seq() == orig,
                forall|j: int| 0 <= j < s.len() ==> #[trigger] s[j] == (orig[j].var, orig[j].ty@, eview(orig[j].value)),
                (bview_seq(r@), changed) == opt_binds(s.take(it.index() as int)),
        {
            let ghost k = it.index() as int;
            proof {
                assert(s.take(k + 1).drop_last() =~= s.take(k));
                assert(s.take(k + 1).last() == s[k]);
                assert(decreases_to!(s => s[k]));
                assert(decreases_to!(s[k] => s[k].2));
            }
            let Binding { var, ty, value } = b;
            let (new_value, c) = self.optimize_expr_internal(value);
            let ghost prev = r@;
            r.push(Binding { var, ty, value: new_value });
            changed = changed || c;
            proof {
                assert(r@.drop_last() =~= prev);
            }
        }
        proof {
            broadcast use vstd::std_specs::vec::axiom_spec_into_iter;
            assert(s.take(s.len() as int) =~= s);
        }
        (r, changed)
    }

    fn optimize_arms(&self, arms: Vec<(IRPattern, IRExpr)>) -> (r: (Vec<(IRPattern, IRExpr)>, bool))
        ensures
            (aview_seq(r.0@), r.1) == opt_arms(aview_seq(arms@)),
        decreases aview_seq(arms@), 0nat,
    {
        proof { lemma_aview_seq(arms@); }
        let ghost s = aview_seq(arms@);
        let ghost orig = arms@;
        let mut r: Vec<(IRPattern, IRExpr)> = Vec::new();
        let mut changed = false;
        proof { assert(s.take(0) =~= Seq::<(PatV, IrV)>::empty()); }
        for arm in it: arms
            invariant
                s == aview_seq(orig),
                s.len() == orig.len(),
                it.seq() == orig,
                forall|j: int| 0 <= j < s.len() ==> #[trigger] s[j] == (orig[j].0@, eview(orig[j].1)),
                (aview_seq(r@), changed) == opt_arms(s.take(it.index() as int)),
        {
            let ghost k = it.index() as int;
            proof {
                assert(s.take(k + 1).drop_last() =~= s.take(k));
                assert(s.take(k + 1).last() == s[k]);
                assert(decreases_to!(s => s[k]));
                assert(decreases_to!(s[k] => s[k].1));
            }
            let (pat, body) = arm;
            let (new_body, c) = self.optimize_expr_internal(body);
            let ghost prev = r@;
            r.push((pat, new_body));
            changed = changed || c;
            proof {
                assert(r@.drop_last() =~= prev);
            }
        }
        proof {
            broadcast use vstd::std_specs::vec::axiom_spec_into_iter;
            assert(s.take(s.len() as int) =~= s);
        }
        (r, changed)
    }

    fn optimize_fields(&self, fields: Vec<(String, IRExpr)>) -> (r: (Vec<(String, IRExpr)>, bool))
        ensures
            (fview_seq(r.0@), r.1) == opt_fields(fview_seq(fields@)),
        decreases fview_seq(fields@), 0nat,
    {
        proof { lemma_fview_seq(fields@); }
        let ghost s = fview_seq(fields@);
        let ghost orig = fields@;
        let mut r: Vec<(String, IRExpr)> = Vec::new();
        let mut changed = false;
        proof { assert(s.take(0) =~= Seq::<(Seq<char>, IrV)>::empty()); }
        for field in it: fields
            invariant
                s == fview_seq(orig),
                s.len() == orig.len(),
                it.seq() == orig,
                forall|j: int| 0 <= j < s.len() ==> #[trigger] s[j] == (orig[j].0@, eview(orig[j].1)),
                (fview_seq(r@), changed) == opt_fields(s.take(it.index() as int)),
        {
            let ghost k = it.index() as int;
            proof {
                assert(s.take(k + 1).drop_last() =~= s.take(k));
                assert(s.take(k + 1).last() == s[k]);
                assert(decreases_to!(s => s[k]));
                assert(decreases_to!(s[k] => s[k].1));
            }
            let (name, e) = field;
            let (new_e, c) = self.optimize_expr_internal(e);
            let ghost prev = r@;
            r.push((name, new_e));
            changed = changed || c;
            proof {
                assert(r@.drop_last() =~= prev);
            }
        }
        proof {
            broadcast use vstd::std_specs::vec::axiom_spec_into_iter;
            assert(s.take(s.len() as int) =~= s);
        }
        (r, changed)
    }

    /// Optimize subexpressions recursively.
    #[verifier::rlimit(60)]
    #[verifier::spinoff_prover]
    fn optimize_subexprs(&self, expr: IRExpr) -> (r: (IRExpr, bool))
        ensures
            (r.0@, r.1) == opt_sub(expr@),
        decreases expr@, 0nat,
    {
        let ghost ev = expr@;
        match expr {
            IRExpr::Let { var, ty, value, body } => {
                assert(decreases_to!(ev => ev->Let_2));
                assert(decreases_to!(ev => ev->Let_3));
                let (new_value, c1) = self.optimize_expr_internal(*value);
                let (new_body, c2) = self.optimize_expr_internal(*body);
                (IRExpr::Let { var, ty, value: Box::new(new_value), body: Box::new(new_body) }, c1 || c2)
            },
            IRExpr::LetRec { bindings, body } => {
                assert(decreases_to!(ev => ev->LetRec_0));
                assert(decreases_to!(ev => ev->LetRec_1));
                let (new_bindings, c1) = self.optimize_bindings(bindings);
                let (new_body, c2) = self.optimize_expr_internal(*body);
                (IRExpr::LetRec { bindings: new_bindings, body: Box::new(new_body) }, c1 || c2)
            },
            IRExpr::Lambda { param, param_ty, body, result_ty } => {
                assert(decreases_to!(ev => ev->Lambda_2));
                let (new_body, changed) = self.optimize_expr_internal(*body);
                (IRExpr::Lambda { param, param_ty, body: Box::new(new_body), result_ty }, changed)
            },
            IRExpr::App { func, arg, result_ty } => {
                assert(decreases_to!(ev => ev->App_0));
                assert(decreases_to!(ev => ev->App_1));
                let (new_func, c1) = self.optimize_expr_internal(*func);
                let (new_arg, c2) = self.optimize_expr_internal(*arg);
                (IRExpr::App { func: Box::new(new_func), arg: Box::new(new_arg), result_ty }, c1 || c2)
            },
            IRExpr::If { cond, then_branch, else_branch, ty } => {
                assert(decreases_to!(ev => ev->If_0));
                assert(decreases_to!(ev => ev->If_1));
                assert(decreases_to!(ev => ev->If_2));
                let (new_cond, c1) = self.optimize_expr_internal(*cond);
                let (new_then, c2) = self.optimize_expr_internal(*then_branch);
                let (new_else, c3) = self.optimize_expr_internal(*else_branch);
                (
                    IRExpr::If {
                        cond: Box::new(new_cond),
                        then_branch: Box::new(new_then),
                        else_branch: Box::new(new_else),
                        ty,
                    },
                    c1 || c2 || c3,
                )
            },
            IRExpr::Match { scrutinee, arms, ty } => {
                assert(decreases_to!(ev => ev->Match_0));
                assert(decreases_to!(ev => ev->Match_1));
                let (new_scrutinee, c1) = self.optimize_expr_internal(*scrutinee);
                let (new_arms, c2) = self.optimize_arms(arms);
                (IRExpr::Match { scrutinee: Box::new(new_scrutinee), arms: new_arms, ty }, c1 || c2)
            },
            IRExpr::Prim { op, args, ty } => {
                assert(decreases_to!(ev => ev->Prim_1));
                let (new_args, changed) = self.optimize_exprs(args);
                (IRExpr::Prim { op, args: new_args, ty }, changed)
            },
            IRExpr::Construct { ctor, arg, ty } => {
                match arg {
                    Some(a) => {
                        assert(decreases_to!(ev => ev->Construct_1));
                        assert(decreases_to!(ev->Construct_1 => (ev->Construct_1)->0));
                        let (new_arg, changed) = self.optimize_expr_internal(*a);
                        (IRExpr::Construct { ctor, arg: Some(Box::new(new_arg)), ty }, changed)
                    },
                    None => (IRExpr::Construct { ctor, arg: None, ty }, false),
                }
            },
            IRExpr::Tuple { elems, ty } => {
                assert(decreases_to!(ev => ev->Tuple_0));
                let (new_elems, changed) = self.optimize_exprs(elems);
                (IRExpr::Tuple { elems: new_elems, ty }, changed)
            },
            IRExpr::TupleProj { tuple, index, ty } => {
                assert(decreases_to!(ev => ev->TupleProj_0));
                let (new_tuple, changed) = self.optimize_expr_internal(*tuple);
                (IRExpr::TupleProj { tuple: Box::new(new_tuple), index, ty }, changed)
            },
            IRExpr::Record { fields, ty } => {
                assert(decreases_to!(ev => ev->Record_0));
                let (new_fields, changed) = self.optimize_fields(fields);
                (IRExpr::Record { fields: new_fields, ty }, changed)
            },
            IRExpr::Field { record, field, ty } => {
                assert(decreases_to!(ev => ev->Field_0));
                let (new_record, changed) = self.optimize_expr_internal(*record);
                (IRExpr::Field { record: Box::new(new_record), field, ty }, changed)
            },
            // Values don't need optimization
            IRExpr::Lit(l, t) => (IRExpr::Lit(l, t), false),
            IRExpr::Var(v, t) => (IRExpr::Var(v, t), false),
            IRExpr::Global(n, t) => (IRExpr::Global(n, t), false),
            IRExpr::Unit => (IRExpr::Unit, false),
            // Commands: only the input is optimized
            IRExpr::Command { parts, stdin, ty } => {
                match stdin {
                    Some(s) => {
                        assert(decreases_to!(ev => ev->Command_1));
                        assert(decreases_to!(ev->Command_1 => (ev->Command_1)->0));
                        let (opt_s, changed) = self.optimize_expr_internal(*s);
                        (IRExpr::Command { parts, stdin: Some(Box::new(opt_s)), ty }, changed)
                    },
                    None => (IRExpr::Command { parts, stdin: None, ty }, false),
                }
            },
        }
    }

    /// Constant folding: evaluate constant expressions at compile time.
    fn constant_fold(&self, expr: IRExpr) -> (r: (IRExpr, bool))
        ensures
            (r.0@, r.1) == fold_step(expr@),
    {
        match expr {
            IRExpr::Prim { op, args, ty } => {
                // Try to fold if all arguments are literals
                match self.try_fold_prim(op, args.as_slice(), &ty) {
                    Some(result) => (result, true),
                    None => (IRExpr::Prim { op, args, ty }, false),
                }
            },
            _ => (expr, false),
        }
    }

    /// Simplify if expressions with constant conditions.
    fn simplify_if(&self, expr: IRExpr) -> (r: (IRExpr, bool))
        ensures
            (r.0@, r.1) == if_step(expr@),
    {
        match expr {
            IRExpr::If { cond, then_branch, else_branch, ty } => {
                let known: Option<bool> = match &*cond {
                    IRExpr::Lit(IRLiteral::Bool(b), _) => Some(*b),
                    _ => None,
                };
                assert(known == match eview(*cond) {
                    IrV::Lit(LitV::Bool(b), _) => Some(b),
                    _ => None::<bool>,
                });
                match known {
                    Some(b) => if b { (*then_branch, true) } else { (*else_branch, true) },
                    None => (IRExpr::If { cond, then_branch, else_branch, ty }, false),
                }
            },
            _ => (expr, false),
        }
    }

    /// Simple beta reduction: inline trivial let bindings.
    fn beta_reduce(&self, expr: IRExpr) -> (r: (IRExpr, bool))
        ensures
            (r.0@, r.1) == beta_step(expr@),
    {
        match expr {
            IRExpr::Let { var, ty, value, body } => {
                // Only inline if value is simple (literal or variable)
                // and var is used at most once
                if value.is_value() {
                    let uses = count_uses(var, &body);
                    if uses == 0 {
                        // Dead binding, remove it
                        return (*body, true);
                    } else if uses == 1 {
                        // Single use, inline it
                        let inlined = substitute(var, &value, *body);
                        return (inlined, true);
                    }
                }
                (IRExpr::Let { var, ty, value, body }, false)
            },
            _ => (expr, false),
        }
    }

    /// Dead code elimination for let bindings.
    fn dead_code_elimination(&self, expr: IRExpr) -> (r: (IRExpr, bool))
        ensures
            (r.0@, r.1) == dce_step(expr@),
    {
        match expr {
            IRExpr::Let { var, ty, value, body } => {
                // If variable is unused in body, remove the binding
                if count_uses(var, &body) == 0 {
                    (*body, true)
                } else {
                    (IRExpr::Let { var, ty, value, body }, false)
                }
            },
            _ => (expr, false),
        }
    }
}

// ========== Laws ==========

/// An expression the optimizer reports unchanged is returned as it was: a run that
/// changes nothing is a fixpoint, which is what lets the pass loop stop.
pub proof fn law_unchanged_is_identity(e: IrV)
    ensures
        !opt(e).1 ==> opt(e).0 == e,
    decreases e, 1nat,
{
    lemma_sub_unchanged(e);
}

proof fn lemma_sub_unchanged(e: IrV)
    ensures
        !opt_sub(e).1 ==> opt_sub(e).0 == e,
    decreases e, 0nat,
{
    match e {
        IrV::Let(_, _, value, body) => {
            law_unchanged_is_identity(*value);
            law_unchanged_is_identity(*body);
        },
        IrV::LetRec(bs, body) => {
            lemma_binds_unchanged(bs);
            law_unchanged_is_identity(*body);
        },
        IrV::Lambda(_, _, body, _) => {
            law_unchanged_is_identity(*body);
        },
        IrV::App(f, a, _) => {
            law_unchanged_is_identity(*f);
            law_unchanged_is_identity(*a);
        },
        IrV::If(c, th, el, _) => {
            law_unchanged_is_identity(*c);
            law_unchanged_is_identity(*th);
            law_unchanged_is_identity(*el);
        },
        IrV::Match(scrut, arms, _) => {
            law_unchanged_is_identity(*scrut);
            lemma_arms_unchanged(arms);
        },
        IrV::Prim(_, args, _) => {
            lemma_seq_unchanged(args);
        },
        IrV::Construct(_, arg, _) => {
            match arg {
                Some(a) => law_unchanged_is_identity(*a),
                None => {},
            }
        },
        IrV::Tuple(es, _) => {
            lemma_seq_unchanged(es);
        },
        IrV::TupleProj(tu, _, _) => {
            law_unchanged_is_identity(*tu);
        },
        IrV::Record(fs, _) => {
            lemma_fields_unchanged(fs);
        },
        IrV::Field(rec, _, _) => {
            law_unchanged_is_identity(*rec);
        },
        IrV::Command(_, stdin, _) => {
            match stdin {
                Some(x) => law_unchanged_is_identity(*x),
                None => {},
            }
        },
        IrV::Lit(..) | IrV::Var(..) | IrV::Global(..) | IrV::Unit => {},
    }
}

proof fn lemma_seq_unchanged(s: Seq<IrV>)
    ensures
        !opt_seq(s).1 ==> opt_seq(s).0 == s,
    decreases s, 0nat,
{
    if s.len() > 0 {
        lemma_seq_unchanged(s.drop_last());
        law_unchanged_is_identity(s.last());
        assert(s.drop_last().push(s.last()) =~= s);
    }
}

proof fn lemma_binds_unchanged(s: Seq<(VarId, TypeV, IrV)>)
    ensures
        !opt_binds(s).1 ==> opt_binds(s).0 == s,
    decreases s, 0nat,
{
    if s.len() > 0 {
        lemma_binds_unchanged(s.drop_last());
        law_unchanged_is_identity(s.last().2);
        assert(s.drop_last().push((s.last().0, s.last().1, s.last().2)) =~= s);
    }
}

proof fn lemma_arms_unchanged(s: Seq<(PatV, IrV)>)
    ensures
        !opt_arms(s).1 ==> opt_arms(s).0 == s,
    decreases s, 0nat,
{
    if s.len() > 0 {
        lemma_arms_unchanged(s.drop_last());
        law_unchanged_is_identity(s.last().1);
        assert(s.drop_last().push((s.last().0, s.last().1)) =~= s);
    }
}

proof fn lemma_fields_unchanged(s: Seq<(Seq<char>, IrV)>)
    ensures
        !opt_fields(s).1 ==> opt_fields(s).0 == s,
    decreases s, 0nat,
{
    if s.len() > 0 {
        lemma_fields_unchanged(s.drop_last());
        law_unchanged_is_identity(s.last().1);
        assert(s.drop_last().push((s.last().0, s.last().1)) =~= s);
    }
}

/// A pass that reports no change leaves the declarations as they were.
pub proof fn law_quiet_pass_is_identity(s: Seq<DeclV>)
    ensures
        !opt_decls(s).1 ==> opt_decls(s).0 == s,
    decreases s.len(),
{
    if s.len() > 0 {
        law_quiet_pass_is_identity(s.drop_last());
        match s.last() {
            DeclV::Val(_, _, v) => law_unchanged_is_identity(v),
            DeclV::Fun(_, _, _, b) => law_unchanged_is_identity(b),
            DeclV::Data(..) => {},
        }
        assert(s.drop_last().push(s.last()) =~= s);
    }
}

/// Optimizing a program on which a pass changes nothing returns it as it was,
/// whatever the number of passes.
pub proof fn law_optimized_program_is_stable(n: nat, s: Seq<DeclV>)
    requires
        !opt_decls(s).1,
    ensures
        opt_passes(n, s) == s,
{
    law_quiet_pass_is_identity(s);
}

// ========== Substitution removes the variable ==========

/// No group of recursive bindings anywhere in `e` binds `v`.
pub open spec fn rec_free(v: VarId, e: IrV) -> bool
    decreases e,
{
    match e {
        IrV::Var(..) | IrV::Global(..) | IrV::Lit(..) | IrV::Unit => true,
        IrV::Let(_, _, value, body) => rec_free(v, *value) && rec_free(v, *body),
        IrV::LetRec(bs, body) => !shadows(bs, v) && rec_free_binds(v, bs) && rec_free(v, *body),
        IrV::Lambda(_, _, body, _) => rec_free(v, *body),
        IrV::App(f, a, _) => rec_free(v, *f) && rec_free(v, *a),
        IrV::If(c, t, f, _) => rec_free(v, *c) && rec_free(v, *t) && rec_free(v, *f),
        IrV::Match(scrut, arms, _) => rec_free(v, *scrut) && rec_free_arms(v, arms),
        IrV::Prim(_, args, _) => rec_free_seq(v, args),
        IrV::Construct(_, arg, _) => match arg {
            Some(a) => rec_free(v, *a),
            None => true,
        },
        IrV::Tuple(es, _) => rec_free_seq(v, es),
        IrV::TupleProj(t, _, _) => rec_free(v, *t),
        IrV::Record(fs, _) => rec_free_fields(v, fs),
        IrV::Field(r, _, _) => rec_free(v, *r),
        IrV::Command(parts, stdin, _) => rec_free_parts(v, parts) && match stdin {
            Some(x) => rec_free(v, *x),
            None => true,
        },
    }
}

pub open spec fn rec_free_seq(v: VarId, s: Seq<IrV>) -> bool
    decreases s,
{
    if s.len() == 0 { true } else { rec_free_seq(v, s.drop_last()) && rec_free(v, s.last()) }
}

pub open spec fn rec_free_binds(v: VarId, s: Seq<(VarId, crate::types::model::TypeV, IrV)>) -> bool
    decreases s,
{
    if s.len() == 0 { true } else { rec_free_binds(v, s.drop_last()) && rec_free(v, s.last().2) }
}

pub open spec fn rec_free_arms(v: VarId, s: Seq<(PatV, IrV)>) -> bool
    decreases s,
{
    if s.len() == 0 { true } else { rec_free_arms(v, s.drop_last()) && rec_free(v, s.last().1) }
}

pub open spec fn rec_free_fields(v: VarId, s: Seq<(Seq<char>, IrV)>) -> bool
    decreases s,
{
    if s.len() == 0 { true } else { rec_free_fields(v, s.drop_last()) && rec_free(v, s.last().1) }
}

pub open spec fn rec_free_parts(v: VarId, s: Seq<PartV>) -> bool
    decreases s,
{
    if s.len() == 0 {
        true
    } else {
        rec_free_parts(v, s.drop_last()) && match s.last() {
            PartV::Literal(_) => true,
            PartV::Interpolation(e) => rec_free(v, *e),
        }
    }
}

/// Law: substituting for a variable an expression that does not use it leaves no free use
/// of it, where no group of recursive bindings rebinds it; and an expression with no free
/// use of the variable is left as it is. (`substitute` computes `subst_v`, and
/// `count_uses` is zero exactly where `uses` is.)
pub proof fn law_substitute_removes(v: VarId, r: IrV, e: IrV)
    ensures
        (uses(v, r) == 0 && rec_free(v, e)) ==> uses(v, subst_v(v, r, e)) == 0,
        uses(v, e) == 0 ==> subst_v(v, r, e) == e,
    decreases e,
{
    match e {
        IrV::Let(b, t, value, body) => {
            law_substitute_removes(v, r, *value);
            law_substitute_removes(v, r, *body);
        },
        IrV::LetRec(bs, body) => {
            lemma_substitute_binds(v, r, bs);
            law_substitute_removes(v, r, *body);
        },
        IrV::Lambda(_, _, body, _) => {
            law_substitute_removes(v, r, *body);
        },
        IrV::App(f, a, _) => {
            law_substitute_removes(v, r, *f);
            law_substitute_removes(v, r, *a);
        },
        IrV::If(c, t, f, _) => {
            law_substitute_removes(v, r, *c);
            law_substitute_removes(v, r, *t);
            law_substitute_removes(v, r, *f);
        },
        IrV::Match(scrut, arms, _) => {
            law_substitute_removes(v, r, *scrut);
            lemma_substitute_arms(v, r, arms);
        },
        IrV::Prim(_, args, _) => {
            lemma_substitute_seq(v, r, args);
        },
        IrV::Construct(_, arg, _) => {
            match arg {
                Some(a) => { law_substitute_removes(v, r, *a); },
                None => {},
            }
        },
        IrV::Tuple(es, _) => {
            lemma_substitute_seq(v, r, es);
        },
        IrV::TupleProj(t, _, _) => {
            law_substitute_removes(v, r, *t);
        },
        IrV::Record(fs, _) => {
            lemma_substitute_fields(v, r, fs);
        },
        IrV::Field(x, _, _) => {
            law_substitute_removes(v, r, *x);
        },
        IrV::Command(parts, stdin, _) => {
            lemma_substitute_parts(v, r, parts);
            match stdin {
                Some(x) => { law_substitute_removes(v, r, *x); },
                None => {},
            }
        },
        _ => {},
    }
}

proof fn lemma_substitute_seq(v: VarId, r: IrV, s: Seq<IrV>)
    ensures
        (uses(v, r) == 0 && rec_free_seq(v, s)) ==> uses_seq(v, subst_seq(v, r, s)) == 0,
        uses_seq(v, s) == 0 ==> subst_seq(v, r, s) == s,
    decreases s,
{
    if s.len() > 0 {
        lemma_substitute_seq(v, r, s.drop_last());
        law_substitute_removes(v, r, s.last());
        let x = subst_seq(v, r, s);
        assert(x.drop_last() =~= subst_seq(v, r, s.drop_last()));
        if uses_seq(v, s) == 0 {
            assert(x =~= s);
        }
    }
}

proof fn lemma_substitute_binds(v: VarId, r: IrV, s: Seq<(VarId, crate::types::model::TypeV, IrV)>)
    ensures
        (uses(v, r) == 0 && rec_free_binds(v, s)) ==> uses_binds(v, subst_binds(v, r, s)) == 0,
        uses_binds(v, s) == 0 ==> subst_binds(v, r, s) == s,
    decreases s,
{
    if s.len() > 0 {
        lemma_substitute_binds(v, r, s.drop_last());
        law_substitute_removes(v, r, s.last().2);
        let x = subst_binds(v, r, s);
        assert(x.drop_last() =~= subst_binds(v, r, s.drop_last()));
        if uses_binds(v, s) == 0 {
            assert(x =~= s);
        }
    }
}

proof fn lemma_substitute_arms(v: VarId, r: IrV, s: Seq<(PatV, IrV)>)
    ensures
        (uses(v, r) == 0 && rec_free_arms(v, s)) ==> uses_arms(v, subst_arms(v, r, s)) == 0,
        uses_arms(v, s) == 0 ==> subst_arms(v, r, s) == s,
    decreases s,
{
    if s.len() > 0 {
        lemma_substitute_arms(v, r, s.drop_last());
        law_substitute_removes(v, r, s.last().1);
        let x = subst_arms(v, r, s);
        assert(x.drop_last() =~= subst_arms(v, r, s.drop_last()));
        if uses_arms(v, s) == 0 {
            assert(x =~= s);
        }
    }
}

proof fn lemma_substitute_fields(v: VarId, r: IrV, s: Seq<(Seq<char>, IrV)>)
    ensures
        (uses(v, r) == 0 && rec_free_fields(v, s)) ==> uses_fields(v, subst_fields(v, r, s)) == 0,
        uses_fields(v, s) == 0 ==> subst_fields(v, r, s) == s,
    decreases s,
{
    if s.len() > 0 {
        lemma_substitute_fields(v, r, s.drop_last());
        law_substitute_removes(v, r, s.last().1);
        let x = subst_fields(v, r, s);
        assert(x.drop_last() =~= subst_fields(v, r, s.drop_last()));
        if uses_fields(v, s) == 0 {
            assert(x =~= s);
        }
    }
}

proof fn lemma_substitute_parts(v: VarId, r: IrV, s: Seq<PartV>)
    ensures
        (uses(v, r) == 0 && rec_free_parts(v, s)) ==> uses_parts(v, subst_parts(v, r, s)) == 0,
        uses_parts(v, s) == 0 ==> subst_parts(v, r, s) == s,
    decreases s,
{
    if s.len() > 0 {
        lemma_substitute_parts(v, r, s.drop_last());
        match s.last() {
            PartV::Interpolation(e) => { law_substitute_removes(v, r, *e); },
            PartV::Literal(_) => {},
        }
        let x = subst_parts(v, r, s);
        assert(x.drop_last() =~= subst_parts(v, r, s.drop_last()));
        assert(x.last() == subst_part(v, r, s.last()));
        if uses_parts(v, s) == 0 {
            assert(subst_part(v, r, s.last()) == s.last());
            assert(x =~= s) by {
                assert(x.len() == s.len());
                assert forall|i: int| 0 <= i < s.len() implies x[i] == s[i] by {
                    if i < s.len() - 1 {
                        assert(x[i] == x.drop_last()[i]);
                        assert(s[i] == s.drop_last()[i]);
                    }
                }
            }
        }
    }
}

} // verus!
