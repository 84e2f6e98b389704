//! What a program must satisfy before code can be generated for it: every
//! primitive application has its arguments, and the program is small enough
//! for the generator's counters.

use vstd::prelude::*;
use crate::ir::base::Primitive;
use crate::ir::optimize::{capped, capped_add};
use crate::ir::tree::{
    Binding, IRCommandPart, IRDecl, IRExpr, IRPattern, IRProgram, IrV, PartV, PatV, aview_seq, bview_seq,
    cview, cview_seq, decls_view, eview, eview_seq, fview_seq, lemma_aview_seq, lemma_bview_seq,
    lemma_cview_seq, lemma_eview_seq, lemma_fview_seq, DeclV,
};
use super::zsh::{
    ZshCodegen, call_arity, call_arity_of, decl_prims_ok, decl_size, decls_size, ir_size, prims_ok,
    program_banner, program_prims_ok, script_footer, script_header, size_arms, size_binds, size_fields, size_parts, size_seq, fun_names, program_code,
};

verus! {

fn size_of_seq(xs: &Vec<IRExpr>) -> (n: usize)
    ensures
        n == capped(size_seq(eview_seq(xs@))),
    decreases eview_seq(xs@),
{
    proof { lemma_eview_seq(xs@); }
    let ghost s = eview_seq(xs@);
    let mut acc: usize = 0;
    let mut i: usize = 0;
    assert(s.take(0) =~= Seq::<IrV>::empty());
    while i < xs.len()
        invariant
            i <= xs@.len(),
            s == eview_seq(xs@),
            s.len() == xs@.len(),
            forall|j: int| 0 <= j < s.len() ==> #[trigger] s[j] == eview(xs@[j]),
            acc == capped(size_seq(s.take(i as int))),
        decreases xs.len() - i,
    {
        proof {
            assert(s.take(i + 1).drop_last() =~= s.take(i as int));
            assert(s.take(i + 1).last() == s[i as int]);
        }
        assert(decreases_to!(s => s[i as int]));
        let c = size_of(&xs[i]);
        acc = capped_add(acc, c);
        i += 1;
    }
    assert(s.take(i as int) =~= s);
    acc
}

fn size_of_binds(xs: &Vec<Binding>) -> (n: usize)
    ensures
        n == capped(size_binds(bview_seq(xs@))),
    decreases bview_seq(xs@),
{
    proof { lemma_bview_seq(xs@); }
    let ghost s = bview_seq(xs@);
    let mut acc: usize = 0;
    let mut i: usize = 0;
    assert(s.take(0) =~= Seq::<(crate::ir::base::VarId, crate::types::model::TypeV, IrV)>::empty());
    while i < xs.len()
        invariant
            i <= xs@.len(),
            s == bview_seq(xs@),
            s.len() == xs@.len(),
            forall|j: int| 0 <= j < s.len() ==> #[trigger] s[j] == (xs@[j].var, xs@[j].ty@, eview(xs@[j].value)),
            acc == capped(size_binds(s.take(i as int))),
        decreases xs.len() - i,
    {
        proof {
            assert(s.take(i + 1).drop_last() =~= s.take(i as int));
            assert(s.take(i + 1).last() == s[i as int]);
        }
        assert(decreases_to!(s => s[i as int]));
        assert(decreases_to!(s[i as int] => s[i as int].2));
        let c = size_of(&xs[i].value);
        acc = capped_add(acc, c);
        i += 1;
    }
    assert(s.take(i as int) =~= s);
    acc
}

fn size_of_arms(xs: &Vec<(IRPattern, IRExpr)>) -> (n: usize)
    ensures
        n == capped(size_arms(aview_seq(xs@))),
    decreases aview_seq(xs@),
{
    proof { lemma_aview_seq(xs@); }
    let ghost s = aview_seq(xs@);
    let mut acc: usize = 0;
    let mut i: usize = 0;
    assert(s.take(0) =~= Seq::<(PatV, IrV)>::empty());
    while i < xs.len()
        invariant
            i <= xs@.len(),
            s == aview_seq(xs@),
            s.len() == xs@.len(),
            forall|j: int| 0 <= j < s.len() ==> #[trigger] s[j] == (xs@[j].0@, eview(xs@[j].1)),
            acc == capped(size_arms(s.take(i as int))),
        decreases xs.len() - i,
    {
        proof {
            assert(s.take(i + 1).drop_last() =~= s.take(i as int));
            assert(s.take(i + 1).last() == s[i as int]);
        }
        assert(decreases_to!(s => s[i as int]));
        assert(decreases_to!(s[i as int] => s[i as int].1));
        let c = size_of(&xs[i].1);
        acc = capped_add(acc, c);
        i += 1;
    }
    assert(s.take(i as int) =~= s);
    acc
}

fn size_of_fields(xs: &Vec<(String, IRExpr)>) -> (n: usize)
    ensures
        n == capped(size_fields(fview_seq(xs@))),
    decreases fview_seq(xs@),
{
    proof { lemma_fview_seq(xs@); }
    let ghost s = fview_seq(xs@);
    let mut acc: usize = 0;
    let mut i: usize = 0;
    assert(s.take(0) =~= Seq::<(Seq<char>, IrV)>::empty());
    while i < xs.len()
        invariant
            i <= xs@.len(),
            s == fview_seq(xs@),
            s.len() == xs@.len(),
            forall|j: int| 0 <= j < s.len() ==> #[trigger] s[j] == (xs@[j].0@, eview(xs@[j].1)),
            acc == capped(size_fields(s.take(i as int))),
        decreases xs.len() - i,
    {
        proof {
            assert(s.take(i + 1).drop_last() =~= s.take(i as int));
            assert(s.take(i + 1).last() == s[i as int]);
        }
        assert(decreases_to!(s => s[i as int]));
        assert(decreases_to!(s[i as int] => s[i as int].1));
        let c = size_of(&xs[i].1);
        acc = capped_add(acc, c);
        i += 1;
    }
    assert(s.take(i as int) =~= s);
    acc
}

fn size_of_parts(xs: &Vec<IRCommandPart>) -> (n: usize)
    ensures
        n == capped(size_parts(cview_seq(xs@))),
    decreases cview_seq(xs@),
{
    proof { lemma_cview_seq(xs@); }
    let ghost s = cview_seq(xs@);
    let mut acc: usize = 0;
    let mut i: usize = 0;
    assert(s.take(0) =~= Seq::<PartV>::empty());
    while i < xs.len()
        invariant
            i <= xs@.len(),
            s == cview_seq(xs@),
            s.len() == xs@.len(),
            forall|j: int| 0 <= j < s.len() ==> #[trigger] s[j] == cview(xs@[j]),
            acc == capped(size_parts(s.take(i as int))),
        decreases xs.len() - i,
    {
        proof {
            assert(s.take(i + 1).drop_last() =~= s.take(i as int));
            assert(s.take(i + 1).last() == s[i as int]);
        }
        assert(decreases_to!(s => s[i as int]));
        let c = match &xs[i] {
            IRCommandPart::Literal(_) => {
                assert(capped(0) == 0);
                0
            },
            IRCommandPart::Interpolation(e) => {
                assert(decreases_to!(s[i as int] => s[i as int]->Interpolation_0));
                size_of(e)
            },
        };
        acc = capped_add(acc, c);
        i += 1;
    }
    assert(s.take(i as int) =~= s);
    acc
}

/// The number of nodes of an expression, or the largest `usize` where it has more.
fn size_of(e: &IRExpr) -> (n: usize)
    ensures
        n == capped(ir_size(e@)),
    decreases e@,
{
    assert(capped(0) == 0 && capped(1) == 1);
    let one: usize = 1;
    match e {
        IRExpr::Let { value, body, .. } => {
            assert(decreases_to!(e@ => e@->Let_2));
            assert(decreases_to!(e@ => e@->Let_3));
            let a = size_of(value);
            let b = size_of(body);
            capped_add(one, capped_add(a, b))
        },
        IRExpr::LetRec { bindings, body } => {
            assert(decreases_to!(e@ => e@->LetRec_0));
            assert(decreases_to!(e@ => e@->LetRec_1));
            let a = size_of_binds(bindings);
            let b = size_of(body);
            capped_add(one, capped_add(a, b))
        },
        IRExpr::Lambda { body, .. } => {
            assert(decreases_to!(e@ => e@->Lambda_2));
            capped_add(one, size_of(body))
        },
        IRExpr::App { func, arg, .. } => {
            assert(decreases_to!(e@ => e@->App_0));
            assert(decreases_to!(e@ => e@->App_1));
            let a = size_of(func);
            let b = size_of(arg);
            capped_add(one, capped_add(a, b))
        },
        IRExpr::If { cond, then_branch, else_branch, .. } => {
            assert(decreases_to!(e@ => e@->If_0));
            assert(decreases_to!(e@ => e@->If_1));
            assert(decreases_to!(e@ => e@->If_2));
            let a = size_of(cond);
            let b = size_of(then_branch);
            let c = size_of(else_branch);
            capped_add(one, capped_add(capped_add(a, b), c))
        },
        IRExpr::Match { scrutinee, arms, .. } => {
            assert(decreases_to!(e@ => e@->Match_0));
            assert(decreases_to!(e@ => e@->Match_1));
            let a = size_of(scrutinee);
            let b = size_of_arms(arms);
            capped_add(one, capped_add(a, b))
        },
        IRExpr::Prim { args, .. } => {
            assert(decreases_to!(e@ => e@->Prim_1));
            capped_add(one, size_of_seq(args))
        },
        IRExpr::Construct { arg, .. } => match arg {
            Some(a) => {
                assert(decreases_to!(e@ => e@->Construct_1));
                assert(decreases_to!(e@->Construct_1 => (e@->Construct_1)->0));
                capped_add(one, size_of(a))
            },
            None => one,
        },
        IRExpr::Tuple { elems, .. } => {
            assert(decreases_to!(e@ => e@->Tuple_0));
            capped_add(one, size_of_seq(elems))
        },
        IRExpr::TupleProj { tuple, .. } => {
            assert(decreases_to!(e@ => e@->TupleProj_0));
            capped_add(one, size_of(tuple))
        },
        IRExpr::Record { fields, .. } => {
            assert(decreases_to!(e@ => e@->Record_0));
            capped_add(one, size_of_fields(fields))
        },
        IRExpr::Field { record, .. } => {
            assert(decreases_to!(e@ => e@->Field_0));
            capped_add(one, size_of(record))
        },
        IRExpr::Command { parts, stdin, .. } => {
            assert(decreases_to!(e@ => e@->Command_0));
            let a = size_of_parts(parts);
            let b = match stdin {
                Some(x) => {
                    assert(decreases_to!(e@ => e@->Command_1));
                    assert(decreases_to!(e@->Command_1 => (e@->Command_1)->0));
                    size_of(x)
                },
                None => 0,
            };
            capped_add(one, capped_add(a, b))
        },
        _ => one,
    }
}

/// Whether every expression of a list is well applied.
fn all_prims_ok(xs: &Vec<IRExpr>) -> (b: bool)
    ensures
        b == forall|i: int| 0 <= i < xs@.len() ==> prims_ok(#[trigger] eview_seq(xs@)[i]),
    decreases eview_seq(xs@),
{
    proof { lemma_eview_seq(xs@); }
    let ghost s = eview_seq(xs@);
    let mut i: usize = 0;
    while i < xs.len()
        invariant
            i <= xs@.len(),
            s == eview_seq(xs@),
            s.len() == xs@.len(),
            forall|j: int| 0 <= j < s.len() ==> #[trigger] s[j] == eview(xs@[j]),
            forall|j: int| 0 <= j < i ==> prims_ok(#[trigger] s[j]),
        decreases xs.len() - i,
    {
        assert(decreases_to!(s => s[i as int]));
        if !prims_ok_of(&xs[i]) {
            return false;
        }
        i += 1;
    }
    true
}

/// Whether every primitive application in an expression has the arguments its
/// runtime call passes.
fn prims_ok_of(e: &IRExpr) -> (b: bool)
    ensures
        b == prims_ok(e@),
    decreases e@,
{
    match e {
        IRExpr::Prim { op, args, .. } => {
            assert(decreases_to!(e@ => e@->Prim_1));
            proof { lemma_eview_seq(args@); }
            assert(e@->Prim_1 == eview_seq(args@));
            assert(e@->Prim_0 == *op);
            if args.len() < call_arity_of(*op) {
                return false;
            }
            let b = all_prims_ok(args);
            proof {
                let sa = eview_seq(args@);
                if b {
                    assert forall|i: int| 0 <= i < sa.len() implies prims_ok(#[trigger] sa[i]) by {}
                } else {
                    let j = choose|j: int| 0 <= j < args@.len() && !prims_ok(#[trigger] eview_seq(args@)[j]);
                    assert(!prims_ok(sa[j]));
                }
            }
            b
        },
        IRExpr::Let { value, body, .. } => {
            assert(decreases_to!(e@ => e@->Let_2));
            assert(decreases_to!(e@ => e@->Let_3));
            prims_ok_of(value) && prims_ok_of(body)
        },
        IRExpr::LetRec { bindings, body } => {
            assert(decreases_to!(e@ => e@->LetRec_0));
            assert(decreases_to!(e@ => e@->LetRec_1));
            if !binds_prims_ok(bindings) {
                proof {
                    lemma_bview_seq(bindings@);
                    let j = choose|j: int| 0 <= j < bindings@.len() && !prims_ok(#[trigger] bview_seq(bindings@)[j].2);
                    assert(e@->LetRec_0 == bview_seq(bindings@));
                    assert(!prims_ok(e@->LetRec_0[j].2));
                }
                return false;
            }
            proof {
                lemma_bview_seq(bindings@);
                assert(e@->LetRec_0 == bview_seq(bindings@));
            }
            prims_ok_of(body)
        },
        IRExpr::Lambda { body, .. } => {
            assert(decreases_to!(e@ => e@->Lambda_2));
            prims_ok_of(body)
        },
        IRExpr::App { func, arg, .. } => {
            assert(decreases_to!(e@ => e@->App_0));
            assert(decreases_to!(e@ => e@->App_1));
            prims_ok_of(func) && prims_ok_of(arg)
        },
        IRExpr::If { cond, then_branch, else_branch, .. } => {
            assert(decreases_to!(e@ => e@->If_0));
            assert(decreases_to!(e@ => e@->If_1));
            assert(decreases_to!(e@ => e@->If_2));
            prims_ok_of(cond) && prims_ok_of(then_branch) && prims_ok_of(else_branch)
        },
        IRExpr::Match { scrutinee, arms, .. } => {
            assert(decreases_to!(e@ => e@->Match_0));
            assert(decreases_to!(e@ => e@->Match_1));
            if !prims_ok_of(scrutinee) {
                return false;
            }
            proof {
                lemma_aview_seq(arms@);
                assert(e@->Match_1 == aview_seq(arms@));
            }
            arms_prims_ok(arms)
        },
        IRExpr::Construct { arg, .. } => match arg {
            Some(a) => {
                assert(decreases_to!(e@ => e@->Construct_1));
                assert(decreases_to!(e@->Construct_1 => (e@->Construct_1)->0));
                prims_ok_of(a)
            },
            None => {
                assert(prims_ok(e@));
                true
            },
        },
        IRExpr::Tuple { elems, .. } => {
            assert(decreases_to!(e@ => e@->Tuple_0));
            proof {
                lemma_eview_seq(elems@);
                assert(e@->Tuple_0 == eview_seq(elems@));
            }
            all_prims_ok(elems)
        },
        IRExpr::TupleProj { tuple, .. } => {
            assert(decreases_to!(e@ => e@->TupleProj_0));
            prims_ok_of(tuple)
        },
        IRExpr::Record { fields, .. } => {
            assert(decreases_to!(e@ => e@->Record_0));
            proof {
                lemma_fview_seq(fields@);
                assert(e@->Record_0 == fview_seq(fields@));
            }
            fields_prims_ok(fields)
        },
        IRExpr::Field { record, .. } => {
            assert(decreases_to!(e@ => e@->Field_0));
            prims_ok_of(record)
        },
        IRExpr::Command { parts, stdin, .. } => {
            assert(decreases_to!(e@ => e@->Command_0));
            if !parts_prims_ok(parts) {
                proof {
                    lemma_cview_seq(parts@);
                    let j = choose|j: int| 0 <= j < parts@.len() && !(match #[trigger] cview_seq(parts@)[j] {
                        PartV::Interpolation(x) => prims_ok(*x),
                        PartV::Literal(_) => true,
                    });
                    assert(e@->Command_0 == cview_seq(parts@));
                    assert(!(match e@->Command_0[j] {
                        PartV::Interpolation(x) => prims_ok(*x),
                        PartV::Literal(_) => true,
                    }));
                }
                return false;
            }
            proof {
                lemma_cview_seq(parts@);
                assert(e@->Command_0 == cview_seq(parts@));
            }
            match stdin {
                Some(x) => {
                    assert(decreases_to!(e@ => e@->Command_1));
                    assert(decreases_to!(e@->Command_1 => (e@->Command_1)->0));
                    prims_ok_of(x)
                },
                None => {
                    assert(prims_ok(e@));
                    true
                },
            }
        },
        _ => {
            assert(prims_ok(e@));
            true
        },
    }
}


fn binds_prims_ok(xs: &Vec<Binding>) -> (b: bool)
    ensures
        b == forall|i: int| 0 <= i < xs@.len() ==> prims_ok(#[trigger] bview_seq(xs@)[i].2),
    decreases bview_seq(xs@),
{
    proof { lemma_bview_seq(xs@); }
    let ghost s = bview_seq(xs@);
    let mut i: usize = 0;
    while i < xs.len()
        invariant
            i <= xs@.len(),
            s == bview_seq(xs@),
            s.len() == xs@.len(),
            forall|j: int| 0 <= j < s.len() ==> #[trigger] s[j] == (xs@[j].var, xs@[j].ty@, eview(xs@[j].value)),
            forall|j: int| 0 <= j < i ==> prims_ok(#[trigger] s[j].2),
        decreases xs.len() - i,
    {
        assert(decreases_to!(s => s[i as int]));
        assert(decreases_to!(s[i as int] => s[i as int].2));
        if !prims_ok_of(&xs[i].value) {
            assert(!prims_ok(s[i as int].2));
            return false;
        }
        i += 1;
    }
    true
}

fn arms_prims_ok(xs: &Vec<(IRPattern, IRExpr)>) -> (b: bool)
    ensures
        b == forall|i: int| 0 <= i < xs@.len() ==> prims_ok(#[trigger] aview_seq(xs@)[i].1),
    decreases aview_seq(xs@),
{
    proof { lemma_aview_seq(xs@); }
    let ghost s = aview_seq(xs@);
    let mut i: usize = 0;
    while i < xs.len()
        invariant
            i <= xs@.len(),
            s == aview_seq(xs@),
            s.len() == xs@.len(),
            forall|j: int| 0 <= j < s.len() ==> #[trigger] s[j] == (xs@[j].0@, eview(xs@[j].1)),
            forall|j: int| 0 <= j < i ==> prims_ok(#[trigger] s[j].1),
        decreases xs.len() - i,
    {
        assert(decreases_to!(s => s[i as int]));
        assert(decreases_to!(s[i as int] => s[i as int].1));
        if !prims_ok_of(&xs[i].1) {
            assert(!prims_ok(s[i as int].1));
            return false;
        }
        i += 1;
    }
    true
}

fn fields_prims_ok(xs: &Vec<(String, IRExpr)>) -> (b: bool)
    ensures
        b == forall|i: int| 0 <= i < xs@.len() ==> prims_ok(#[trigger] fview_seq(xs@)[i].1),
    decreases fview_seq(xs@),
{
    proof { lemma_fview_seq(xs@); }
    let ghost s = fview_seq(xs@);
    let mut i: usize = 0;
    while i < xs.len()
        invariant
            i <= xs@.len(),
            s == fview_seq(xs@),
            s.len() == xs@.len(),
            forall|j: int| 0 <= j < s.len() ==> #[trigger] s[j] == (xs@[j].0@, eview(xs@[j].1)),
            forall|j: int| 0 <= j < i ==> prims_ok(#[trigger] s[j].1),
        decreases xs.len() - i,
    {
        assert(decreases_to!(s => s[i as int]));
        assert(decreases_to!(s[i as int] => s[i as int].1));
        if !prims_ok_of(&xs[i].1) {
            assert(!prims_ok(s[i as int].1));
            return false;
        }
        i += 1;
    }
    true
}

fn parts_prims_ok(xs: &Vec<IRCommandPart>) -> (b: bool)
    ensures
        b == forall|i: int| 0 <= i < xs@.len() ==> match #[trigger] cview_seq(xs@)[i] {
            PartV::Interpolation(x) => prims_ok(*x),
            PartV::Literal(_) => true,
        },
    decreases cview_seq(xs@),
{
    proof { lemma_cview_seq(xs@); }
    let ghost s = cview_seq(xs@);
    let mut i: usize = 0;
    while i < xs.len()
        invariant
            i <= xs@.len(),
            s == cview_seq(xs@),
            s.len() == xs@.len(),
            forall|j: int| 0 <= j < s.len() ==> #[trigger] s[j] == cview(xs@[j]),
            forall|j: int| 0 <= j < i ==> match #[trigger] s[j] {
                PartV::Interpolation(x) => prims_ok(*x),
                PartV::Literal(_) => true,
            },
        decreases xs.len() - i,
    {
        assert(decreases_to!(s => s[i as int]));
        match &xs[i] {
            IRCommandPart::Interpolation(x) => {
                assert(decreases_to!(s[i as int] => s[i as int]->Interpolation_0));
                if !prims_ok_of(x) {
                    assert(s[i as int] == PartV::Interpolation(Box::new(x@)));
                    return false;
                }
            },
            IRCommandPart::Literal(_) => {},
        }
        i += 1;
    }
    true
}

/// A declaration's size (capped) and whether it is well applied.
fn decl_check(d: &IRDecl) -> (r: (usize, bool))
    ensures
        r.0 == capped(decl_size(d@)),
        r.1 == decl_prims_ok(d@),
{
    assert(capped(0) == 0);
    match decl_code(d) {
        Some(e) => (size_of(e), prims_ok_of(e)),
        None => (0, true),
    }
}

/// The code a declaration holds, if any.
fn decl_code(d: &IRDecl) -> (r: Option<&IRExpr>)
    ensures
        match d@ {
            DeclV::Val(_, _, v) => r matches Some(e) && e@ == v,
            DeclV::Fun(_, _, _, b) => r matches Some(e) && e@ == b,
            DeclV::Data(..) => r is None,
        },
{
    match d {
        IRDecl::Val { value, .. } => Some(value),
        IRDecl::Fun { body, .. } => Some(body),
        IRDecl::Data { .. } => None,
    }
}

/// The largest program size the generator's counters take.
pub open spec fn size_limit() -> nat {
    ((usize::MAX - 4) / 4) as nat
}

/// Whether code can be generated for a program: every primitive application
/// has its arguments and the program is within the size the generator counts.
pub open spec fn generable(ds: Seq<DeclV>) -> bool {
    program_prims_ok(ds) && decls_size(ds) <= size_limit()
}

/// Generate zsh code for a program where it can be generated (see
/// `generable`); `None` where a primitive lacks an argument or the program is
/// too large.
#[verifier::rlimit(40)]
pub fn generate_checked(program: &IRProgram) -> (r: Option<String>)
    ensures
        r is Some <==> generable(decls_view(program.decls@)),
        r matches Some(code) ==> script_header().is_prefix_of(code@)
            && code@.len() >= script_header().len() + script_footer().len()
            && code@.skip(code@.len() - script_footer().len()) == script_footer(),
        r matches Some(code) ==> (script_header() + program_banner()).is_prefix_of(code@),
        (r is Some && program_code(decls_view(program.decls@), fun_names(decls_view(program.decls@))) is Some)
            ==> r->0@ == script_header() + program_code(decls_view(program.decls@), fun_names(decls_view(program.decls@)))->0
                + script_footer(),
{
    let ghost ds = decls_view(program.decls@);
    let mut total: usize = 0;
    let mut i: usize = 0;
    assert(ds.take(0) =~= Seq::<DeclV>::empty());
    while i < program.decls.len()
        invariant
            i <= program.decls@.len(),
            ds == decls_view(program.decls@),
            ds.len() == program.decls@.len(),
            total == capped(decls_size(ds.take(i as int))),
            forall|j: int| 0 <= j < i ==> decl_prims_ok(#[trigger] ds[j]),
        decreases program.decls.len() - i,
    {
        let (size, well_applied) = decl_check(&program.decls[i]);
        assert(ds[i as int] == program.decls@[i as int]@);
        if !well_applied {
            assert(!decl_prims_ok(ds[i as int]));
            return None;
        }
        proof {
            assert(ds.take(i + 1).drop_last() =~= ds.take(i as int));
            assert(ds.take(i + 1).last() == ds[i as int]);
        }
        total = capped_add(total, size);
        i += 1;
    }
    assert(ds.take(i as int) =~= ds);
    if total > (usize::MAX - 4) / 4 {
        return None;
    }
    let gen = ZshCodegen::new();
    proof { assert(gen.functions() + fun_names(ds) =~= fun_names(ds)); }
    Some(gen.generate(program))
}

} // verus!
