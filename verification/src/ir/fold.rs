//! Constant folding of primitive operations whose arguments are literals.

use vstd::prelude::*;
use super::base::Primitive;
use super::tree::{IRExpr, IRLiteral, IrV, LitV, eview_seq, lemma_eview_seq};
use super::optimize::Optimizer;
use crate::types::model::TypeV;
use crate::types::repr::Type;
use crate::vm::primitive::{OutcomeV, ScalarV, prim_outcome, signature, trunc_div, trunc_rem, magnitude};

verus! {

/// The integer held by an integer literal.
pub open spec fn lit_int(e: IrV) -> Option<i64> {
    match e {
        IrV::Lit(LitV::Int(n), _) => Some(n),
        _ => None,
    }
}

/// The truth value held by a boolean literal.
pub open spec fn lit_bool(e: IrV) -> Option<bool> {
    match e {
        IrV::Lit(LitV::Bool(b), _) => Some(b),
        _ => None,
    }
}

/// The text held by a string literal.
pub open spec fn lit_str(e: IrV) -> Option<Seq<char>> {
    match e {
        IrV::Lit(LitV::Str(s), _) => Some(s),
        _ => None,
    }
}

/// The `i`-th argument as an integer literal, where there is one.
pub open spec fn int_arg(args: Seq<IrV>, i: int) -> Option<i64> {
    if 0 <= i < args.len() { lit_int(args[i]) } else { None }
}

pub open spec fn bool_arg(args: Seq<IrV>, i: int) -> Option<bool> {
    if 0 <= i < args.len() { lit_bool(args[i]) } else { None }
}

pub open spec fn str_arg(args: Seq<IrV>, i: int) -> Option<Seq<char>> {
    if 0 <= i < args.len() { lit_str(args[i]) } else { None }
}

/// An integer operation on the first two arguments, where both are integer literals and
/// the operation is defined on them.
pub open spec fn fold_ints(args: Seq<IrV>, f: spec_fn(i64, i64) -> Option<LitV>, ty: TypeV) -> Option<IrV> {
    match (int_arg(args, 0), int_arg(args, 1)) {
        (Some(a), Some(b)) => match f(a, b) {
            Some(l) => Some(IrV::Lit(l, ty)),
            None => None,
        },
        _ => None,
    }
}

pub open spec fn fold_bools(args: Seq<IrV>, f: spec_fn(bool, bool) -> bool, ty: TypeV) -> Option<IrV> {
    match (bool_arg(args, 0), bool_arg(args, 1)) {
        (Some(a), Some(b)) => Some(IrV::Lit(LitV::Bool(f(a, b)), ty)),
        _ => None,
    }
}

/// The literal a primitive operation evaluates to when its arguments are literals.
///
/// Integer addition, subtraction and multiplication wrap around; division and remainder
/// fold only where the divisor is not zero and the quotient fits in `i64`; negation folds
/// where the result fits.  Other primitives (among them those on floats) are not folded.
pub open spec fn fold_prim(op: Primitive, args: Seq<IrV>, ty: TypeV) -> Option<IrV> {
    match op {
        Primitive::AddInt => fold_ints(args, |a: i64, b: i64| Some(LitV::Int(a.wrapping_add(b))), ty),
        Primitive::SubInt => fold_ints(args, |a: i64, b: i64| Some(LitV::Int(a.wrapping_sub(b))), ty),
        Primitive::MulInt => fold_ints(args, |a: i64, b: i64| Some(LitV::Int(a.wrapping_mul(b))), ty),
        Primitive::DivInt => fold_ints(args, |a: i64, b: i64| match a.checked_div(b) {
            Some(q) => Some(LitV::Int(q)),
            None => None,
        }, ty),
        Primitive::ModInt => fold_ints(args, |a: i64, b: i64| match a.checked_rem(b) {
            Some(m) => Some(LitV::Int(m)),
            None => None,
        }, ty),
        Primitive::NegInt => match int_arg(args, 0) {
            Some(a) => if a != i64::MIN { Some(IrV::Lit(LitV::Int((-a) as i64), ty)) } else { None },
            None => None,
        },
        Primitive::EqInt => fold_ints(args, |a: i64, b: i64| Some(LitV::Bool(a == b)), ty),
        Primitive::NeqInt => fold_ints(args, |a: i64, b: i64| Some(LitV::Bool(a != b)), ty),
        Primitive::LtInt => fold_ints(args, |a: i64, b: i64| Some(LitV::Bool(a < b)), ty),
        Primitive::LeInt => fold_ints(args, |a: i64, b: i64| Some(LitV::Bool(a <= b)), ty),
        Primitive::GtInt => fold_ints(args, |a: i64, b: i64| Some(LitV::Bool(a > b)), ty),
        Primitive::GeInt => fold_ints(args, |a: i64, b: i64| Some(LitV::Bool(a >= b)), ty),
        Primitive::EqBool => fold_bools(args, |a: bool, b: bool| a == b, ty),
        Primitive::NeqBool => fold_bools(args, |a: bool, b: bool| a != b, ty),
        Primitive::Not => match bool_arg(args, 0) {
            Some(a) => Some(IrV::Lit(LitV::Bool(!a), ty)),
            None => None,
        },
        Primitive::Concat => match (str_arg(args, 0), str_arg(args, 1)) {
            (Some(a), Some(b)) => Some(IrV::Lit(LitV::Str(a + b), ty)),
            _ => None,
        },
        _ => None,
    }
}

/// The run-time value a literal expression stands for (a float literal is none of the
/// values the primitive operations here take).
pub open spec fn lit_value(e: IrV) -> Option<ScalarV> {
    match e {
        IrV::Lit(LitV::Int(n), _) => Some(ScalarV::Int(n)),
        IrV::Lit(LitV::Bool(b), _) => Some(ScalarV::Bool(b)),
        IrV::Lit(LitV::Char(c), _) => Some(ScalarV::Char(c)),
        IrV::Lit(LitV::Str(s), _) => Some(ScalarV::Str(s)),
        _ => None,
    }
}

/// Law: constant folding keeps the meaning of a primitive. Where `fold_prim` folds an
/// operation applied to as many literals as it takes, it gives a literal of the
/// expression's type whose value is what the operation evaluates to on those literals at
/// run time.
pub proof fn law_fold_evaluates(op: Primitive, args: Seq<IrV>, ty: TypeV)
    requires
        fold_prim(op, args, ty) is Some,
        signature(op) matches Some((_, n)) && args.len() == n,
        forall|i: int| 0 <= i < args.len() ==> (#[trigger] lit_value(args[i])) is Some,
    ensures
        fold_prim(op, args, ty) matches Some(e) && e matches IrV::Lit(_, t) && t == ty && lit_value(e) is Some
            && prim_outcome(op, args.map_values(|a: IrV| lit_value(a)->0)) == OutcomeV::Value(lit_value(e)->0),
{
    let a = args.map_values(|x: IrV| lit_value(x)->0);
    assert(lit_value(args[0]) is Some);
    assert(a[0] == lit_value(args[0])->0);
    if args.len() > 1 {
        assert(lit_value(args[1]) is Some);
        assert(a[1] == lit_value(args[1])->0);
    }
    if op == Primitive::DivInt || op == Primitive::ModInt {
        let x = int_arg(args, 0)->0;
        let y = int_arg(args, 1)->0;
        assert(y != 0);
        assert(!(x == i64::MIN && y == -1)) by {
            if x == i64::MIN && y == -1 {
                if op == Primitive::DivInt {
                    assert(x as int * -1 == 9223372036854775808int);
                    assert(y as int * -1 == 1int);
                    assert(9223372036854775808int / 1int == 9223372036854775808int);
                }
            }
        }
        let xi = x as int;
        let yi = y as int;
        assert(magnitude(xi) >= 0 && magnitude(yi) > 0);
        if op == Primitive::DivInt {
            assert(trunc_div(xi, yi) == if xi == 0 { 0 } else if xi > 0 && yi > 0 { xi / yi }
                else if xi < 0 && yi < 0 { (xi * -1) / (yi * -1) }
                else if xi < 0 { ((xi * -1) / yi) * -1 } else { (xi / (yi * -1)) * -1 });
        } else {
            if xi == 0 {
                assert(0int % magnitude(yi) == 0) by (nonlinear_arith)
                    requires magnitude(yi) > 0;
            }
            assert(trunc_rem(xi, yi) == if xi == 0 { 0 } else if xi > 0 && yi > 0 { xi % yi }
                else if xi < 0 && yi < 0 { ((xi * -1) % (yi * -1)) * -1 }
                else if xi < 0 { ((xi * -1) % yi) * -1 } else { xi % (yi * -1) });
        }
    }
}

fn int_lit(n: i64, ty: &Type) -> (e: IRExpr)
    ensures
        e@ == IrV::Lit(LitV::Int(n), ty@),
{
    IRExpr::Lit(IRLiteral::Int(n), ty.clone())
}

fn bool_lit(b: bool, ty: &Type) -> (e: IRExpr)
    ensures
        e@ == IrV::Lit(LitV::Bool(b), ty@),
{
    IRExpr::Lit(IRLiteral::Bool(b), ty.clone())
}

impl Optimizer {
    /// Extract integer from a literal expression.
    fn as_int(&self, expr: &IRExpr) -> (r: Option<i64>)
        ensures
            r == lit_int(expr@),
    {
        match expr {
            IRExpr::Lit(IRLiteral::Int(n), _) => Some(*n),
            _ => None,
        }
    }

    /// Extract boolean from a literal expression.
    fn as_bool(&self, expr: &IRExpr) -> (r: Option<bool>)
        ensures
            r == lit_bool(expr@),
    {
        match expr {
            IRExpr::Lit(IRLiteral::Bool(b), _) => Some(*b),
            _ => None,
        }
    }

    /// Extract string from a literal expression.
    fn as_string(&self, expr: &IRExpr) -> (r: Option<String>)
        ensures
            match r {
                Some(s) => lit_str(expr@) == Some(s@),
                None => lit_str(expr@) is None,
            },
    {
        match expr {
            IRExpr::Lit(IRLiteral::String(s), _) => Some(s.clone()),
            _ => None,
        }
    }

    /// The first two arguments as integer literals.
    fn int_args(&self, args: &[IRExpr]) -> (r: Option<(i64, i64)>)
        ensures
            match r {
                Some((a, b)) => int_arg(eview_seq(args@), 0) == Some(a) && int_arg(eview_seq(args@), 1) == Some(b),
                None => int_arg(eview_seq(args@), 0) is None || int_arg(eview_seq(args@), 1) is None,
            },
    {
        proof { lemma_eview_seq(args@); }
        if args.len() < 2 {
            return None;
        }
        match (self.as_int(&args[0]), self.as_int(&args[1])) {
            (Some(a), Some(b)) => Some((a, b)),
            _ => None,
        }
    }

    /// The first two arguments as boolean literals.
    fn bool_args(&self, args: &[IRExpr]) -> (r: Option<(bool, bool)>)
        ensures
            match r {
                Some((a, b)) => bool_arg(eview_seq(args@), 0) == Some(a) && bool_arg(eview_seq(args@), 1) == Some(b),
                None => bool_arg(eview_seq(args@), 0) is None || bool_arg(eview_seq(args@), 1) is None,
            },
    {
        proof { lemma_eview_seq(args@); }
        if args.len() < 2 {
            return None;
        }
        match (self.as_bool(&args[0]), self.as_bool(&args[1])) {
            (Some(a), Some(b)) => Some((a, b)),
            _ => None,
        }
    }

    /// Try to fold a primitive operation on constant arguments.
    #[verifier::rlimit(40)]
    pub fn try_fold_prim(&self, op: Primitive, args: &[IRExpr], ty: &Type) -> (r: Option<IRExpr>)
        ensures
            match r {
                Some(e) => fold_prim(op, eview_seq(args@), ty@) == Some(e@),
                None => fold_prim(op, eview_seq(args@), ty@) is None,
            },
    {
        proof { lemma_eview_seq(args@); }
        let ghost s = eview_seq(args@);
        match op {
            Primitive::AddInt => match self.int_args(args) {
                Some((a, b)) => Some(int_lit(a.wrapping_add(b), ty)),
                None => None,
            },
            Primitive::SubInt => match self.int_args(args) {
                Some((a, b)) => Some(int_lit(a.wrapping_sub(b), ty)),
                None => None,
            },
            Primitive::MulInt => match self.int_args(args) {
                Some((a, b)) => Some(int_lit(a.wrapping_mul(b), ty)),
                None => None,
            },
            Primitive::DivInt => match self.int_args(args) {
                Some((a, b)) => match a.checked_div(b) {
                    Some(q) => Some(int_lit(q, ty)),
                    None => None,
                },
                None => None,
            },
            Primitive::ModInt => match self.int_args(args) {
                Some((a, b)) => match a.checked_rem(b) {
                    Some(m) => Some(int_lit(m, ty)),
                    None => None,
                },
                None => None,
            },
            Primitive::NegInt => {
                if args.len() < 1 {
                    return None;
                }
                match self.as_int(&args[0]) {
                    Some(a) => if a != i64::MIN { Some(int_lit(-a, ty)) } else { None },
                    None => None,
                }
            },
            Primitive::EqInt => match self.int_args(args) {
                Some((a, b)) => Some(bool_lit(a == b, ty)),
                None => None,
            },
            Primitive::NeqInt => match self.int_args(args) {
                Some((a, b)) => Some(bool_lit(a != b, ty)),
                None => None,
            },
            Primitive::LtInt => match self.int_args(args) {
                Some((a, b)) => Some(bool_lit(a < b, ty)),
                None => None,
            },
            Primitive::LeInt => match self.int_args(args) {
                Some((a, b)) => Some(bool_lit(a <= b, ty)),
                None => None,
            },
            Primitive::GtInt => match self.int_args(args) {
                Some((a, b)) => Some(bool_lit(a > b, ty)),
                None => None,
            },
            Primitive::GeInt => match self.int_args(args) {
                Some((a, b)) => Some(bool_lit(a >= b, ty)),
                None => None,
            },
            Primitive::EqBool => match self.bool_args(args) {
                Some((a, b)) => Some(bool_lit(a == b, ty)),
                None => None,
            },
            Primitive::NeqBool => match self.bool_args(args) {
                Some((a, b)) => Some(bool_lit(a != b, ty)),
                None => None,
            },
            Primitive::Not => {
                if args.len() < 1 {
                    return None;
                }
                match self.as_bool(&args[0]) {
                    Some(a) => Some(bool_lit(!a, ty)),
                    None => None,
                }
            },
            Primitive::Concat => {
                if args.len() < 2 {
                    return None;
                }
                match (self.as_string(&args[0]), self.as_string(&args[1])) {
                    (Some(a), Some(b)) => {
                        let mut joined = a;
                        joined.append(b.as_str());
                        Some(IRExpr::Lit(IRLiteral::String(joined), ty.clone()))
                    },
                    _ => None,
                }
            },
            _ => None,
        }
    }
}

} // verus!
