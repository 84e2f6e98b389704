//! Mathematical model of types: the view of `Type` and the operations on it
//! that the contracts are stated over (free variables, size, substitution).

use vstd::prelude::*;

verus! {

/// The mathematical value of a type: names become character sequences,
/// vectors become sequences.
pub enum TypeV {
    Var(u64),
    Con(Seq<char>, Seq<TypeV>),
    Arrow(Box<TypeV>, Box<TypeV>),
    Tuple(Seq<TypeV>),
    Record(Seq<(Seq<char>, TypeV)>),
}

// ========== Free variables ==========

/// The type variables occurring in a type.
pub open spec fn fv(t: TypeV) -> Set<u64>
    decreases t,
{
    match t {
        TypeV::Var(v) => set![v],
        TypeV::Con(_, args) => fv_seq(args),
        TypeV::Arrow(a, b) => fv(*a).union(fv(*b)),
        TypeV::Tuple(es) => fv_seq(es),
        TypeV::Record(fs) => fv_fields(fs),
    }
}

pub open spec fn fv_seq(s: Seq<TypeV>) -> Set<u64>
    decreases s,
{
    if s.len() == 0 {
        Set::empty()
    } else {
        fv_seq(s.drop_last()).union(fv(s.last()))
    }
}

pub open spec fn fv_fields(s: Seq<(Seq<char>, TypeV)>) -> Set<u64>
    decreases s,
{
    if s.len() == 0 {
        Set::empty()
    } else {
        fv_fields(s.drop_last()).union(fv(s.last().1))
    }
}

// ========== Size ==========

/// The number of nodes in a type.
pub open spec fn size(t: TypeV) -> nat
    decreases t,
{
    match t {
        TypeV::Var(_) => 1,
        TypeV::Con(_, args) => 1 + size_seq(args),
        TypeV::Arrow(a, b) => 1 + size(*a) + size(*b),
        TypeV::Tuple(es) => 1 + size_seq(es),
        TypeV::Record(fs) => 1 + size_fields(fs),
    }
}

pub open spec fn size_seq(s: Seq<TypeV>) -> nat
    decreases s,
{
    if s.len() == 0 {
        0
    } else {
        size_seq(s.drop_last()) + size(s.last())
    }
}

pub open spec fn size_fields(s: Seq<(Seq<char>, TypeV)>) -> nat
    decreases s,
{
    if s.len() == 0 {
        0
    } else {
        size_fields(s.drop_last()) + size(s.last().1)
    }
}

// ========== Substitution ==========

/// One-step (simultaneous) substitution: every variable in the domain of `m`
/// is replaced by its image, once.
pub open spec fn sapply(m: Map<u64, TypeV>, t: TypeV) -> TypeV
    decreases t,
{
    match t {
        TypeV::Var(v) => if m.dom().contains(v) { m[v] } else { t },
        TypeV::Con(n, args) => TypeV::Con(n, sapply_seq(m, args)),
        TypeV::Arrow(a, b) => TypeV::Arrow(Box::new(sapply(m, *a)), Box::new(sapply(m, *b))),
        TypeV::Tuple(es) => TypeV::Tuple(sapply_seq(m, es)),
        TypeV::Record(fs) => TypeV::Record(sapply_fields(m, fs)),
    }
}

pub open spec fn sapply_seq(m: Map<u64, TypeV>, s: Seq<TypeV>) -> Seq<TypeV>
    decreases s,
{
    if s.len() == 0 {
        Seq::empty()
    } else {
        sapply_seq(m, s.drop_last()).push(sapply(m, s.last()))
    }
}

pub open spec fn sapply_fields(m: Map<u64, TypeV>, s: Seq<(Seq<char>, TypeV)>) -> Seq<(Seq<char>, TypeV)>
    decreases s,
{
    if s.len() == 0 {
        Seq::empty()
    } else {
        sapply_fields(m, s.drop_last()).push((s.last().0, sapply(m, s.last().1)))
    }
}

/// The rank of a type under a ranking of the substitution's domain: one more than
/// the largest rank of a domain variable in it (0 if none occurs).
pub open spec fn rk(m: Map<u64, TypeV>, r: spec_fn(u64) -> nat, t: TypeV) -> nat
    decreases t,
{
    match t {
        TypeV::Var(v) => if m.dom().contains(v) { r(v) + 1 } else { 0 },
        TypeV::Con(_, args) => rk_seq(m, r, args),
        TypeV::Arrow(a, b) => nmax(rk(m, r, *a), rk(m, r, *b)),
        TypeV::Tuple(es) => rk_seq(m, r, es),
        TypeV::Record(fs) => rk_fields(m, r, fs),
    }
}

pub open spec fn rk_seq(m: Map<u64, TypeV>, r: spec_fn(u64) -> nat, s: Seq<TypeV>) -> nat
    decreases s,
{
    if s.len() == 0 {
        0
    } else {
        nmax(rk_seq(m, r, s.drop_last()), rk(m, r, s.last()))
    }
}

pub open spec fn rk_fields(m: Map<u64, TypeV>, r: spec_fn(u64) -> nat, s: Seq<(Seq<char>, TypeV)>) -> nat
    decreases s,
{
    if s.len() == 0 {
        0
    } else {
        nmax(rk_fields(m, r, s.drop_last()), rk(m, r, s.last().1))
    }
}

pub open spec fn nmax(a: nat, b: nat) -> nat {
    if a < b { b } else { a }
}

/// `r` ranks the substitution: every image mentions only domain variables of lower rank.
pub open spec fn ranked(m: Map<u64, TypeV>, r: spec_fn(u64) -> nat) -> bool {
    forall|v: u64| #[trigger] m.dom().contains(v) ==> rk(m, r, m[v]) <= r(v)
}

/// Repeatedly applying the substitution terminates: no variable depends on itself.
pub open spec fn acyclic(m: Map<u64, TypeV>) -> bool {
    exists|r: spec_fn(u64) -> nat| ranked(m, r)
}

/// A ranking of an acyclic substitution.
pub open spec fn the_rank(m: Map<u64, TypeV>) -> spec_fn(u64) -> nat {
    choose|r: spec_fn(u64) -> nat| ranked(m, r)
}

/// Exhaustive substitution: a variable in the domain is replaced by its image, and the
/// image is substituted again, until no domain variable remains.
pub open spec fn dapply(m: Map<u64, TypeV>, t: TypeV) -> TypeV
    decreases rk(m, the_rank(m), t), t,
{
    match t {
        TypeV::Var(v) => if m.dom().contains(v) {
            if ranked(m, the_rank(m)) {
                dapply(m, m[v])
            } else {
                t
            }
        } else {
            t
        },
        TypeV::Con(n, args) => TypeV::Con(n, dapply_seq(m, args)),
        TypeV::Arrow(a, b) => TypeV::Arrow(Box::new(dapply(m, *a)), Box::new(dapply(m, *b))),
        TypeV::Tuple(es) => TypeV::Tuple(dapply_seq(m, es)),
        TypeV::Record(fs) => TypeV::Record(dapply_fields(m, fs)),
    }
}

pub open spec fn dapply_seq(m: Map<u64, TypeV>, s: Seq<TypeV>) -> Seq<TypeV>
    decreases rk_seq(m, the_rank(m), s), s,
{
    if s.len() == 0 {
        Seq::empty()
    } else {
        dapply_seq(m, s.drop_last()).push(dapply(m, s.last()))
    }
}

pub open spec fn dapply_fields(m: Map<u64, TypeV>, s: Seq<(Seq<char>, TypeV)>) -> Seq<(Seq<char>, TypeV)>
    decreases rk_fields(m, the_rank(m), s), s,
{
    if s.len() == 0 {
        Seq::empty()
    } else {
        dapply_fields(m, s.drop_last()).push((s.last().0, dapply(m, s.last().1)))
    }
}

} // verus!

verus! {

// ========== Pointwise facts about the sequence functions ==========

pub proof fn lemma_fv_seq(s: Seq<TypeV>)
    ensures
        forall|x: u64| fv_seq(s).contains(x) <==> exists|i: int| 0 <= i < s.len() && #[trigger] fv(s[i]).contains(x),
    decreases s.len(),
{
    if s.len() > 0 {
        let d = s.drop_last();
        lemma_fv_seq(d);
        assert(fv_seq(s) == fv_seq(d).union(fv(s.last())));
        assert forall|x: u64| fv_seq(s).contains(x) <==> exists|i: int| 0 <= i < s.len() && #[trigger] fv(s[i]).contains(x) by {
            if fv_seq(s).contains(x) {
                if fv(s.last()).contains(x) {
                    assert(fv(s[s.len() - 1]).contains(x));
                } else {
                    assert(fv_seq(d).contains(x));
                    let i = choose|i: int| 0 <= i < d.len() && #[trigger] fv(d[i]).contains(x);
                    assert(d[i] == s[i]);
                    assert(fv(s[i]).contains(x));
                }
            }
            if exists|i: int| 0 <= i < s.len() && #[trigger] fv(s[i]).contains(x) {
                let i = choose|i: int| 0 <= i < s.len() && #[trigger] fv(s[i]).contains(x);
                if i < s.len() - 1 {
                    assert(d[i] == s[i]);
                    assert(fv(d[i]).contains(x));
                    assert(fv_seq(d).contains(x));
                } else {
                    assert(s[i] == s.last());
                }
            }
        }
    }
}

pub proof fn lemma_fv_fields(s: Seq<(Seq<char>, TypeV)>)
    ensures
        forall|x: u64| fv_fields(s).contains(x) <==> exists|i: int| 0 <= i < s.len() && #[trigger] fv(s[i].1).contains(x),
    decreases s.len(),
{
    if s.len() > 0 {
        let d = s.drop_last();
        lemma_fv_fields(d);
        assert(fv_fields(s) == fv_fields(d).union(fv(s.last().1)));
        assert forall|x: u64| fv_fields(s).contains(x) <==> exists|i: int| 0 <= i < s.len() && #[trigger] fv(s[i].1).contains(x) by {
            if fv_fields(s).contains(x) {
                if fv(s.last().1).contains(x) {
                    assert(fv(s[s.len() - 1].1).contains(x));
                } else {
                    assert(fv_fields(d).contains(x));
                    let i = choose|i: int| 0 <= i < d.len() && #[trigger] fv(d[i].1).contains(x);
                    assert(d[i] == s[i]);
                    assert(fv(s[i].1).contains(x));
                }
            }
            if exists|i: int| 0 <= i < s.len() && #[trigger] fv(s[i].1).contains(x) {
                let i = choose|i: int| 0 <= i < s.len() && #[trigger] fv(s[i].1).contains(x);
                if i < s.len() - 1 {
                    assert(d[i] == s[i]);
                    assert(fv(d[i].1).contains(x));
                    assert(fv_fields(d).contains(x));
                } else {
                    assert(s[i] == s.last());
                }
            }
        }
    }
}

pub proof fn lemma_fv_finite(t: TypeV)
    ensures
        fv(t).finite(),
    decreases t,
{
    match t {
        TypeV::Var(_) => {},
        TypeV::Con(_, args) => lemma_fv_seq_finite(args),
        TypeV::Arrow(a, b) => {
            lemma_fv_finite(*a);
            lemma_fv_finite(*b);
        },
        TypeV::Tuple(es) => lemma_fv_seq_finite(es),
        TypeV::Record(fs) => lemma_fv_fields_finite(fs),
    }
}

pub proof fn lemma_fv_seq_finite(s: Seq<TypeV>)
    ensures
        fv_seq(s).finite(),
    decreases s,
{
    if s.len() > 0 {
        lemma_fv_seq_finite(s.drop_last());
        lemma_fv_finite(s.last());
    }
}

pub proof fn lemma_fv_fields_finite(s: Seq<(Seq<char>, TypeV)>)
    ensures
        fv_fields(s).finite(),
    decreases s,
{
    if s.len() > 0 {
        lemma_fv_fields_finite(s.drop_last());
        lemma_fv_finite(s.last().1);
    }
}

} // verus!

verus! {

pub proof fn lemma_sapply_seq(m: Map<u64, TypeV>, s: Seq<TypeV>)
    ensures
        sapply_seq(m, s).len() == s.len(),
        forall|i: int| 0 <= i < s.len() ==> #[trigger] sapply_seq(m, s)[i] == sapply(m, s[i]),
    decreases s.len(),
{
    if s.len() > 0 {
        lemma_sapply_seq(m, s.drop_last());
    }
}

pub proof fn lemma_sapply_fields(m: Map<u64, TypeV>, s: Seq<(Seq<char>, TypeV)>)
    ensures
        sapply_fields(m, s).len() == s.len(),
        forall|i: int| 0 <= i < s.len() ==> #[trigger] sapply_fields(m, s)[i] == (s[i].0, sapply(m, s[i].1)),
    decreases s.len(),
{
    if s.len() > 0 {
        lemma_sapply_fields(m, s.drop_last());
    }
}

pub proof fn lemma_dapply_seq(m: Map<u64, TypeV>, s: Seq<TypeV>)
    ensures
        dapply_seq(m, s).len() == s.len(),
        forall|i: int| 0 <= i < s.len() ==> #[trigger] dapply_seq(m, s)[i] == dapply(m, s[i]),
    decreases s.len(),
{
    if s.len() > 0 {
        lemma_dapply_seq(m, s.drop_last());
    }
}

pub proof fn lemma_dapply_fields(m: Map<u64, TypeV>, s: Seq<(Seq<char>, TypeV)>)
    ensures
        dapply_fields(m, s).len() == s.len(),
        forall|i: int| 0 <= i < s.len() ==> #[trigger] dapply_fields(m, s)[i] == (s[i].0, dapply(m, s[i].1)),
    decreases s.len(),
{
    if s.len() > 0 {
        lemma_dapply_fields(m, s.drop_last());
    }
}

pub proof fn lemma_rk_seq(m: Map<u64, TypeV>, r: spec_fn(u64) -> nat, s: Seq<TypeV>)
    ensures
        forall|i: int| 0 <= i < s.len() ==> #[trigger] rk(m, r, s[i]) <= rk_seq(m, r, s),
    decreases s.len(),
{
    if s.len() > 0 {
        lemma_rk_seq(m, r, s.drop_last());
        assert forall|i: int| 0 <= i < s.len() implies #[trigger] rk(m, r, s[i]) <= rk_seq(m, r, s) by {
            if i < s.len() - 1 {
                assert(s.drop_last()[i] == s[i]);
            }
        }
    }
}

pub proof fn lemma_rk_fields(m: Map<u64, TypeV>, r: spec_fn(u64) -> nat, s: Seq<(Seq<char>, TypeV)>)
    ensures
        forall|i: int| 0 <= i < s.len() ==> #[trigger] rk(m, r, s[i].1) <= rk_fields(m, r, s),
    decreases s.len(),
{
    if s.len() > 0 {
        lemma_rk_fields(m, r, s.drop_last());
        assert forall|i: int| 0 <= i < s.len() implies #[trigger] rk(m, r, s[i].1) <= rk_fields(m, r, s) by {
            if i < s.len() - 1 {
                assert(s.drop_last()[i] == s[i]);
            }
        }
    }
}

pub proof fn lemma_size_seq(s: Seq<TypeV>)
    ensures
        forall|i: int| 0 <= i < s.len() ==> #[trigger] size(s[i]) <= size_seq(s),
    decreases s.len(),
{
    if s.len() > 0 {
        lemma_size_seq(s.drop_last());
        assert forall|i: int| 0 <= i < s.len() implies #[trigger] size(s[i]) <= size_seq(s) by {
            if i < s.len() - 1 {
                assert(s.drop_last()[i] == s[i]);
            }
        }
    }
}

pub proof fn lemma_size_fields(s: Seq<(Seq<char>, TypeV)>)
    ensures
        forall|i: int| 0 <= i < s.len() ==> #[trigger] size(s[i].1) <= size_fields(s),
    decreases s.len(),
{
    if s.len() > 0 {
        lemma_size_fields(s.drop_last());
        assert forall|i: int| 0 <= i < s.len() implies #[trigger] size(s[i].1) <= size_fields(s) by {
            if i < s.len() - 1 {
                assert(s.drop_last()[i] == s[i]);
            }
        }
    }
}

} // verus!

verus! {

// ========== Facts about exhaustive substitution ==========

/// A substitution leaves alone a type that mentions none of its variables.
pub proof fn lemma_dapply_noop(m: Map<u64, TypeV>, t: TypeV)
    requires
        fv(t).disjoint(m.dom()),
    ensures
        dapply(m, t) == t,
    decreases t,
{
    match t {
        TypeV::Var(v) => {
            assert(fv(t).contains(v));
        },
        TypeV::Con(n, args) => {
            lemma_dapply_noop_seq(m, args);
        },
        TypeV::Arrow(a, b) => {
            lemma_dapply_noop(m, *a);
            lemma_dapply_noop(m, *b);
        },
        TypeV::Tuple(es) => {
            lemma_dapply_noop_seq(m, es);
        },
        TypeV::Record(fs) => {
            lemma_dapply_noop_fields(m, fs);
        },
    }
}

pub proof fn lemma_dapply_noop_seq(m: Map<u64, TypeV>, s: Seq<TypeV>)
    requires
        fv_seq(s).disjoint(m.dom()),
    ensures
        dapply_seq(m, s) == s,
    decreases s,
{
    if s.len() > 0 {
        lemma_dapply_noop_seq(m, s.drop_last());
        lemma_dapply_noop(m, s.last());
        assert(dapply_seq(m, s) =~= s);
    }
}

pub proof fn lemma_dapply_noop_fields(m: Map<u64, TypeV>, s: Seq<(Seq<char>, TypeV)>)
    requires
        fv_fields(s).disjoint(m.dom()),
    ensures
        dapply_fields(m, s) == s,
    decreases s,
{
    if s.len() > 0 {
        lemma_dapply_noop_fields(m, s.drop_last());
        lemma_dapply_noop(m, s.last().1);
        assert(dapply_fields(m, s) =~= s);
    }
}

/// Shrinking the domain of a substitution does not raise ranks.
pub proof fn lemma_rk_mono(m: Map<u64, TypeV>, m2: Map<u64, TypeV>, r: spec_fn(u64) -> nat, t: TypeV)
    requires
        m2.dom().subset_of(m.dom()),
    ensures
        rk(m2, r, t) <= rk(m, r, t),
    decreases t,
{
    match t {
        TypeV::Var(v) => {},
        TypeV::Con(_, args) => lemma_rk_mono_seq(m, m2, r, args),
        TypeV::Arrow(a, b) => {
            lemma_rk_mono(m, m2, r, *a);
            lemma_rk_mono(m, m2, r, *b);
        },
        TypeV::Tuple(es) => lemma_rk_mono_seq(m, m2, r, es),
        TypeV::Record(fs) => lemma_rk_mono_fields(m, m2, r, fs),
    }
}

pub proof fn lemma_rk_mono_seq(m: Map<u64, TypeV>, m2: Map<u64, TypeV>, r: spec_fn(u64) -> nat, s: Seq<TypeV>)
    requires
        m2.dom().subset_of(m.dom()),
    ensures
        rk_seq(m2, r, s) <= rk_seq(m, r, s),
    decreases s,
{
    if s.len() > 0 {
        lemma_rk_mono_seq(m, m2, r, s.drop_last());
        lemma_rk_mono(m, m2, r, s.last());
    }
}

pub proof fn lemma_rk_mono_fields(m: Map<u64, TypeV>, m2: Map<u64, TypeV>, r: spec_fn(u64) -> nat, s: Seq<(Seq<char>, TypeV)>)
    requires
        m2.dom().subset_of(m.dom()),
    ensures
        rk_fields(m2, r, s) <= rk_fields(m, r, s),
    decreases s,
{
    if s.len() > 0 {
        lemma_rk_mono_fields(m, m2, r, s.drop_last());
        lemma_rk_mono(m, m2, r, s.last().1);
    }
}

/// Dropping mappings from an acyclic substitution keeps it acyclic.
pub proof fn lemma_acyclic_remove_keys(m: Map<u64, TypeV>, keys: Set<u64>)
    requires
        acyclic(m),
    ensures
        acyclic(m.remove_keys(keys)),
{
    let r = choose|r: spec_fn(u64) -> nat| ranked(m, r);
    let m2 = m.remove_keys(keys);
    assert forall|v: u64| #[trigger] m2.dom().contains(v) implies rk(m2, r, m2[v]) <= r(v) by {
        lemma_rk_mono(m, m2, r, m[v]);
    }
    assert(ranked(m2, r));
}

/// The rank of a type that mentions no variable of the domain is zero.
pub proof fn lemma_rk_zero(m: Map<u64, TypeV>, r: spec_fn(u64) -> nat, t: TypeV)
    requires
        fv(t).disjoint(m.dom()),
    ensures
        rk(m, r, t) == 0,
    decreases t,
{
    match t {
        TypeV::Var(v) => {
            assert(fv(t).contains(v));
        },
        TypeV::Con(_, args) => lemma_rk_zero_seq(m, r, args),
        TypeV::Arrow(a, b) => {
            lemma_rk_zero(m, r, *a);
            lemma_rk_zero(m, r, *b);
        },
        TypeV::Tuple(es) => lemma_rk_zero_seq(m, r, es),
        TypeV::Record(fs) => lemma_rk_zero_fields(m, r, fs),
    }
}

pub proof fn lemma_rk_zero_seq(m: Map<u64, TypeV>, r: spec_fn(u64) -> nat, s: Seq<TypeV>)
    requires
        fv_seq(s).disjoint(m.dom()),
    ensures
        rk_seq(m, r, s) == 0,
    decreases s,
{
    if s.len() > 0 {
        lemma_rk_zero_seq(m, r, s.drop_last());
        lemma_rk_zero(m, r, s.last());
    }
}

pub proof fn lemma_rk_zero_fields(m: Map<u64, TypeV>, r: spec_fn(u64) -> nat, s: Seq<(Seq<char>, TypeV)>)
    requires
        fv_fields(s).disjoint(m.dom()),
    ensures
        rk_fields(m, r, s) == 0,
    decreases s,
{
    if s.len() > 0 {
        lemma_rk_zero_fields(m, r, s.drop_last());
        lemma_rk_zero(m, r, s.last().1);
    }
}

/// A substitution is idempotent when no image mentions a variable of its domain.
pub open spec fn idempotent(m: Map<u64, TypeV>) -> bool {
    forall|v: u64| #[trigger] m.dom().contains(v) ==> fv(m[v]).disjoint(m.dom())
}

/// An idempotent substitution is acyclic.
pub proof fn lemma_idempotent_acyclic(m: Map<u64, TypeV>)
    requires
        idempotent(m),
    ensures
        acyclic(m),
{
    let r = |v: u64| 0nat;
    assert forall|v: u64| #[trigger] m.dom().contains(v) implies rk(m, r, m[v]) <= r(v) by {
        lemma_rk_zero(m, r, m[v]);
    }
    assert(ranked(m, r));
}

} // verus!

verus! {

// ========== One-step substitution: free variables and composition ==========

/// The variables mentioned by the images of a substitution.
pub open spec fn range_vars(m: Map<u64, TypeV>) -> Set<u64> {
    Set::new(|x: u64| exists|v: u64| #[trigger] m.dom().contains(v) && fv(m[v]).contains(x))
}

/// What a variable of the result of `sapply` comes from: a variable of `t` outside the
/// domain, or a variable of the image of a domain variable of `t`.
pub open spec fn sapply_fv_pred(m: Map<u64, TypeV>, t_fv: Set<u64>, x: u64) -> bool {
    (t_fv.contains(x) && !m.dom().contains(x)) || exists|v: u64| t_fv.contains(v) && #[trigger] m.dom().contains(v) && fv(m[v]).contains(x)
}

pub proof fn lemma_pred_union(m: Map<u64, TypeV>, a: Set<u64>, b: Set<u64>, x: u64)
    ensures
        sapply_fv_pred(m, a.union(b), x) <==> (sapply_fv_pred(m, a, x) || sapply_fv_pred(m, b, x)),
{
    if sapply_fv_pred(m, a.union(b), x) && !(a.union(b).contains(x) && !m.dom().contains(x)) {
        let v = choose|v: u64| a.union(b).contains(v) && #[trigger] m.dom().contains(v) && fv(m[v]).contains(x);
        if a.contains(v) {
            assert(sapply_fv_pred(m, a, x));
        } else {
            assert(sapply_fv_pred(m, b, x));
        }
    }
    if sapply_fv_pred(m, a, x) && !(a.contains(x) && !m.dom().contains(x)) {
        let v = choose|v: u64| a.contains(v) && #[trigger] m.dom().contains(v) && fv(m[v]).contains(x);
        assert(a.union(b).contains(v));
    }
    if sapply_fv_pred(m, b, x) && !(b.contains(x) && !m.dom().contains(x)) {
        let v = choose|v: u64| b.contains(v) && #[trigger] m.dom().contains(v) && fv(m[v]).contains(x);
        assert(a.union(b).contains(v));
    }
}

pub proof fn lemma_sapply_fv(m: Map<u64, TypeV>, t: TypeV)
    ensures
        forall|x: u64| #[trigger] fv(sapply(m, t)).contains(x) <==> sapply_fv_pred(m, fv(t), x),
    decreases t,
{
    match t {
        TypeV::Var(v) => {
            assert forall|x: u64| #[trigger] fv(sapply(m, t)).contains(x) <==> sapply_fv_pred(m, fv(t), x) by {
                assert(fv(t) == set![v]);
                if m.dom().contains(v) {
                    assert(sapply(m, t) == m[v]);
                    if fv(m[v]).contains(x) {
                        assert(fv(t).contains(v) && m.dom().contains(v) && fv(m[v]).contains(x));
                    }
                    if sapply_fv_pred(m, fv(t), x) {
                        let w = choose|w: u64| fv(t).contains(w) && #[trigger] m.dom().contains(w) && fv(m[w]).contains(x);
                        assert(w == v);
                    }
                } else {
                    assert(sapply(m, t) == t);
                }
            }
        },
        TypeV::Con(n, args) => {
            lemma_sapply_fv_seq(m, args);
            assert(fv(sapply(m, t)) == fv_seq(sapply_seq(m, args)));
            assert(fv(t) == fv_seq(args));
        },
        TypeV::Arrow(a, b) => {
            lemma_sapply_fv(m, *a);
            lemma_sapply_fv(m, *b);
            assert forall|x: u64| #[trigger] fv(sapply(m, t)).contains(x) <==> sapply_fv_pred(m, fv(t), x) by {
                lemma_pred_union(m, fv(*a), fv(*b), x);
                assert(fv(sapply(m, t)) == fv(sapply(m, *a)).union(fv(sapply(m, *b))));
            }
        },
        TypeV::Tuple(es) => {
            lemma_sapply_fv_seq(m, es);
            assert(fv(sapply(m, t)) == fv_seq(sapply_seq(m, es)));
            assert(fv(t) == fv_seq(es));
        },
        TypeV::Record(fs) => {
            lemma_sapply_fv_fields(m, fs);
            assert(fv(sapply(m, t)) == fv_fields(sapply_fields(m, fs)));
            assert(fv(t) == fv_fields(fs));
        },
    }
}

pub proof fn lemma_sapply_fv_seq(m: Map<u64, TypeV>, s: Seq<TypeV>)
    ensures
        forall|x: u64| #[trigger] fv_seq(sapply_seq(m, s)).contains(x) <==> sapply_fv_pred(m, fv_seq(s), x),
    decreases s,
{
    if s.len() > 0 {
        let d = s.drop_last();
        lemma_sapply_fv_seq(m, d);
        lemma_sapply_fv(m, s.last());
        let r = sapply_seq(m, s);
        assert(r.drop_last() =~= sapply_seq(m, d));
        assert(r.last() == sapply(m, s.last()));
        assert(fv_seq(r) == fv_seq(sapply_seq(m, d)).union(fv(sapply(m, s.last()))));
        assert forall|x: u64| #[trigger] fv_seq(sapply_seq(m, s)).contains(x) <==> sapply_fv_pred(m, fv_seq(s), x) by {
            lemma_pred_union(m, fv_seq(d), fv(s.last()), x);
        }
    } else {
        assert forall|x: u64| #[trigger] fv_seq(sapply_seq(m, s)).contains(x) <==> sapply_fv_pred(m, fv_seq(s), x) by {
            assert(fv_seq(s) == Set::<u64>::empty());
        }
    }
}

pub proof fn lemma_sapply_fv_fields(m: Map<u64, TypeV>, s: Seq<(Seq<char>, TypeV)>)
    ensures
        forall|x: u64| #[trigger] fv_fields(sapply_fields(m, s)).contains(x) <==> sapply_fv_pred(m, fv_fields(s), x),
    decreases s,
{
    if s.len() > 0 {
        let d = s.drop_last();
        lemma_sapply_fv_fields(m, d);
        lemma_sapply_fv(m, s.last().1);
        let r = sapply_fields(m, s);
        assert(r.drop_last() =~= sapply_fields(m, d));
        assert(r.last() == (s.last().0, sapply(m, s.last().1)));
        assert(fv_fields(r) == fv_fields(sapply_fields(m, d)).union(fv(sapply(m, s.last().1))));
        assert forall|x: u64| #[trigger] fv_fields(sapply_fields(m, s)).contains(x) <==> sapply_fv_pred(m, fv_fields(s), x) by {
            lemma_pred_union(m, fv_fields(d), fv(s.last().1), x);
        }
    } else {
        assert forall|x: u64| #[trigger] fv_fields(sapply_fields(m, s)).contains(x) <==> sapply_fv_pred(m, fv_fields(s), x) by {
            assert(fv_fields(s) == Set::<u64>::empty());
        }
    }
}

/// The one-step composition `m2 after m1`.
pub open spec fn scompose(m2: Map<u64, TypeV>, m1: Map<u64, TypeV>) -> Map<u64, TypeV> {
    Map::new(
        |v: u64| m1.dom().contains(v) || m2.dom().contains(v),
        |v: u64| if m1.dom().contains(v) { sapply(m2, m1[v]) } else { m2[v] },
    )
}

pub proof fn lemma_sapply_compose(m2: Map<u64, TypeV>, m1: Map<u64, TypeV>, t: TypeV)
    ensures
        sapply(m2, sapply(m1, t)) == sapply(scompose(m2, m1), t),
    decreases t,
{
    match t {
        TypeV::Var(v) => {},
        TypeV::Con(n, args) => lemma_sapply_compose_seq(m2, m1, args),
        TypeV::Arrow(a, b) => {
            lemma_sapply_compose(m2, m1, *a);
            lemma_sapply_compose(m2, m1, *b);
        },
        TypeV::Tuple(es) => lemma_sapply_compose_seq(m2, m1, es),
        TypeV::Record(fs) => lemma_sapply_compose_fields(m2, m1, fs),
    }
}

pub proof fn lemma_sapply_compose_seq(m2: Map<u64, TypeV>, m1: Map<u64, TypeV>, s: Seq<TypeV>)
    ensures
        sapply_seq(m2, sapply_seq(m1, s)) == sapply_seq(scompose(m2, m1), s),
    decreases s,
{
    if s.len() > 0 {
        lemma_sapply_compose_seq(m2, m1, s.drop_last());
        lemma_sapply_compose(m2, m1, s.last());
        let a = sapply_seq(m1, s);
        assert(a.drop_last() =~= sapply_seq(m1, s.drop_last()));
        assert(a.last() == sapply(m1, s.last()));
    }
}

pub proof fn lemma_sapply_compose_fields(m2: Map<u64, TypeV>, m1: Map<u64, TypeV>, s: Seq<(Seq<char>, TypeV)>)
    ensures
        sapply_fields(m2, sapply_fields(m1, s)) == sapply_fields(scompose(m2, m1), s),
    decreases s,
{
    if s.len() > 0 {
        lemma_sapply_compose_fields(m2, m1, s.drop_last());
        lemma_sapply_compose(m2, m1, s.last().1);
        let a = sapply_fields(m1, s);
        assert(a.drop_last() =~= sapply_fields(m1, s.drop_last()));
        assert(a.last() == (s.last().0, sapply(m1, s.last().1)));
    }
}

/// Under an idempotent substitution, exhaustive and one-step substitution agree.
pub proof fn lemma_dapply_idempotent(m: Map<u64, TypeV>, t: TypeV)
    requires
        idempotent(m),
    ensures
        dapply(m, t) == sapply(m, t),
    decreases t,
{
    lemma_idempotent_acyclic(m);
    match t {
        TypeV::Var(v) => {
            if m.dom().contains(v) {
                lemma_dapply_noop(m, m[v]);
            }
        },
        TypeV::Con(n, args) => lemma_dapply_idempotent_seq(m, args),
        TypeV::Arrow(a, b) => {
            lemma_dapply_idempotent(m, *a);
            lemma_dapply_idempotent(m, *b);
        },
        TypeV::Tuple(es) => lemma_dapply_idempotent_seq(m, es),
        TypeV::Record(fs) => lemma_dapply_idempotent_fields(m, fs),
    }
}

pub proof fn lemma_dapply_idempotent_seq(m: Map<u64, TypeV>, s: Seq<TypeV>)
    requires
        idempotent(m),
    ensures
        dapply_seq(m, s) == sapply_seq(m, s),
    decreases s,
{
    if s.len() > 0 {
        lemma_dapply_idempotent_seq(m, s.drop_last());
        lemma_dapply_idempotent(m, s.last());
    }
}

pub proof fn lemma_dapply_idempotent_fields(m: Map<u64, TypeV>, s: Seq<(Seq<char>, TypeV)>)
    requires
        idempotent(m),
    ensures
        dapply_fields(m, s) == sapply_fields(m, s),
    decreases s,
{
    if s.len() > 0 {
        lemma_dapply_idempotent_fields(m, s.drop_last());
        lemma_dapply_idempotent(m, s.last().1);
    }
}


// ========== Exhaustive substitution leaves no domain variable ==========

/// Under an acyclic substitution, what exhaustive substitution produces mentions none of
/// the substitution's variables.
pub proof fn lemma_dapply_clears(m: Map<u64, TypeV>, t: TypeV)
    requires
        acyclic(m),
    ensures
        fv(dapply(m, t)).disjoint(m.dom()),
    decreases rk(m, the_rank(m), t), t,
{
    assert(ranked(m, the_rank(m)));
    match t {
        TypeV::Var(v) => {
            if m.dom().contains(v) {
                assert(rk(m, the_rank(m), m[v]) <= the_rank(m)(v));
                lemma_dapply_clears(m, m[v]);
            } else {
                assert(fv(t) =~= set![v]);
            }
        },
        TypeV::Con(_, args) => {
            lemma_dapply_clears_seq(m, args);
        },
        TypeV::Arrow(a, b) => {
            lemma_dapply_clears(m, *a);
            lemma_dapply_clears(m, *b);
        },
        TypeV::Tuple(es) => {
            lemma_dapply_clears_seq(m, es);
        },
        TypeV::Record(fs) => {
            lemma_dapply_clears_fields(m, fs);
        },
    }
}

proof fn lemma_dapply_clears_seq(m: Map<u64, TypeV>, s: Seq<TypeV>)
    requires
        acyclic(m),
    ensures
        fv_seq(dapply_seq(m, s)).disjoint(m.dom()),
    decreases rk_seq(m, the_rank(m), s), s,
{
    if s.len() > 0 {
        lemma_dapply_clears_seq(m, s.drop_last());
        lemma_dapply_clears(m, s.last());
        let d = dapply_seq(m, s);
        assert(d.drop_last() =~= dapply_seq(m, s.drop_last()));
    }
}

proof fn lemma_dapply_clears_fields(m: Map<u64, TypeV>, s: Seq<(Seq<char>, TypeV)>)
    requires
        acyclic(m),
    ensures
        fv_fields(dapply_fields(m, s)).disjoint(m.dom()),
    decreases rk_fields(m, the_rank(m), s), s,
{
    if s.len() > 0 {
        lemma_dapply_clears_fields(m, s.drop_last());
        lemma_dapply_clears(m, s.last().1);
        let d = dapply_fields(m, s);
        assert(d.drop_last() =~= dapply_fields(m, s.drop_last()));
    }
}

} // verus!
