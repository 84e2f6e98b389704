//! Robinson unification: finding a substitution that makes two types equal.

use vstd::prelude::*;
use super::error::TypeError;
use super::model::{
    TypeV, dapply, fv, fv_fields, fv_seq, idempotent, lemma_dapply_idempotent, lemma_dapply_noop,
    lemma_fv_finite, lemma_fv_fields_finite, lemma_fv_seq, lemma_fv_seq_finite, lemma_sapply_fv,
    lemma_sapply_fields, lemma_sapply_seq, lemma_size_seq, range_vars, sapply, sapply_fv_pred, size, size_fields,
    size_seq,
};
use super::order::{
    canon, canon_fields, canon_seq, field_names, field_types, insert_field, lemma_canon_fields_map, lemma_canon_seq,
    lemma_field_types, lemma_sapply_fields_map, lemma_sort_fields, lemma_sort_map, lemma_teq_sapply, map_types,
    name_lt, sort_fields, teq,
};
use super::repr::{Type, TypeVar, lemma_tview_fields, lemma_tview_seq, lemma_view_unfold, tview_fields, tview_seq};
use super::subst::{Substitution, compose_spec, law_idempotent_apply, lemma_compose_idempotent};

verus! {

/// Compare two names in the order of `String`'s comparison.
fn name_lt_exec(a: &String, b: &String) -> (r: bool)
    ensures
        r == name_lt(a@, b@),
{
    let sa = a.as_str();
    let sb = b.as_str();
    let la = sa.unicode_len();
    let lb = sb.unicode_len();
    let mut i: usize = 0;
    assert(a@.skip(0) =~= a@);
    assert(b@.skip(0) =~= b@);
    while i < la && i < lb
        invariant
            la == a@.len(),
            lb == b@.len(),
            sa@ == a@,
            sb@ == b@,
            i <= la,
            i <= lb,
            name_lt(a@, b@) == name_lt(a@.skip(i as int), b@.skip(i as int)),
        decreases la - i,
    {
        let ca = sa.get_char(i);
        let cb = sb.get_char(i);
        proof {
            assert(a@.skip(i as int)[0] == ca);
            assert(b@.skip(i as int)[0] == cb);
            assert(a@.skip(i as int).drop_first() =~= a@.skip(i + 1));
            assert(b@.skip(i as int).drop_first() =~= b@.skip(i + 1));
        }
        if ca != cb {
            return (ca as u32) < (cb as u32);
        }
        i += 1;
    }
    proof {
        assert(a@.skip(i as int).len() == la - i);
        assert(b@.skip(i as int).len() == lb - i);
    }
    i < lb
}

pub proof fn lemma_insert_at(s: Seq<(Seq<char>, TypeV)>, x: (Seq<char>, TypeV), j: int)
    requires
        0 <= j <= s.len(),
        forall|k: int| j <= k < s.len() ==> name_lt(x.0, #[trigger] s[k].0),
        j == 0 || !name_lt(x.0, s[j - 1].0),
    ensures
        insert_field(s, x) == s.insert(j, x),
    decreases s.len(),
{
    if s.len() == 0 {
        assert(s.insert(j, x) =~= seq![x]);
    } else if j == s.len() {
        assert(!name_lt(x.0, s.last().0));
        assert(s.insert(j, x) =~= s.push(x));
    } else {
        assert(name_lt(x.0, s[s.len() - 1].0));
        let d = s.drop_last();
        assert forall|k: int| j <= k < d.len() implies name_lt(x.0, #[trigger] d[k].0) by {
            assert(d[k] == s[k]);
        }
        if j > 0 {
            assert(d[j - 1] == s[j - 1]);
        }
        lemma_insert_at(d, x, j);
        assert(d.insert(j, x).push(s.last()) =~= s.insert(j, x));
    }
}

/// The fields stably sorted by name.
fn sort_by_name(fields: &Vec<(String, Type)>) -> (r: Vec<(String, Type)>)
    ensures
        tview_fields(r@) == sort_fields(tview_fields(fields@)),
{
    proof { lemma_tview_fields(fields@); }
    let ghost src = tview_fields(fields@);
    let mut sorted: Vec<(String, Type)> = Vec::new();
    let mut i: usize = 0;
    while i < fields.len()
        invariant
            i <= fields@.len(),
            src == tview_fields(fields@),
            src.len() == fields@.len(),
            forall|j: int| 0 <= j < fields@.len() ==> #[trigger] src[j] == (fields@[j].0@, fields@[j].1@),
            tview_fields(sorted@) == sort_fields(src.take(i as int)),
        decreases fields.len() - i,
    {
        let name = fields[i].0.clone();
        let ty = fields[i].1.clone();
        let ghost x = (name@, ty@);
        proof { lemma_tview_fields(sorted@); }
        let ghost sv = tview_fields(sorted@);
        let mut j: usize = sorted.len();
        while j > 0 && name_lt_exec(&name, &sorted[j - 1].0)
            invariant
                j <= sorted@.len(),
                sv == tview_fields(sorted@),
                sv.len() == sorted@.len(),
                forall|k: int| 0 <= k < sorted@.len() ==> #[trigger] sv[k] == (sorted@[k].0@, sorted@[k].1@),
                forall|k: int| j <= k < sv.len() ==> name_lt(x.0, #[trigger] sv[k].0),
                x.0 == name@,
            decreases j,
        {
            j -= 1;
        }
        proof {
            lemma_insert_at(sv, x, j as int);
        }
        sorted.insert(j, (name, ty));
        proof {
            lemma_tview_fields(sorted@);
            assert(tview_fields(sorted@) =~= sv.insert(j as int, x));
            assert(src.take(i + 1).drop_last() =~= src.take(i as int));
            assert(src.take(i + 1).last() == x);
        }
        i += 1;
    }
    proof {
        assert(src.take(i as int) =~= src);
    }
    sorted
}


// ========== What unification produces ==========

/// `s` is a solution found for `t1 ≈ t2`: an idempotent substitution under which the two
/// types become the same (up to the order of record fields), mentioning only their variables.
pub open spec fn solves(s: Map<u64, TypeV>, t1: TypeV, t2: TypeV) -> bool {
    &&& idempotent(s)
    &&& teq(dapply(s, t1), dapply(s, t2))
    &&& s.dom().union(range_vars(s)).subset_of(fv(t1).union(fv(t2)))
}

/// `s` solves the first `n` pairs of two type lists, mentioning only their variables.
pub open spec fn solves_upto(s: Map<u64, TypeV>, ts1: Seq<TypeV>, ts2: Seq<TypeV>, n: int) -> bool {
    &&& idempotent(s)
    &&& forall|j: int| 0 <= j < n ==> #[trigger] teq(dapply(s, ts1[j]), dapply(s, ts2[j]))
    &&& s.dom().union(range_vars(s)).subset_of(fv_seq(ts1).union(fv_seq(ts2)))
}

/// The two types have different head constructors (neither is a variable).
pub open spec fn heads_clash(t1: TypeV, t2: TypeV) -> bool {
    match (t1, t2) {
        (TypeV::Con(n1, a1), TypeV::Con(n2, a2)) => n1 != n2 || a1.len() != a2.len(),
        (TypeV::Arrow(_, _), TypeV::Arrow(_, _)) => false,
        (TypeV::Tuple(e1), TypeV::Tuple(e2)) => e1.len() != e2.len(),
        (TypeV::Record(f1), TypeV::Record(f2)) =>
            f1.len() != f2.len() || field_names(sort_fields(f1)) != field_names(sort_fields(f2)),
        (TypeV::Var(_), _) => false,
        (_, TypeV::Var(_)) => false,
        _ => true,
    }
}

// ========== Lemmas ==========

proof fn lemma_single_solves(v: u64, t: TypeV)
    requires
        !fv(t).contains(v),
    ensures
        solves(Map::<u64, TypeV>::empty().insert(v, t), TypeV::Var(v), t),
        solves(Map::<u64, TypeV>::empty().insert(v, t), t, TypeV::Var(v)),
{
    let m = Map::<u64, TypeV>::empty().insert(v, t);
    assert(m.dom() =~= set![v]);
    assert(idempotent(m));
    lemma_dapply_idempotent(m, TypeV::Var(v));
    lemma_dapply_noop(m, t);
    assert(range_vars(m) =~= fv(t)) by {
        assert forall|x: u64| range_vars(m).contains(x) <==> fv(t).contains(x) by {
            if fv(t).contains(x) {
                assert(m.dom().contains(v) && fv(m[v]).contains(x));
            }
        }
    }
    assert(fv(TypeV::Var(v)) =~= set![v]);
}

proof fn lemma_card_shrink(f: Set<u64>, g: Set<u64>, d: Set<u64>)
    requires
        f.finite(),
        g.subset_of(f),
        d.subset_of(f),
        g.disjoint(d),
    ensures
        g.len() <= f.len(),
        d.len() > 0 ==> g.len() < f.len(),
{
    vstd::set_lib::lemma_len_subset(g, f);
    vstd::set_lib::lemma_len_subset(d, f);
    if d.len() > 0 {
        let x = d.choose();
        assert(d.contains(x)) by {
            if !d.contains(x) {
                assert(d =~= Set::<u64>::empty());
            }
        }
        assert(g.subset_of(f.remove(x)));
        vstd::set_lib::lemma_len_subset(g, f.remove(x));
    }
}

/// After applying a solution found so far, the variables left are among the
/// original ones, minus those the solution replaced.
proof fn lemma_after(s: Map<u64, TypeV>, f: Set<u64>, x: TypeV)
    requires
        idempotent(s),
        s.dom().union(range_vars(s)).subset_of(f),
        fv(x).subset_of(f),
    ensures
        fv(sapply(s, x)).subset_of(f),
        fv(sapply(s, x)).disjoint(s.dom()),
        dapply(s, x) == sapply(s, x),
        s.dom().len() == 0 && s.dom().finite() ==> sapply(s, x) == x,
{
    lemma_sapply_fv(s, x);
    law_idempotent_apply(s, x);
    assert forall|y: u64| #[trigger] fv(sapply(s, x)).contains(y) implies f.contains(y) by {
        assert(sapply_fv_pred(s, fv(x), y));
        if !(fv(x).contains(y) && !s.dom().contains(y)) {
            let w = choose|w: u64| fv(x).contains(w) && #[trigger] s.dom().contains(w) && fv(s[w]).contains(y);
            assert(range_vars(s).contains(y));
        }
    }
    if s.dom().len() == 0 && s.dom().finite() {
        assert(s.dom() =~= Set::<u64>::empty()) by {
            if exists|v: u64| s.dom().contains(v) {
                let v = choose|v: u64| s.dom().contains(v);
                assert(s.dom().remove(v).len() < s.dom().len());
            }
        }
        lemma_dapply_noop(s, x);
    }
}

proof fn lemma_arrow_solves(
    s1: Map<u64, TypeV>,
    s2: Map<u64, TypeV>,
    a1: TypeV,
    r1: TypeV,
    a2: TypeV,
    r2: TypeV,
)
    requires
        solves(s1, a1, a2),
        solves(s2, sapply(s1, r1), sapply(s1, r2)),
    ensures
        solves(
            compose_spec(s2, s1),
            TypeV::Arrow(Box::new(a1), Box::new(r1)),
            TypeV::Arrow(Box::new(a2), Box::new(r2)),
        ),
{
    let t1 = TypeV::Arrow(Box::new(a1), Box::new(r1));
    let t2 = TypeV::Arrow(Box::new(a2), Box::new(r2));
    let f = fv(t1).union(fv(t2));
    law_idempotent_apply(s1, r1);
    law_idempotent_apply(s1, r2);
    law_idempotent_apply(s1, a1);
    law_idempotent_apply(s1, a2);
    let r1p = sapply(s1, r1);
    let r2p = sapply(s1, r2);
    assert forall|y: u64| #[trigger] range_vars(s2).contains(y) implies !s1.dom().contains(y) by {
        assert(s2.dom().union(range_vars(s2)).contains(y));
        assert(fv(r1p).union(fv(r2p)).contains(y));
    }
    assert(range_vars(s2).disjoint(s1.dom()));
    lemma_compose_idempotent(s2, s1);
    let c = compose_spec(s2, s1);
    // the composition applied to each side
    assert(dapply(c, t1) == sapply(s2, sapply(s1, t1)));
    assert(dapply(c, t2) == sapply(s2, sapply(s1, t2)));
    law_idempotent_apply(s2, sapply(s1, r1));
    law_idempotent_apply(s2, sapply(s1, r2));
    lemma_teq_sapply(s2, sapply(s1, a1), sapply(s1, a2));
    // variables stay among the original ones
    lemma_sapply_fv(s1, r1);
    lemma_sapply_fv(s1, r2);
    assert(fv(t1) == fv(a1).union(fv(r1)));
    assert(fv(t2) == fv(a2).union(fv(r2)));
    assert forall|y: u64| #[trigger] c.dom().union(range_vars(c)).contains(y) implies f.contains(y) by {
        if s1.dom().union(range_vars(s1)).contains(y) {
            assert(fv(a1).union(fv(a2)).contains(y));
        } else {
            assert(s2.dom().union(range_vars(s2)).contains(y));
            assert(fv(r1p).union(fv(r2p)).contains(y));
        }
        if fv(sapply(s1, r1)).contains(y) {
            assert(sapply_fv_pred(s1, fv(r1), y));
            if !(fv(r1).contains(y) && !s1.dom().contains(y)) {
                let w = choose|w: u64| fv(r1).contains(w) && #[trigger] s1.dom().contains(w) && fv(s1[w]).contains(y);
                assert(range_vars(s1).contains(y));
            }
        }
        if fv(sapply(s1, r2)).contains(y) {
            assert(sapply_fv_pred(s1, fv(r2), y));
            if !(fv(r2).contains(y) && !s1.dom().contains(y)) {
                let w = choose|w: u64| fv(r2).contains(w) && #[trigger] s1.dom().contains(w) && fv(s1[w]).contains(y);
                assert(range_vars(s1).contains(y));
            }
        }
    }
}

proof fn lemma_step_solves(
    s: Map<u64, TypeV>,
    u: Map<u64, TypeV>,
    ts1: Seq<TypeV>,
    ts2: Seq<TypeV>,
    i: int,
)
    requires
        0 <= i < ts1.len(),
        ts1.len() == ts2.len(),
        solves_upto(s, ts1, ts2, i),
        solves(u, sapply(s, ts1[i]), sapply(s, ts2[i])),
    ensures
        solves_upto(compose_spec(u, s), ts1, ts2, i + 1),
{
    let f = fv_seq(ts1).union(fv_seq(ts2));
    lemma_fv_seq(ts1);
    lemma_fv_seq(ts2);
    assert(fv(ts1[i]).subset_of(f));
    assert(fv(ts2[i]).subset_of(f));
    lemma_after(s, f, ts1[i]);
    lemma_after(s, f, ts2[i]);
    let x1 = sapply(s, ts1[i]);
    let x2 = sapply(s, ts2[i]);
    assert forall|y: u64| #[trigger] range_vars(u).contains(y) implies !s.dom().contains(y) by {
        assert(u.dom().union(range_vars(u)).contains(y));
        assert(fv(x1).union(fv(x2)).contains(y));
    }
    assert(range_vars(u).disjoint(s.dom()));
    lemma_compose_idempotent(u, s);
    let c = compose_spec(u, s);
    assert forall|y: u64| #[trigger] c.dom().union(range_vars(c)).contains(y) implies f.contains(y) by {
        if s.dom().union(range_vars(s)).contains(y) {
        } else {
            assert(u.dom().union(range_vars(u)).contains(y));
            assert(fv(x1).union(fv(x2)).contains(y));
        }
    }
    assert forall|j: int| 0 <= j < i + 1 implies #[trigger] teq(dapply(c, ts1[j]), dapply(c, ts2[j])) by {
        assert(dapply(c, ts1[j]) == sapply(u, sapply(s, ts1[j])));
        assert(dapply(c, ts2[j]) == sapply(u, sapply(s, ts2[j])));
        if j < i {
            assert(teq(dapply(s, ts1[j]), dapply(s, ts2[j])));
            law_idempotent_apply(s, ts1[j]);
            law_idempotent_apply(s, ts2[j]);
            lemma_teq_sapply(u, sapply(s, ts1[j]), sapply(s, ts2[j]));
        } else {
            law_idempotent_apply(u, sapply(s, ts1[j]));
            law_idempotent_apply(u, sapply(s, ts2[j]));
        }
    }
}

proof fn lemma_seq_solves(s: Map<u64, TypeV>, ts1: Seq<TypeV>, ts2: Seq<TypeV>, n: Seq<char>)
    requires
        ts1.len() == ts2.len(),
        solves_upto(s, ts1, ts2, ts1.len() as int),
    ensures
        solves(s, TypeV::Con(n, ts1), TypeV::Con(n, ts2)),
        solves(s, TypeV::Tuple(ts1), TypeV::Tuple(ts2)),
{
    law_idempotent_apply(s, TypeV::Con(n, ts1));
    law_idempotent_apply(s, TypeV::Con(n, ts2));
    law_idempotent_apply(s, TypeV::Tuple(ts1));
    law_idempotent_apply(s, TypeV::Tuple(ts2));
    lemma_sapply_seq(s, ts1);
    lemma_sapply_seq(s, ts2);
    lemma_canon_seq(super::model::sapply_seq(s, ts1));
    lemma_canon_seq(super::model::sapply_seq(s, ts2));
    assert forall|j: int| 0 <= j < ts1.len() implies canon(sapply(s, ts1[j])) == canon(sapply(s, ts2[j])) by {
        assert(teq(dapply(s, ts1[j]), dapply(s, ts2[j])));
        law_idempotent_apply(s, ts1[j]);
        law_idempotent_apply(s, ts2[j]);
    }
    assert(canon_seq(super::model::sapply_seq(s, ts1)) =~= canon_seq(super::model::sapply_seq(s, ts2)));
}

proof fn lemma_record_solves(s: Map<u64, TypeV>, f1: Seq<(Seq<char>, TypeV)>, f2: Seq<(Seq<char>, TypeV)>)
    requires
        f1.len() == f2.len(),
        field_names(sort_fields(f1)) == field_names(sort_fields(f2)),
        solves_upto(s, field_types(sort_fields(f1)), field_types(sort_fields(f2)), f1.len() as int),
    ensures
        solves(s, TypeV::Record(f1), TypeV::Record(f2)),
{
    let t1 = TypeV::Record(f1);
    let t2 = TypeV::Record(f2);
    law_idempotent_apply(s, t1);
    law_idempotent_apply(s, t2);
    lemma_sort_fields(f1);
    lemma_sort_fields(f2);
    lemma_field_types(sort_fields(f1));
    lemma_field_types(sort_fields(f2));
    let g = |t: TypeV| canon(sapply(s, t));
    // canon(sapply(s, Record f)) == Record(map g (sort f))
    assert forall|f: Seq<(Seq<char>, TypeV)>| #![auto] canon(sapply(s, TypeV::Record(f))) == TypeV::Record(map_types(g, sort_fields(f))) by {
        lemma_sapply_fields_map(s, f);
        lemma_canon_fields_map(sapply_fields_of(s, f));
        assert(map_types(|t: TypeV| canon(t), map_types(|t: TypeV| sapply(s, t), f)) =~= map_types(g, f));
        lemma_sort_map(g, f);
    }
    let m1 = map_types(g, sort_fields(f1));
    let m2 = map_types(g, sort_fields(f2));
    assert forall|j: int| 0 <= j < m1.len() implies m1[j] == m2[j] by {
        assert(field_names(sort_fields(f1))[j] == field_names(sort_fields(f2))[j]);
        assert(field_types(sort_fields(f1))[j] == sort_fields(f1)[j].1);
        assert(field_types(sort_fields(f2))[j] == sort_fields(f2)[j].1);
        assert(teq(dapply(s, field_types(sort_fields(f1))[j]), dapply(s, field_types(sort_fields(f2))[j])));
        law_idempotent_apply(s, sort_fields(f1)[j].1);
        law_idempotent_apply(s, sort_fields(f2)[j].1);
    }
    assert(m1 =~= m2);
}

pub open spec fn sapply_fields_of(s: Map<u64, TypeV>, f: Seq<(Seq<char>, TypeV)>) -> Seq<(Seq<char>, TypeV)> {
    super::model::sapply_fields(s, f)
}


proof fn lemma_empty_solves(t: TypeV)
    ensures
        solves(Map::<u64, TypeV>::empty(), t, t),
        solves_upto(Map::<u64, TypeV>::empty(), Seq::<TypeV>::empty(), Seq::<TypeV>::empty(), 0),
{
    let m = Map::<u64, TypeV>::empty();
    assert(range_vars(m) =~= Set::<u64>::empty());
    assert(idempotent(m));
}

proof fn lemma_empty_solves_upto(ts1: Seq<TypeV>, ts2: Seq<TypeV>)
    ensures
        solves_upto(Map::<u64, TypeV>::empty(), ts1, ts2, 0),
{
    let m = Map::<u64, TypeV>::empty();
    assert(range_vars(m) =~= Set::<u64>::empty());
    assert(m.dom() =~= Set::<u64>::empty());
    assert(idempotent(m));
}

// ========== Unification ==========

/// Bind a type variable to a type, with occurs check.
fn bind_var(var: TypeVar, ty: &Type) -> (r: Result<Substitution, TypeError>)
    ensures
        r matches Ok(s) ==> s@ == Map::<u64, TypeV>::empty().insert(var.0, ty@) && !fv(ty@).contains(var.0),
        r matches Err(e) ==> fv(ty@).contains(var.0) && (e matches TypeError::InfiniteType { var: v, ty: t } && v == var && t@ == ty@),
{
    // Occurs check: prevent infinite types like 'a = 'a -> 'b
    if ty.contains_var(var) {
        return Err(TypeError::InfiniteType { var, ty: ty.clone() });
    }
    Ok(Substitution::single(var, ty.clone()))
}

fn mismatch(t1: &Type, t2: &Type) -> (e: TypeError)
    ensures
        e matches TypeError::TypeMismatch { expected, actual } && expected@ == t1@ && actual@ == t2@,
{
    TypeError::TypeMismatch { expected: t1.clone(), actual: t2.clone() }
}

/// The two types are the same, or both records whose fields sort to the same sequence.
pub open spec fn same_up_to_field_order(t1: TypeV, t2: TypeV) -> bool {
    t1 == t2 || (t1 is Record && t2 is Record && sort_fields(t1->Record_0) == sort_fields(t2->Record_0))
}

/// The two types have the same shape wherever neither is a variable (records aside).
pub open spec fn compatible(t1: TypeV, t2: TypeV) -> bool
    decreases t1,
{
    match (t1, t2) {
        (TypeV::Var(_), _) => true,
        (_, TypeV::Var(_)) => true,
        (TypeV::Con(n1, a1), TypeV::Con(n2, a2)) => n1 == n2 && compatible_seq(a1, a2),
        (TypeV::Arrow(a1, r1), TypeV::Arrow(a2, r2)) => compatible(*a1, *a2) && compatible(*r1, *r2),
        (TypeV::Tuple(e1), TypeV::Tuple(e2)) => compatible_seq(e1, e2),
        _ => false,
    }
}

pub open spec fn compatible_seq(s1: Seq<TypeV>, s2: Seq<TypeV>) -> bool
    decreases s1,
{
    s1.len() == s2.len() && (s1.len() == 0 || (compatible_seq(s1.drop_last(), s2.drop_last())
        && compatible(s1.last(), s2.last())))
}

/// No type variable occurs twice in the type.
pub open spec fn linear(t: TypeV) -> bool
    decreases t,
{
    match t {
        TypeV::Var(_) => true,
        TypeV::Con(_, a) => linear_seq(a),
        TypeV::Arrow(a, r) => linear(*a) && linear(*r) && fv(*a).disjoint(fv(*r)),
        TypeV::Tuple(e) => linear_seq(e),
        TypeV::Record(_) => false,
    }
}

pub open spec fn linear_seq(s: Seq<TypeV>) -> bool
    decreases s,
{
    s.len() == 0 || (linear_seq(s.drop_last()) && linear(s.last()) && fv_seq(s.drop_last()).disjoint(fv(s.last())))
}

/// Two types of the same shape, no variable occurring twice in either or in both: these
/// always unify.
pub open spec fn plainly_unifiable(t1: TypeV, t2: TypeV) -> bool {
    compatible(t1, t2) && linear(t1) && linear(t2) && fv(t1).disjoint(fv(t2))
}

proof fn lemma_plain_seq(s1: Seq<TypeV>, s2: Seq<TypeV>, i: int)
    requires
        compatible_seq(s1, s2),
        linear_seq(s1),
        linear_seq(s2),
        0 <= i < s1.len(),
    ensures
        s1.len() == s2.len(),
        compatible(s1[i], s2[i]),
        linear(s1[i]),
        linear(s2[i]),
        fv(s1[i]).disjoint(fv_seq(s1.take(i))),
        fv(s2[i]).disjoint(fv_seq(s2.take(i))),
    decreases s1.len(),
{
    if i < s1.len() - 1 {
        lemma_plain_seq(s1.drop_last(), s2.drop_last(), i);
        assert(s1.drop_last().take(i) =~= s1.take(i));
        assert(s2.drop_last().take(i) =~= s2.take(i));
    } else {
        assert(s1.take(i) =~= s1.drop_last());
        assert(s2.take(i) =~= s2.drop_last());
    }
}

proof fn lemma_fv_seq_take(s: Seq<TypeV>, i: int)
    requires
        0 <= i < s.len(),
    ensures
        fv_seq(s.take(i + 1)) == fv_seq(s.take(i)).union(fv(s[i])),
        fv_seq(s.take(i)).subset_of(fv_seq(s)),
        fv(s[i]).subset_of(fv_seq(s)),
{
    assert(s.take(i + 1).drop_last() =~= s.take(i));
    lemma_fv_seq(s);
    lemma_fv_seq(s.take(i));
    assert forall|x: u64| fv_seq(s.take(i)).contains(x) implies fv_seq(s).contains(x) by {
        let j = choose|j: int| 0 <= j < s.take(i).len() && #[trigger] fv(s.take(i)[j]).contains(x);
        assert(s.take(i)[j] == s[j]);
    }
}

/// Unify two types, returning a substitution that makes them equal.
///
/// If unification fails, returns a type error explaining why.
#[verifier::loop_isolation(false)]
pub fn unify(t1: &Type, t2: &Type) -> (res: Result<Substitution, TypeError>)
    ensures
        res matches Ok(s) ==> solves(s@, t1@, t2@),
        res matches Err(e) ==> e is TypeMismatch || e is InfiniteType,
        // a variable against itself needs nothing
        t1@ is Var && t1@ == t2@ ==> (res matches Ok(s) && s@ == Map::<u64, TypeV>::empty()),
        // a variable against any other type is bound to it, unless it occurs in it
        t1@ is Var && t1@ != t2@ ==> if fv(t2@).contains(t1@->Var_0) {
            res matches Err(TypeError::InfiniteType { var, ty }) && var.0 == t1@->Var_0 && ty@ == t2@
        } else {
            res matches Ok(s) && s@ == Map::<u64, TypeV>::empty().insert(t1@->Var_0, t2@)
        },
        !(t1@ is Var) && t2@ is Var ==> if fv(t1@).contains(t2@->Var_0) {
            res matches Err(TypeError::InfiniteType { var, ty }) && var.0 == t2@->Var_0 && ty@ == t1@
        } else {
            res matches Ok(s) && s@ == Map::<u64, TypeV>::empty().insert(t2@->Var_0, t1@)
        },
        // different type constructors never unify
        heads_clash(t1@, t2@) ==> (res matches Err(TypeError::TypeMismatch { expected, actual }) && expected@ == t1@ && actual@ == t2@),
        // a type always unifies with itself, and a record with one whose fields sort the same
        same_up_to_field_order(t1@, t2@) ==> res is Ok,
        t1@ == t2@ ==> (res matches Ok(s) && s@ == Map::<u64, TypeV>::empty()),
        plainly_unifiable(t1@, t2@) ==> res is Ok,
    decreases fv(t1@).union(fv(t2@)).len(), size(t1@) + size(t2@),
{
    proof {
        lemma_view_unfold(*t1);
        lemma_view_unfold(*t2);
        lemma_fv_finite(t1@);
        lemma_fv_finite(t2@);
    }
    let ghost f = fv(t1@).union(fv(t2@));
    if let Type::Var(v1) = t1 {
        if let Type::Var(v2) = t2 {
            if v1.0 == v2.0 {
                proof {
                    lemma_empty_solves(t1@);
                    lemma_dapply_noop(Map::<u64, TypeV>::empty(), t1@);
                }
                return Ok(Substitution::new());
            }
        }
        let r = bind_var(*v1, t2);
        proof {
            if r is Ok {
                lemma_single_solves(v1.0, t2@);
            }
        }
        return r;
    }
    if let Type::Var(v) = t2 {
        let r = bind_var(*v, t1);
        proof {
            if r is Ok {
                lemma_single_solves(v.0, t1@);
            }
        }
        return r;
    }
    match t1 {
        Type::Con(n1, args1) => {
            match t2 {
                Type::Con(n2, args2) => {
                    if !(*n1 == *n2) || args1.len() != args2.len() {
                        proof {
                            lemma_tview_seq(args1@);
                            lemma_tview_seq(args2@);
                            if plainly_unifiable(t1@, t2@) {
                                assert(compatible_seq(tview_seq(args1@), tview_seq(args2@)));
                                assert(n1@ == n2@);
                            }
                        }
                        return Err(mismatch(t1, t2));
                    }
                    proof {
                        lemma_tview_seq(args1@);
                        lemma_tview_seq(args2@);
                        assert(n1@ == n2@);
                    }
                    let r = unify_many(args1, args2);
                    proof {
                        if r is Ok {
                            lemma_seq_solves(r->Ok_0@, tview_seq(args1@), tview_seq(args2@), n1@);
                        }
                    }
                    r
                },
                _ => Err(mismatch(t1, t2)),
            }
        },
        Type::Arrow(a1, r1) => {
            match t2 {
                Type::Arrow(a2, r2) => {
                    proof {
                        assert(fv(t1@) == fv(a1@).union(fv(r1@)));
                        assert(fv(t2@) == fv(a2@).union(fv(r2@)));
                        lemma_fv_finite(a1@);
                        lemma_fv_finite(a2@);
                        vstd::set_lib::lemma_len_subset(fv(a1@).union(fv(a2@)), f);
                        if plainly_unifiable(t1@, t2@) {
                            assert forall|x: u64| fv(a1@).contains(x) implies !fv(a2@).contains(x) by {
                                assert(fv(t1@).contains(x));
                                if fv(a2@).contains(x) {
                                    assert(fv(t2@).contains(x));
                                }
                            }
                            assert(plainly_unifiable(a1@, a2@));
                        }
                    }
                    let s1 = match unify(a1, a2) {
                        Ok(s) => s,
                        Err(e) => return Err(e),
                    };
                    proof {
                        law_idempotent_apply(s1@, r1@);
                    }
                    let r1s = s1.apply(r1);
                    let r2s = s1.apply(r2);
                    proof {
                        if t1@ == t2@ {
                            lemma_dapply_noop(s1@, r1@);
                        }
                        if plainly_unifiable(t1@, t2@) {
                            assert(fv(r1@).disjoint(s1@.dom())) by {
                                assert forall|x: u64| fv(r1@).contains(x) implies !s1@.dom().contains(x) by {
                                    assert(fv(t1@).contains(x));
                                    assert(!fv(a1@).contains(x));
                                    if fv(a2@).contains(x) {
                                        assert(fv(t2@).contains(x));
                                    }
                                    if s1@.dom().contains(x) {
                                        assert(s1@.dom().union(range_vars(s1@)).contains(x));
                                        assert(fv(a1@).union(fv(a2@)).contains(x));
                                    }
                                }
                            }
                            assert(fv(r2@).disjoint(s1@.dom())) by {
                                assert forall|x: u64| fv(r2@).contains(x) implies !s1@.dom().contains(x) by {
                                    assert(fv(t2@).contains(x));
                                    assert(!fv(a2@).contains(x));
                                    if fv(a1@).contains(x) {
                                        assert(fv(t1@).contains(x));
                                    }
                                    if s1@.dom().contains(x) {
                                        assert(s1@.dom().union(range_vars(s1@)).contains(x));
                                        assert(fv(a1@).union(fv(a2@)).contains(x));
                                    }
                                }
                            }
                            lemma_dapply_noop(s1@, r1@);
                            lemma_dapply_noop(s1@, r2@);
                            assert forall|x: u64| fv(r1@).contains(x) implies !fv(r2@).contains(x) by {
                                assert(fv(t1@).contains(x));
                                if fv(r2@).contains(x) {
                                    assert(fv(t2@).contains(x));
                                }
                            }
                            assert(plainly_unifiable(r1s@, r2s@));
                        }
                    }
                    proof {
                        s1.lemma_finite();
                        lemma_after(s1@, f, r1@);
                        lemma_after(s1@, f, r2@);
                        lemma_fv_finite(r1s@);
                        lemma_fv_finite(r2s@);
                        assert(s1@.dom().subset_of(s1@.dom().union(range_vars(s1@))));
                        lemma_card_shrink(f, fv(r1s@).union(fv(r2s@)), s1@.dom());
                    }
                    let s2 = match unify(&r1s, &r2s) {
                        Ok(s) => s,
                        Err(e) => return Err(e),
                    };
                    proof {
                        law_idempotent_apply(s2@, r1s@);
                        lemma_arrow_solves(s1@, s2@, a1@, r1@, a2@, r2@);
                    }
                    let c = s2.compose(&s1);
                    proof {
                        if t1@ == t2@ {
                            assert(c@ =~= Map::<u64, TypeV>::empty());
                        }
                    }
                    Ok(c)
                },
                _ => Err(mismatch(t1, t2)),
            }
        },
        Type::Tuple(elems1) => {
            match t2 {
                Type::Tuple(elems2) => {
                    if elems1.len() != elems2.len() {
                        proof {
                            lemma_tview_seq(elems1@);
                            lemma_tview_seq(elems2@);
                            if plainly_unifiable(t1@, t2@) {
                                assert(compatible_seq(tview_seq(elems1@), tview_seq(elems2@)));
                            }
                        }
                        return Err(mismatch(t1, t2));
                    }
                    proof {
                        lemma_tview_seq(elems1@);
                        lemma_tview_seq(elems2@);
                    }
                    let r = unify_many(elems1, elems2);
                    proof {
                        if r is Ok {
                            lemma_seq_solves(r->Ok_0@, tview_seq(elems1@), tview_seq(elems2@), Seq::empty());
                        }
                    }
                    r
                },
                _ => Err(mismatch(t1, t2)),
            }
        },
        Type::Record(fields1) => {
            match t2 {
                Type::Record(fields2) => {
                    proof {
                        lemma_tview_fields(fields1@);
                        lemma_tview_fields(fields2@);
                    }
                    proof {
                        lemma_sort_fields(tview_fields(fields1@));
                        lemma_sort_fields(tview_fields(fields2@));
                    }
                    if fields1.len() != fields2.len() {
                        return Err(mismatch(t1, t2));
                    }
                    let sorted1 = sort_by_name(fields1);
                    let sorted2 = sort_by_name(fields2);
                    let ghost f1 = tview_fields(fields1@);
                    let ghost f2 = tview_fields(fields2@);
                    proof {
                        lemma_sort_fields(f1);
                        lemma_sort_fields(f2);
                        lemma_tview_fields(sorted1@);
                        lemma_tview_fields(sorted2@);
                    }
                    let mut i: usize = 0;
                    while i < sorted1.len()
                        invariant
                            i <= sorted1@.len(),
                            sorted1@.len() == sorted2@.len(),
                            tview_fields(sorted1@) == sort_fields(f1),
                            tview_fields(sorted2@) == sort_fields(f2),
                            tview_fields(sorted1@).len() == sorted1@.len(),
                            tview_fields(sorted2@).len() == sorted2@.len(),
                            forall|j: int| 0 <= j < sorted1@.len() ==> #[trigger] tview_fields(sorted1@)[j] == (sorted1@[j].0@, sorted1@[j].1@),
                            forall|j: int| 0 <= j < sorted2@.len() ==> #[trigger] tview_fields(sorted2@)[j] == (sorted2@[j].0@, sorted2@[j].1@),
                            forall|j: int| 0 <= j < i ==> #[trigger] sorted1@[j].0@ == sorted2@[j].0@,
                        decreases sorted1.len() - i,
                    {
                        if !(sorted1[i].0 == sorted2[i].0) {
                            proof {
                                assert(field_names(sort_fields(f1))[i as int] != field_names(sort_fields(f2))[i as int]);
                            }
                            return Err(mismatch(t1, t2));
                        }
                        i += 1;
                    }
                    proof {
                        assert(field_names(sort_fields(f1)) =~= field_names(sort_fields(f2)));
                    }
                    let types1 = field_type_vec(&sorted1);
                    let types2 = field_type_vec(&sorted2);
                    proof {
                        lemma_field_types(sort_fields(f1));
                        lemma_field_types(sort_fields(f2));
                        assert(fv(t1@) == fv_fields(f1));
                        assert(fv(t2@) == fv_fields(f2));
                    }
                    let r = unify_many(&types1, &types2);
                    proof {
                        if r is Ok {
                            lemma_record_solves(r->Ok_0@, f1, f2);
                        }
                    }
                    r
                },
                _ => Err(mismatch(t1, t2)),
            }
        },
        Type::Var(_) => Err(mismatch(t1, t2)),
    }
}

/// The types of the fields, in order.
fn field_type_vec(fields: &Vec<(String, Type)>) -> (r: Vec<Type>)
    ensures
        tview_seq(r@) == field_types(tview_fields(fields@)),
        r@.len() == fields@.len(),
{
    proof { lemma_tview_fields(fields@); }
    let mut r: Vec<Type> = Vec::new();
    let mut i: usize = 0;
    while i < fields.len()
        invariant
            i <= fields@.len(),
            r@.len() == i,
            forall|j: int| 0 <= j < i ==> (#[trigger] r@[j])@ == fields@[j].1@,
        decreases fields.len() - i,
    {
        r.push(fields[i].1.clone());
        i += 1;
    }
    proof {
        lemma_tview_seq(r@);
        lemma_tview_fields(fields@);
        assert(tview_seq(r@) =~= field_types(tview_fields(fields@)));
    }
    r
}

/// Unify multiple pairs of types, threading the substitution through.
fn unify_many(types1: &Vec<Type>, types2: &Vec<Type>) -> (res: Result<Substitution, TypeError>)
    requires
        types1@.len() == types2@.len(),
    ensures
        res matches Ok(s) ==> solves_upto(s@, tview_seq(types1@), tview_seq(types2@), types1@.len() as int),
        res matches Err(e) ==> e is TypeMismatch || e is InfiniteType,
        tview_seq(types1@) == tview_seq(types2@) ==> (res matches Ok(s) && s@ == Map::<u64, TypeV>::empty()),
        (compatible_seq(tview_seq(types1@), tview_seq(types2@)) && linear_seq(tview_seq(types1@))
            && linear_seq(tview_seq(types2@)) && fv_seq(tview_seq(types1@)).disjoint(fv_seq(tview_seq(types2@))))
            ==> res is Ok,
    decreases
        fv_seq(tview_seq(types1@)).union(fv_seq(tview_seq(types2@))).len(),
        size_seq(tview_seq(types1@)) + size_seq(tview_seq(types2@)) + 1,
{
    let ghost s1 = tview_seq(types1@);
    let ghost s2 = tview_seq(types2@);
    let ghost f = fv_seq(s1).union(fv_seq(s2));
    proof {
        lemma_tview_seq(types1@);
        lemma_tview_seq(types2@);
        lemma_fv_seq_finite(s1);
        lemma_fv_seq_finite(s2);
        lemma_fv_seq(s1);
        lemma_fv_seq(s2);
        lemma_size_seq(s1);
        lemma_size_seq(s2);
        lemma_empty_solves_upto(s1, s2);
    }
    let mut subst = Substitution::new();
    let mut i: usize = 0;
    while i < types1.len()
        invariant
            i <= types1@.len(),
            types1@.len() == types2@.len(),
            s1 == tview_seq(types1@),
            s2 == tview_seq(types2@),
            s1.len() == types1@.len(),
            s2.len() == types2@.len(),
            forall|j: int| 0 <= j < types1@.len() ==> #[trigger] s1[j] == types1@[j]@,
            forall|j: int| 0 <= j < types2@.len() ==> #[trigger] s2[j] == types2@[j]@,
            f == fv_seq(s1).union(fv_seq(s2)),
            f.finite(),
            forall|j: int| 0 <= j < s1.len() ==> fv(#[trigger] s1[j]).subset_of(f),
            forall|j: int| 0 <= j < s2.len() ==> fv(#[trigger] s2[j]).subset_of(f),
            forall|j: int| 0 <= j < s1.len() ==> size(#[trigger] s1[j]) <= size_seq(s1),
            forall|j: int| 0 <= j < s2.len() ==> size(#[trigger] s2[j]) <= size_seq(s2),
            solves_upto(subst@, s1, s2, i as int),
            s1 == s2 ==> subst@ == Map::<u64, TypeV>::empty(),
            (compatible_seq(s1, s2) && linear_seq(s1) && linear_seq(s2) && fv_seq(s1).disjoint(fv_seq(s2)))
                ==> subst@.dom().subset_of(fv_seq(s1.take(i as int)).union(fv_seq(s2.take(i as int)))),
        decreases types1.len() - i,
    {
        proof {
            law_idempotent_apply(subst@, s1[i as int]);
        }
        let a = subst.apply(&types1[i]);
        let b = subst.apply(&types2[i]);
        proof {
            if s1 == s2 {
                lemma_dapply_noop(subst@, s1[i as int]);
            }
            if compatible_seq(s1, s2) && linear_seq(s1) && linear_seq(s2) && fv_seq(s1).disjoint(fv_seq(s2)) {
                lemma_plain_seq(s1, s2, i as int);
                lemma_fv_seq_take(s1, i as int);
                lemma_fv_seq_take(s2, i as int);
                lemma_dapply_noop(subst@, s1[i as int]);
                lemma_dapply_noop(subst@, s2[i as int]);
            }
        }
        proof {
            assert(fv(s1[i as int]).subset_of(f));
            assert(fv(s2[i as int]).subset_of(f));
            subst.lemma_finite();
            lemma_after(subst@, f, s1[i as int]);
            lemma_after(subst@, f, s2[i as int]);
            lemma_fv_finite(a@);
            lemma_fv_finite(b@);
            lemma_card_shrink(f, fv(a@).union(fv(b@)), subst@.dom());
            assert(size(s1[i as int]) <= size_seq(s1));
            assert(size(s2[i as int]) <= size_seq(s2));
        }
        let s = match unify(&a, &b) {
            Ok(s) => s,
            Err(e) => return Err(e),
        };
        proof {
            law_idempotent_apply(s@, a@);
            lemma_step_solves(subst@, s@, s1, s2, i as int);
        }
        let ghost prev = subst@;
        subst.extend(&s);
        proof {
            if compatible_seq(s1, s2) && linear_seq(s1) && linear_seq(s2) && fv_seq(s1).disjoint(fv_seq(s2)) {
                assert(a@ == s1[i as int]);
                assert(b@ == s2[i as int]);
                assert forall|x: u64| subst@.dom().contains(x) implies
                    fv_seq(s1.take(i + 1)).union(fv_seq(s2.take(i + 1))).contains(x) by {
                    lemma_fv_seq_take(s1, i as int);
                    lemma_fv_seq_take(s2, i as int);
                    if !prev.dom().contains(x) {
                        assert(s@.dom().contains(x));
                        assert(s@.dom().union(range_vars(s@)).contains(x));
                    }
                }
            }
            if s1 == s2 {
                assert(subst@ =~= Map::<u64, TypeV>::empty());
            }
            if compatible_seq(s1, s2) && linear_seq(s1) && linear_seq(s2) && fv_seq(s1).disjoint(fv_seq(s2)) {
                lemma_fv_seq_take(s1, i as int);
                lemma_fv_seq_take(s2, i as int);
            }
        }
        i += 1;
    }
    Ok(subst)
}

} // verus!
