//! Record fields up to order: the stable ordering of fields by name that
//! unification uses, and the canonical form under which two types that differ
//! only in the order of record fields are the same.

use vstd::prelude::*;
use super::model::{
    TypeV, fv, fv_fields, fv_seq, sapply, sapply_fields, sapply_seq, size, size_fields, size_seq,
};

verus! {

/// Strict lexicographic order on names, character by character (the order of
/// `String`'s comparison, since UTF-8 preserves the order of code points).
pub open spec fn name_lt(a: Seq<char>, b: Seq<char>) -> bool
    decreases a.len(),
{
    if a.len() == 0 {
        b.len() > 0
    } else if b.len() == 0 {
        false
    } else if a[0] != b[0] {
        (a[0] as int) < (b[0] as int)
    } else {
        name_lt(a.drop_first(), b.drop_first())
    }
}

/// Insert a field into a list sorted by name, after every field whose name is not greater.
pub open spec fn insert_field(sorted: Seq<(Seq<char>, TypeV)>, x: (Seq<char>, TypeV)) -> Seq<(Seq<char>, TypeV)>
    decreases sorted.len(),
{
    if sorted.len() == 0 {
        seq![x]
    } else if name_lt(x.0, sorted.last().0) {
        insert_field(sorted.drop_last(), x).push(sorted.last())
    } else {
        sorted.push(x)
    }
}

/// The fields stably sorted by name (insertion sort, left to right).
pub open spec fn sort_fields(s: Seq<(Seq<char>, TypeV)>) -> Seq<(Seq<char>, TypeV)>
    decreases s.len(),
{
    if s.len() == 0 {
        Seq::empty()
    } else {
        insert_field(sort_fields(s.drop_last()), s.last())
    }
}

/// The canonical form of a type: every record's fields stably sorted by name.
pub open spec fn canon(t: TypeV) -> TypeV
    decreases t,
{
    match t {
        TypeV::Var(v) => t,
        TypeV::Con(n, args) => TypeV::Con(n, canon_seq(args)),
        TypeV::Arrow(a, b) => TypeV::Arrow(Box::new(canon(*a)), Box::new(canon(*b))),
        TypeV::Tuple(es) => TypeV::Tuple(canon_seq(es)),
        TypeV::Record(fs) => TypeV::Record(sort_fields(canon_fields(fs))),
    }
}

pub open spec fn canon_seq(s: Seq<TypeV>) -> Seq<TypeV>
    decreases s,
{
    if s.len() == 0 {
        Seq::empty()
    } else {
        canon_seq(s.drop_last()).push(canon(s.last()))
    }
}

pub open spec fn canon_fields(s: Seq<(Seq<char>, TypeV)>) -> Seq<(Seq<char>, TypeV)>
    decreases s,
{
    if s.len() == 0 {
        Seq::empty()
    } else {
        canon_fields(s.drop_last()).push((s.last().0, canon(s.last().1)))
    }
}

/// Two types are the same up to the order of record fields.
pub open spec fn teq(t: TypeV, u: TypeV) -> bool {
    canon(t) == canon(u)
}

/// Apply a function to the type of every field.
pub open spec fn map_types(g: spec_fn(TypeV) -> TypeV, s: Seq<(Seq<char>, TypeV)>) -> Seq<(Seq<char>, TypeV)> {
    Seq::new(s.len(), |i: int| (s[i].0, g(s[i].1)))
}

/// The names of the fields.
pub open spec fn field_names(s: Seq<(Seq<char>, TypeV)>) -> Seq<Seq<char>> {
    Seq::new(s.len(), |i: int| s[i].0)
}

/// The types of the fields.
pub open spec fn field_types(s: Seq<(Seq<char>, TypeV)>) -> Seq<TypeV> {
    Seq::new(s.len(), |i: int| s[i].1)
}

// ========== Sorting commutes with rewriting the field types ==========

pub proof fn lemma_insert_map(g: spec_fn(TypeV) -> TypeV, sorted: Seq<(Seq<char>, TypeV)>, x: (Seq<char>, TypeV))
    ensures
        insert_field(map_types(g, sorted), (x.0, g(x.1))) == map_types(g, insert_field(sorted, x)),
    decreases sorted.len(),
{
    let ms = map_types(g, sorted);
    if sorted.len() == 0 {
        assert(map_types(g, seq![x]) =~= seq![(x.0, g(x.1))]);
    } else {
        assert(ms.last() == (sorted.last().0, g(sorted.last().1)));
        assert(ms.drop_last() =~= map_types(g, sorted.drop_last()));
        if name_lt(x.0, sorted.last().0) {
            lemma_insert_map(g, sorted.drop_last(), x);
            assert(map_types(g, insert_field(sorted.drop_last(), x).push(sorted.last()))
                =~= map_types(g, insert_field(sorted.drop_last(), x)).push((sorted.last().0, g(sorted.last().1))));
        } else {
            assert(map_types(g, sorted.push(x)) =~= ms.push((x.0, g(x.1))));
        }
    }
}

pub proof fn lemma_sort_map(g: spec_fn(TypeV) -> TypeV, s: Seq<(Seq<char>, TypeV)>)
    ensures
        sort_fields(map_types(g, s)) == map_types(g, sort_fields(s)),
    decreases s.len(),
{
    if s.len() == 0 {
        assert(map_types(g, s) =~= Seq::<(Seq<char>, TypeV)>::empty());
        assert(map_types(g, Seq::<(Seq<char>, TypeV)>::empty()) =~= Seq::<(Seq<char>, TypeV)>::empty());
    } else {
        let ms = map_types(g, s);
        assert(ms.drop_last() =~= map_types(g, s.drop_last()));
        lemma_sort_map(g, s.drop_last());
        lemma_insert_map(g, sort_fields(s.drop_last()), s.last());
    }
}

pub proof fn lemma_sapply_fields_map(m: Map<u64, TypeV>, s: Seq<(Seq<char>, TypeV)>)
    ensures
        sapply_fields(m, s) == map_types(|t: TypeV| sapply(m, t), s),
    decreases s.len(),
{
    if s.len() > 0 {
        lemma_sapply_fields_map(m, s.drop_last());
        assert(sapply_fields(m, s) =~= map_types(|t: TypeV| sapply(m, t), s));
    } else {
        assert(sapply_fields(m, s) =~= map_types(|t: TypeV| sapply(m, t), s));
    }
}

pub proof fn lemma_canon_fields_map(s: Seq<(Seq<char>, TypeV)>)
    ensures
        canon_fields(s) == map_types(|t: TypeV| canon(t), s),
    decreases s.len(),
{
    if s.len() > 0 {
        lemma_canon_fields_map(s.drop_last());
        assert(canon_fields(s) =~= map_types(|t: TypeV| canon(t), s));
    } else {
        assert(canon_fields(s) =~= map_types(|t: TypeV| canon(t), s));
    }
}

pub proof fn lemma_canon_seq(s: Seq<TypeV>)
    ensures
        canon_seq(s).len() == s.len(),
        forall|i: int| 0 <= i < s.len() ==> #[trigger] canon_seq(s)[i] == canon(s[i]),
    decreases s.len(),
{
    if s.len() > 0 {
        lemma_canon_seq(s.drop_last());
    }
}

// ========== Sorting keeps the fields ==========

pub proof fn lemma_insert_fields(sorted: Seq<(Seq<char>, TypeV)>, x: (Seq<char>, TypeV))
    ensures
        fv_fields(insert_field(sorted, x)) == fv_fields(sorted).union(fv(x.1)),
        size_fields(insert_field(sorted, x)) == size_fields(sorted) + size(x.1),
        insert_field(sorted, x).len() == sorted.len() + 1,
    decreases sorted.len(),
{
    if sorted.len() == 0 {
        assert(seq![x].drop_last() =~= Seq::<(Seq<char>, TypeV)>::empty());
        assert(fv_fields(Seq::<(Seq<char>, TypeV)>::empty()) == Set::<u64>::empty());
        assert(fv_fields(seq![x]) =~= fv_fields(sorted).union(fv(x.1)));
        assert(size_fields(Seq::<(Seq<char>, TypeV)>::empty()) == 0);
        assert(size_fields(seq![x]) == size_fields(seq![x].drop_last()) + size(x.1));
    } else if name_lt(x.0, sorted.last().0) {
        let d = sorted.drop_last();
        lemma_insert_fields(d, x);
        let r = insert_field(d, x).push(sorted.last());
        assert(r.drop_last() =~= insert_field(d, x));
        assert(fv_fields(r) =~= fv_fields(sorted).union(fv(x.1)));
        assert(size_fields(r) == size_fields(insert_field(d, x)) + size(sorted.last().1));
        assert(size_fields(sorted) == size_fields(d) + size(sorted.last().1));
    } else {
        assert(sorted.push(x).drop_last() =~= sorted);
    }
}

pub proof fn lemma_sort_fields(s: Seq<(Seq<char>, TypeV)>)
    ensures
        fv_fields(sort_fields(s)) == fv_fields(s),
        size_fields(sort_fields(s)) == size_fields(s),
        sort_fields(s).len() == s.len(),
    decreases s.len(),
{
    if s.len() > 0 {
        lemma_sort_fields(s.drop_last());
        lemma_insert_fields(sort_fields(s.drop_last()), s.last());
    }
}

pub proof fn lemma_field_types(s: Seq<(Seq<char>, TypeV)>)
    ensures
        fv_seq(field_types(s)) == fv_fields(s),
        size_seq(field_types(s)) == size_fields(s),
    decreases s.len(),
{
    if s.len() > 0 {
        lemma_field_types(s.drop_last());
        assert(field_types(s).drop_last() =~= field_types(s.drop_last()));
    } else {
        assert(field_types(s) =~= Seq::<TypeV>::empty());
    }
}

// ========== Canonical form and substitution ==========

/// The substitution with every image in canonical form.
pub open spec fn canon_map(m: Map<u64, TypeV>) -> Map<u64, TypeV> {
    Map::new(|v: u64| m.dom().contains(v), |v: u64| canon(m[v]))
}

pub proof fn lemma_canon_sapply(m: Map<u64, TypeV>, t: TypeV)
    ensures
        canon(sapply(m, t)) == sapply(canon_map(m), canon(t)),
    decreases t,
{
    match t {
        TypeV::Var(v) => {},
        TypeV::Con(n, args) => lemma_canon_sapply_seq(m, args),
        TypeV::Arrow(a, b) => {
            lemma_canon_sapply(m, *a);
            lemma_canon_sapply(m, *b);
        },
        TypeV::Tuple(es) => lemma_canon_sapply_seq(m, es),
        TypeV::Record(fs) => {
            let cm = canon_map(m);
            lemma_canon_sapply_fields(m, fs);
            // canon_fields(sapply_fields(m, fs)) == sapply_fields(cm, canon_fields(fs))
            lemma_sapply_fields_map(cm, canon_fields(fs));
            lemma_sort_map(|x: TypeV| sapply(cm, x), canon_fields(fs));
            lemma_sapply_fields_map(cm, sort_fields(canon_fields(fs)));
        },
    }
}

pub proof fn lemma_canon_sapply_seq(m: Map<u64, TypeV>, s: Seq<TypeV>)
    ensures
        canon_seq(sapply_seq(m, s)) == sapply_seq(canon_map(m), canon_seq(s)),
    decreases s,
{
    if s.len() > 0 {
        lemma_canon_sapply_seq(m, s.drop_last());
        lemma_canon_sapply(m, s.last());
        let a = sapply_seq(m, s);
        assert(a.drop_last() =~= sapply_seq(m, s.drop_last()));
        let c = canon_seq(s);
        assert(c.drop_last() =~= canon_seq(s.drop_last()));
    }
}

pub proof fn lemma_canon_sapply_fields(m: Map<u64, TypeV>, s: Seq<(Seq<char>, TypeV)>)
    ensures
        canon_fields(sapply_fields(m, s)) == sapply_fields(canon_map(m), canon_fields(s)),
    decreases s,
{
    if s.len() > 0 {
        lemma_canon_sapply_fields(m, s.drop_last());
        lemma_canon_sapply(m, s.last().1);
        let a = sapply_fields(m, s);
        assert(a.drop_last() =~= sapply_fields(m, s.drop_last()));
        let c = canon_fields(s);
        assert(c.drop_last() =~= canon_fields(s.drop_last()));
    }
}

/// Substitution respects sameness up to field order.
pub proof fn lemma_teq_sapply(m: Map<u64, TypeV>, t: TypeV, u: TypeV)
    requires
        teq(t, u),
    ensures
        teq(sapply(m, t), sapply(m, u)),
{
    lemma_canon_sapply(m, t);
    lemma_canon_sapply(m, u);
}

} // verus!
