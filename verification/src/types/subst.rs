//! Type substitutions: finite maps from type variables to types, the result of
//! unification, applied to types during inference.

use vstd::prelude::*;
use super::model::{
    TypeV, acyclic, dapply, dapply_fields, dapply_seq, lemma_dapply_fields, lemma_dapply_seq,
    lemma_rk_fields, lemma_rk_seq, ranked, rk, rk_fields, rk_seq, the_rank,
};
use super::repr::{
    Type, TypeScheme, TypeVar, TypeVarSupply, lemma_tview_fields, lemma_tview_seq, lemma_view_unfold,
    next_after, tview_fields, tview_seq, var_ids,
};
use super::model::{
    fv, fv_fields, fv_seq, idempotent, lemma_dapply_idempotent, lemma_dapply_noop, lemma_idempotent_acyclic, lemma_rk_zero,
    lemma_sapply_compose, lemma_sapply_fv, range_vars, sapply, sapply_fv_pred, scompose,
};

verus! {

/// The map denoted by a list of entries (later entries win).
pub open spec fn entries_map(s: Seq<(TypeVar, Type)>) -> Map<u64, TypeV>
    decreases s.len(),
{
    if s.len() == 0 {
        Map::empty()
    } else {
        entries_map(s.drop_last()).insert(s.last().0.0, s.last().1@)
    }
}

/// No variable has two entries.
pub open spec fn distinct_keys(s: Seq<(TypeVar, Type)>) -> bool {
    forall|i: int, j: int| 0 <= i < j < s.len() ==> s[i].0 != s[j].0
}

pub proof fn lemma_entries_map(s: Seq<(TypeVar, Type)>)
    requires
        distinct_keys(s),
    ensures
        forall|k: u64| entries_map(s).dom().contains(k) <==> exists|i: int| 0 <= i < s.len() && #[trigger] s[i].0.0 == k,
        forall|i: int| 0 <= i < s.len() ==> entries_map(s)[#[trigger] s[i].0.0] == s[i].1@,
        entries_map(s).dom().finite(),
        entries_map(s).dom().len() == s.len(),
    decreases s.len(),
{
    if s.len() > 0 {
        let d = s.drop_last();
        lemma_entries_map(d);
        assert forall|k: u64| entries_map(s).dom().contains(k) <==> exists|i: int| 0 <= i < s.len() && #[trigger] s[i].0.0 == k by {
            if entries_map(s).dom().contains(k) && k != s.last().0.0 {
                let i = choose|i: int| 0 <= i < d.len() && #[trigger] d[i].0.0 == k;
                assert(s[i].0.0 == k);
            }
            if exists|i: int| 0 <= i < s.len() && #[trigger] s[i].0.0 == k {
                let i = choose|i: int| 0 <= i < s.len() && #[trigger] s[i].0.0 == k;
                if i < s.len() - 1 {
                    assert(d[i].0.0 == k);
                }
            }
        }
        assert forall|i: int| 0 <= i < s.len() implies entries_map(s)[#[trigger] s[i].0.0] == s[i].1@ by {
            if i < s.len() - 1 {
                assert(d[i] == s[i]);
                assert(s[i].0 != s.last().0);
            }
        }
        assert(!entries_map(d).dom().contains(s.last().0.0)) by {
            if entries_map(d).dom().contains(s.last().0.0) {
                let i = choose|i: int| 0 <= i < d.len() && #[trigger] d[i].0.0 == s.last().0.0;
                assert(s[i].0 == s[s.len() - 1].0);
            }
        }
    }
}

pub proof fn lemma_entries_finite(s: Seq<(TypeVar, Type)>)
    ensures
        entries_map(s).dom().finite(),
    decreases s.len(),
{
    if s.len() > 0 {
        lemma_entries_finite(s.drop_last());
    }
}

/// A substitution mapping type variables to types.
pub struct Substitution {
    /// The mapping from type variables to types, one entry per variable
    map: Vec<(TypeVar, Type)>,
}

impl View for Substitution {
    type V = Map<u64, TypeV>;

    closed spec fn view(&self) -> Map<u64, TypeV> {
        entries_map(self.map@)
    }
}

impl Substitution {
    #[verifier::type_invariant]
    closed spec fn inv(&self) -> bool {
        distinct_keys(self.map@)
    }

    /// The domain of a substitution is finite.
    pub proof fn lemma_finite(&self)
        ensures
            self@.dom().finite(),
    {
        lemma_entries_finite(self.map@);
    }

    fn find(&self, var: TypeVar) -> (r: Option<usize>)
        ensures
            match r {
                Some(i) => i < self.map@.len() && self.map@[i as int].0 == var,
                None => !self@.dom().contains(var.0),
            },
    {
        proof {
            use_type_invariant(self);
            lemma_entries_map(self.map@);
        }
        let mut i: usize = 0;
        while i < self.map.len()
            invariant
                i <= self.map@.len(),
                forall|j: int| 0 <= j < i ==> self.map@[j].0.0 != var.0,
            decreases self.map.len() - i,
        {
            if self.map[i].0.0 == var.0 {
                return Some(i);
            }
            i += 1;
        }
        None
    }

    /// Create an empty substitution.
    pub fn new() -> (s: Self)
        ensures
            s@ == Map::<u64, TypeV>::empty(),
    {
        Substitution { map: Vec::new() }
    }

    /// Create a substitution with a single mapping.
    pub fn single(var: TypeVar, ty: Type) -> (s: Self)
        ensures
            s@ == Map::<u64, TypeV>::empty().insert(var.0, ty@),
    {
        let mut s = Self::new();
        s.insert(var, ty);
        s
    }

    /// Insert a mapping into the substitution (replacing any earlier mapping of `var`).
    pub fn insert(&mut self, var: TypeVar, ty: Type)
        ensures
            final(self)@ == old(self)@.insert(var.0, ty@),
    {
        proof {
            use_type_invariant(&*self);
            lemma_entries_map(self.map@);
        }
        let found = self.find(var);
        let mut map: Vec<(TypeVar, Type)> = Vec::new();
        std::mem::swap(&mut map, &mut self.map);
        let ghost before = map@;
        match found {
            Some(i) => {
                map.set(i, (var, ty));
                proof {
                    assert(distinct_keys(map@)) by {
                        assert forall|a: int, b: int| 0 <= a < b < map@.len() implies map@[a].0 != map@[b].0 by {
                            assert(before[a].0 != before[b].0);
                        }
                    }
                    lemma_entries_map(map@);
                    lemma_entries_map(before);
                    assert forall|k: u64| entries_map(map@).dom().contains(k) <==> entries_map(before).insert(var.0, ty@).dom().contains(k) by {
                        if entries_map(map@).dom().contains(k) {
                            let j = choose|j: int| 0 <= j < map@.len() && #[trigger] map@[j].0.0 == k;
                            if j != i { assert(before[j].0.0 == k); }
                        }
                        if entries_map(before).dom().contains(k) {
                            let j = choose|j: int| 0 <= j < before.len() && #[trigger] before[j].0.0 == k;
                            if j != i { assert(map@[j].0.0 == k); }
                        }
                        if k == var.0 {
                            assert(map@[i as int].0.0 == k);
                        }
                    }
                    assert forall|k: u64| #[trigger] entries_map(map@).dom().contains(k) implies entries_map(map@)[k] == entries_map(before).insert(var.0, ty@)[k] by {
                        let j = choose|j: int| 0 <= j < map@.len() && #[trigger] map@[j].0.0 == k;
                        if j != i {
                            assert(before[j] == map@[j]);
                        }
                    }
                    assert(entries_map(map@) =~= entries_map(before).insert(var.0, ty@));
                }
            },
            None => {
                map.push((var, ty));
                proof {
                    assert(map@.drop_last() =~= before);
                    assert forall|a: int, b: int| 0 <= a < b < map@.len() implies map@[a].0 != map@[b].0 by {
                        if b == before.len() {
                            assert(before[a].0.0 != var.0);
                        }
                    }
                }
            },
        }
        self.map = map;
    }

    /// Look up a type variable in the substitution.
    pub fn get(&self, var: TypeVar) -> (r: Option<&Type>)
        ensures
            match r {
                Some(t) => self@.dom().contains(var.0) && t@ == self@[var.0],
                None => !self@.dom().contains(var.0),
            },
    {
        proof {
            use_type_invariant(self);
            lemma_entries_map(self.map@);
        }
        match self.find(var) {
            Some(i) => Some(&self.map[i].1),
            None => None,
        }
    }

    /// Check if the substitution is empty.
    pub fn is_empty(&self) -> (b: bool)
        ensures
            b == (self@.dom().len() == 0),
    {
        proof {
            use_type_invariant(self);
            lemma_entries_map(self.map@);
        }
        self.map.len() == 0
    }

    /// Get the number of mappings in the substitution.
    pub fn len(&self) -> (n: usize)
        ensures
            n == self@.dom().len(),
    {
        proof {
            use_type_invariant(self);
            lemma_entries_map(self.map@);
        }
        self.map.len()
    }
}


impl Substitution {
    /// Apply this substitution to a type.
    ///
    /// Replaces type variables with their mapped types, recursively: a
    /// replacement is itself substituted again.
    pub fn apply(&self, ty: &Type) -> (r: Type)
        requires
            acyclic(self@),
        ensures
            r@ == dapply(self@, ty@),
        decreases rk(self@, the_rank(self@), ty@), ty@,
    {
        proof { lemma_view_unfold(*ty); }
        let ghost m = self@;
        let ghost rr = the_rank(m);
        match ty {
            Type::Var(v) => {
                match self.get(*v) {
                    Some(replacement) => {
                        assert(ranked(m, rr));
                        assert(rk(m, rr, m[v.0]) <= rr(v.0));
                        self.apply(replacement)
                    },
                    None => Type::Var(*v),
                }
            },
            Type::Con(name, args) => {
                assert(decreases_to!(ty@ => ty@->Con_1));
                let a = self.apply_seq(args);
                let r = Type::Con(name.clone(), a);
                proof { lemma_view_unfold(r); }
                r
            },
            Type::Arrow(t1, t2) => {
                assert(decreases_to!(ty@ => ty@->Arrow_0));
                assert(decreases_to!(ty@ => ty@->Arrow_1));
                let r = Type::Arrow(Box::new(self.apply(t1)), Box::new(self.apply(t2)));
                proof { lemma_view_unfold(r); }
                r
            },
            Type::Tuple(elems) => {
                assert(decreases_to!(ty@ => ty@->Tuple_0));
                let a = self.apply_seq(elems);
                let r = Type::Tuple(a);
                proof { lemma_view_unfold(r); }
                r
            },
            Type::Record(fields) => {
                assert(decreases_to!(ty@ => ty@->Record_0));
                let a = self.apply_fields(fields);
                let r = Type::Record(a);
                proof { lemma_view_unfold(r); }
                r
            },
        }
    }

    fn apply_seq(&self, ts: &Vec<Type>) -> (r: Vec<Type>)
        requires
            acyclic(self@),
        ensures
            tview_seq(r@) == dapply_seq(self@, tview_seq(ts@)),
        decreases rk_seq(self@, the_rank(self@), tview_seq(ts@)), tview_seq(ts@),
    {
        proof {
            lemma_tview_seq(ts@);
            lemma_rk_seq(self@, the_rank(self@), tview_seq(ts@));
            lemma_dapply_seq(self@, tview_seq(ts@));
        }
        let ghost s = tview_seq(ts@);
        let mut r: Vec<Type> = Vec::new();
        let mut i: usize = 0;
        while i < ts.len()
            invariant
                acyclic(self@),
                i <= ts.len(),
                s == tview_seq(ts@),
                s.len() == ts@.len(),
                forall|j: int| 0 <= j < ts@.len() ==> #[trigger] s[j] == ts@[j]@,
                forall|j: int| 0 <= j < s.len() ==> #[trigger] rk(self@, the_rank(self@), s[j]) <= rk_seq(self@, the_rank(self@), s),
                r@.len() == i,
                forall|j: int| 0 <= j < i ==> (#[trigger] r@[j])@ == dapply(self@, s[j]),
            decreases ts.len() - i,
        {
            assert(decreases_to!(s => s[i as int]));
            assert(rk(self@, the_rank(self@), s[i as int]) <= rk_seq(self@, the_rank(self@), s));
            let c = self.apply(&ts[i]);
            r.push(c);
            i += 1;
        }
        proof {
            lemma_tview_seq(r@);
            assert(tview_seq(r@) =~= dapply_seq(self@, s));
        }
        r
    }

    fn apply_fields(&self, fs: &Vec<(String, Type)>) -> (r: Vec<(String, Type)>)
        requires
            acyclic(self@),
        ensures
            tview_fields(r@) == dapply_fields(self@, tview_fields(fs@)),
        decreases rk_fields(self@, the_rank(self@), tview_fields(fs@)), tview_fields(fs@),
    {
        proof {
            lemma_tview_fields(fs@);
            lemma_rk_fields(self@, the_rank(self@), tview_fields(fs@));
            lemma_dapply_fields(self@, tview_fields(fs@));
        }
        let ghost s = tview_fields(fs@);
        let mut r: Vec<(String, Type)> = Vec::new();
        let mut i: usize = 0;
        while i < fs.len()
            invariant
                acyclic(self@),
                i <= fs.len(),
                s == tview_fields(fs@),
                s.len() == fs@.len(),
                forall|j: int| 0 <= j < fs@.len() ==> #[trigger] s[j] == (fs@[j].0@, fs@[j].1@),
                forall|j: int| 0 <= j < s.len() ==> #[trigger] rk(self@, the_rank(self@), s[j].1) <= rk_fields(self@, the_rank(self@), s),
                r@.len() == i,
                forall|j: int| 0 <= j < i ==> ((#[trigger] r@[j]).0@, r@[j].1@) == (s[j].0, dapply(self@, s[j].1)),
            decreases fs.len() - i,
        {
            assert(decreases_to!(s => s[i as int]));
            assert(decreases_to!(s[i as int] => s[i as int].1));
            assert(rk(self@, the_rank(self@), s[i as int].1) <= rk_fields(self@, the_rank(self@), s));
            let c = self.apply(&fs[i].1);
            r.push((fs[i].0.clone(), c));
            i += 1;
        }
        proof {
            lemma_tview_fields(r@);
            assert(tview_fields(r@) =~= dapply_fields(self@, s));
        }
        r
    }
}


/// `s1 ∘ s2`: the images of `s2` with `s1` applied, plus the mappings of `s1`
/// for variables `s2` does not map.
pub open spec fn compose_spec(s1: Map<u64, TypeV>, s2: Map<u64, TypeV>) -> Map<u64, TypeV> {
    Map::new(
        |v: u64| s2.dom().contains(v) || s1.dom().contains(v),
        |v: u64| if s2.dom().contains(v) { dapply(s1, s2[v]) } else { s1[v] },
    )
}

impl Clone for Substitution {
    fn clone(&self) -> (r: Self)
        ensures
            r@ == self@,
    {
        proof { use_type_invariant(self); }
        let mut map: Vec<(TypeVar, Type)> = Vec::new();
        let mut i: usize = 0;
        while i < self.map.len()
            invariant
                i <= self.map@.len(),
                map@.len() == i,
                forall|j: int| 0 <= j < i ==> (#[trigger] map@[j]).0 == self.map@[j].0 && map@[j].1@ == self.map@[j].1@,
            decreases self.map.len() - i,
        {
            map.push((self.map[i].0, self.map[i].1.clone()));
            i += 1;
        }
        proof {
            assert(distinct_keys(map@)) by {
                assert forall|a: int, b: int| 0 <= a < b < map@.len() implies map@[a].0 != map@[b].0 by {
                    assert(self.map@[a].0 != self.map@[b].0);
                }
            }
            lemma_entries_map(map@);
            lemma_entries_map(self.map@);
            assert forall|k: u64| entries_map(map@).dom().contains(k) <==> entries_map(self.map@).dom().contains(k) by {
                if entries_map(map@).dom().contains(k) {
                    let j = choose|j: int| 0 <= j < map@.len() && #[trigger] map@[j].0.0 == k;
                    assert(self.map@[j].0.0 == k);
                }
                if entries_map(self.map@).dom().contains(k) {
                    let j = choose|j: int| 0 <= j < self.map@.len() && #[trigger] self.map@[j].0.0 == k;
                    assert(map@[j].0.0 == k);
                }
            }
            assert forall|k: u64| #[trigger] entries_map(map@).dom().contains(k) implies entries_map(map@)[k] == entries_map(self.map@)[k] by {
                let j = choose|j: int| 0 <= j < map@.len() && #[trigger] map@[j].0.0 == k;
                assert(self.map@[j].0.0 == k);
            }
            assert(entries_map(map@) =~= entries_map(self.map@));
        }
        Substitution { map }
    }
}

impl Substitution {
    /// Remove the mapping of a variable, if any.
    fn remove_var(&mut self, var: TypeVar)
        ensures
            final(self)@ == old(self)@.remove(var.0),
    {
        proof {
            use_type_invariant(&*self);
            lemma_entries_map(self.map@);
        }
        let found = self.find(var);
        match found {
            Some(i) => {
                let mut map: Vec<(TypeVar, Type)> = Vec::new();
                std::mem::swap(&mut map, &mut self.map);
                let ghost before = map@;
                map.remove(i);
                proof {
                    assert(map@ =~= before.remove(i as int));
                    assert(distinct_keys(map@)) by {
                        assert forall|a: int, b: int| 0 <= a < b < map@.len() implies map@[a].0 != map@[b].0 by {
                            let a2 = if a < i { a } else { a + 1 };
                            let b2 = if b < i { b } else { b + 1 };
                            assert(map@[a] == before[a2]);
                            assert(map@[b] == before[b2]);
                        }
                    }
                    lemma_entries_map(map@);
                    lemma_entries_map(before);
                    assert forall|k: u64| entries_map(map@).dom().contains(k) <==> entries_map(before).remove(var.0).dom().contains(k) by {
                        if entries_map(map@).dom().contains(k) {
                            let j = choose|j: int| 0 <= j < map@.len() && #[trigger] map@[j].0.0 == k;
                            let j2 = if j < i { j } else { j + 1 };
                            assert(map@[j] == before[j2]);
                            assert(before[j2].0 != before[i as int].0);
                        }
                        if entries_map(before).remove(var.0).dom().contains(k) {
                            let j = choose|j: int| 0 <= j < before.len() && #[trigger] before[j].0.0 == k;
                            assert(j != i);
                            let j2 = if j < i { j } else { j - 1 };
                            assert(map@[j2] == before[j]);
                        }
                    }
                    assert forall|k: u64| #[trigger] entries_map(map@).dom().contains(k) implies entries_map(map@)[k] == entries_map(before).remove(var.0)[k] by {
                        let j = choose|j: int| 0 <= j < map@.len() && #[trigger] map@[j].0.0 == k;
                        let j2 = if j < i { j } else { j + 1 };
                        assert(map@[j] == before[j2]);
                    }
                    assert(entries_map(map@) =~= entries_map(before).remove(var.0));
                }
                self.map = map;
            },
            None => {
                assert(self@ =~= old(self)@.remove(var.0));
            },
        }
    }

    /// Compose two substitutions: `self ∘ other`
    ///
    /// Applying the result is equivalent to applying `other` first,
    /// then applying `self`.
    #[verifier::loop_isolation(false)]
    pub fn compose(&self, other: &Substitution) -> (r: Substitution)
        requires
            acyclic(self@),
        ensures
            r@ == compose_spec(self@, other@),
    {
        proof {
            use_type_invariant(self);
            use_type_invariant(other);
            lemma_entries_map(other.map@);
            lemma_entries_map(self.map@);
        }
        let mut result = Substitution::new();
        let mut i: usize = 0;
        while i < other.map.len()
            invariant
                acyclic(self@),
                i <= other.map@.len(),
                distinct_keys(other.map@),
                forall|k: u64| #[trigger] result@.dom().contains(k) <==> exists|j: int| 0 <= j < i && #[trigger] other.map@[j].0.0 == k,
                forall|j: int| 0 <= j < i ==> result@[#[trigger] other.map@[j].0.0] == dapply(self@, other.map@[j].1@),
            decreases other.map.len() - i,
        {
            let t = self.apply(&other.map[i].1);
            result.insert(other.map[i].0, t);
            proof {
                assert forall|k: u64| #[trigger] result@.dom().contains(k) <==> exists|j: int| 0 <= j < i + 1 && #[trigger] other.map@[j].0.0 == k by {
                    if k == other.map@[i as int].0.0 {
                        assert(other.map@[i as int].0.0 == k);
                    }
                }
                assert forall|j: int| 0 <= j < i + 1 implies result@[#[trigger] other.map@[j].0.0] == dapply(self@, other.map@[j].1@) by {
                    if j < i {
                        assert(other.map@[j].0 != other.map@[i as int].0);
                    }
                }
            }
            i += 1;
        }
        let mut k: usize = 0;
        while k < self.map.len()
            invariant
                k <= self.map@.len(),
                distinct_keys(other.map@),
                distinct_keys(self.map@),
                forall|x: u64| #[trigger] result@.dom().contains(x) <==> (other@.dom().contains(x) || exists|j: int| 0 <= j < k && #[trigger] self.map@[j].0.0 == x),
                forall|x: u64| #[trigger] other@.dom().contains(x) ==> result@[x] == dapply(self@, other@[x]),
                forall|j: int| 0 <= j < k && !other@.dom().contains(#[trigger] self.map@[j].0.0) ==> result@[self.map@[j].0.0] == self.map@[j].1@,
            decreases self.map.len() - k,
        {
            let ghost prev = result@;
            if other.find(self.map[k].0).is_none() {
                let t = self.map[k].1.clone();
                result.insert(self.map[k].0, t);
            } else {
                assert(other@.dom().contains(self.map@[k as int].0.0));
            }
            proof {
                assert forall|x: u64| #[trigger] result@.dom().contains(x) <==> (other@.dom().contains(x) || exists|j: int| 0 <= j < k + 1 && #[trigger] self.map@[j].0.0 == x) by {
                    if x == self.map@[k as int].0.0 {
                        assert(self.map@[k as int].0.0 == x);
                    }
                }
                assert forall|j: int| 0 <= j < k + 1 && !other@.dom().contains(#[trigger] self.map@[j].0.0) implies result@[self.map@[j].0.0] == self.map@[j].1@ by {
                    if j < k {
                        assert(self.map@[j].0 != self.map@[k as int].0);
                    }
                }
            }
            k += 1;
        }
        proof {
            assert forall|x: u64| #[trigger] result@.dom().contains(x) <==> compose_spec(self@, other@).dom().contains(x) by {
                if self@.dom().contains(x) {
                    let j = choose|j: int| 0 <= j < self.map@.len() && #[trigger] self.map@[j].0.0 == x;
                }
            }
            assert forall|x: u64| #[trigger] result@.dom().contains(x) implies result@[x] == compose_spec(self@, other@)[x] by {
                if !other@.dom().contains(x) {
                    let j = choose|j: int| 0 <= j < self.map@.len() && #[trigger] self.map@[j].0.0 == x;
                }
            }
            assert(result@ =~= compose_spec(self@, other@));
        }
        result
    }

    /// Extend this substitution with another.
    ///
    /// The other substitution's mappings are added, and existing
    /// mappings in self are updated by applying the other substitution.
    #[verifier::loop_isolation(false)]
    pub fn extend(&mut self, other: &Substitution)
        requires
            acyclic(other@),
        ensures
            final(self)@ == compose_spec(other@, old(self)@),
    {
        proof {
            use_type_invariant(&*self);
            use_type_invariant(other);
            lemma_entries_map(self.map@);
            lemma_entries_map(other.map@);
        }
        let mut map: Vec<(TypeVar, Type)> = Vec::new();
        std::mem::swap(&mut map, &mut self.map);
        let ghost before = map@;
        let mut i: usize = 0;
        while i < map.len()
            invariant
                acyclic(other@),
                i <= map@.len(),
                map@.len() == before.len(),
                forall|j: int| 0 <= j < map@.len() ==> (#[trigger] map@[j]).0 == before[j].0,
                forall|j: int| 0 <= j < i ==> (#[trigger] map@[j]).1@ == dapply(other@, before[j].1@),
                forall|j: int| i <= j < map@.len() ==> (#[trigger] map@[j]).1@ == before[j].1@,
            decreases map.len() - i,
        {
            let t = other.apply(&map[i].1);
            let key = map[i].0;
            map.set(i, (key, t));
            i += 1;
        }
        proof {
            assert(distinct_keys(map@)) by {
                assert forall|a: int, b: int| 0 <= a < b < map@.len() implies map@[a].0 != map@[b].0 by {
                    assert(before[a].0 != before[b].0);
                }
            }
        }
        self.map = map;
        proof {
            lemma_entries_map(self.map@);
            lemma_entries_map(before);
            assert forall|x: u64| #[trigger] self@.dom().contains(x) <==> entries_map(before).dom().contains(x) by {
                if self@.dom().contains(x) {
                    let j = choose|j: int| 0 <= j < self.map@.len() && #[trigger] self.map@[j].0.0 == x;
                    assert(before[j].0.0 == x);
                }
                if entries_map(before).dom().contains(x) {
                    let j = choose|j: int| 0 <= j < before.len() && #[trigger] before[j].0.0 == x;
                    assert(self.map@[j].0.0 == x);
                }
            }
            assert forall|x: u64| #[trigger] entries_map(before).dom().contains(x) implies self@[x] == dapply(other@, entries_map(before)[x]) by {
                let j = choose|j: int| 0 <= j < before.len() && #[trigger] before[j].0.0 == x;
                assert(self.map@[j].0.0 == x);
                assert(self@[self.map@[j].0.0] == self.map@[j].1@);
                assert(entries_map(before)[before[j].0.0] == before[j].1@);
            }
        }
        let mut k: usize = 0;
        while k < other.map.len()
            invariant
                k <= other.map@.len(),
                distinct_keys(other.map@),
                forall|x: u64| #[trigger] self@.dom().contains(x) <==> (entries_map(before).dom().contains(x) || exists|j: int| 0 <= j < k && #[trigger] other.map@[j].0.0 == x),
                forall|x: u64| #[trigger] entries_map(before).dom().contains(x) ==> self@[x] == dapply(other@, entries_map(before)[x]),
                forall|j: int| 0 <= j < k && !entries_map(before).dom().contains(#[trigger] other.map@[j].0.0) ==> self@[other.map@[j].0.0] == other.map@[j].1@,
            decreases other.map.len() - k,
        {
            let key = other.map[k].0;
            let ghost prev = self@;
            if self.find(key).is_none() {
                let t = other.map[k].1.clone();
                self.insert(key, t);
            } else {
                proof {
                    use_type_invariant(&*self);
                    lemma_entries_map(self.map@);
                }
                assert(self@.dom().contains(key.0));
            }
            proof {
                assert forall|x: u64| #[trigger] self@.dom().contains(x) <==> (entries_map(before).dom().contains(x) || exists|j: int| 0 <= j < k + 1 && #[trigger] other.map@[j].0.0 == x) by {
                    if x == other.map@[k as int].0.0 {
                        assert(other.map@[k as int].0.0 == x);
                    }
                }
                assert forall|j: int| 0 <= j < k + 1 && !entries_map(before).dom().contains(#[trigger] other.map@[j].0.0) implies self@[other.map@[j].0.0] == other.map@[j].1@ by {
                    if j < k {
                        assert(other.map@[j].0 != other.map@[k as int].0);
                    }
                }
            }
            k += 1;
        }
        proof {
            assert forall|x: u64| #[trigger] self@.dom().contains(x) <==> compose_spec(other@, entries_map(before)).dom().contains(x) by {
                if other@.dom().contains(x) {
                    let j = choose|j: int| 0 <= j < other.map@.len() && #[trigger] other.map@[j].0.0 == x;
                }
            }
            assert forall|x: u64| #[trigger] self@.dom().contains(x) implies self@[x] == compose_spec(other@, entries_map(before))[x] by {
                if !entries_map(before).dom().contains(x) {
                    let j = choose|j: int| 0 <= j < other.map@.len() && #[trigger] other.map@[j].0.0 == x;
                }
            }
            assert(self@ =~= compose_spec(other@, entries_map(before)));
        }
    }

    /// All mappings, in insertion order.
    pub fn iter(&self) -> (r: Vec<(TypeVar, &Type)>)
        ensures
            r@.len() == self@.dom().len(),
            forall|i: int| 0 <= i < r@.len() ==> self@.dom().contains((#[trigger] r@[i]).0.0) && r@[i].1@ == self@[r@[i].0.0],
            forall|k: u64| self@.dom().contains(k) ==> exists|i: int| 0 <= i < r@.len() && #[trigger] r@[i].0.0 == k,
    {
        proof {
            use_type_invariant(self);
            lemma_entries_map(self.map@);
        }
        let mut r: Vec<(TypeVar, &Type)> = Vec::new();
        let mut i: usize = 0;
        while i < self.map.len()
            invariant
                i <= self.map@.len(),
                r@.len() == i,
                forall|j: int| 0 <= j < i ==> (#[trigger] r@[j]).0 == self.map@[j].0 && r@[j].1@ == self.map@[j].1@,
            decreases self.map.len() - i,
        {
            r.push((self.map[i].0, &self.map[i].1));
            i += 1;
        }
        proof {
            assert forall|k: u64| self@.dom().contains(k) implies exists|i: int| 0 <= i < r@.len() && #[trigger] r@[i].0.0 == k by {
                let j = choose|j: int| 0 <= j < self.map@.len() && #[trigger] self.map@[j].0.0 == k;
                assert(r@[j].0.0 == k);
            }
        }
        r
    }
}


/// The counter after handing out `k` variables.
pub open spec fn advance(n: u64, k: nat) -> u64
    decreases k,
{
    if k == 0 {
        n
    } else {
        next_after(advance(n, (k - 1) as nat))
    }
}

/// The renaming that instantiation builds: the i-th quantified variable goes to
/// the i-th fresh variable (a later duplicate wins, as with repeated insertion).
pub open spec fn inst_map(vars: Seq<TypeVar>, n: u64) -> Map<u64, TypeV>
    decreases vars.len(),
{
    if vars.len() == 0 {
        Map::empty()
    } else {
        inst_map(vars.drop_last(), n).insert(vars.last().0, TypeV::Var(advance(n, (vars.len() - 1) as nat)))
    }
}

/// The i-th fresh variable handed out from counter value `n`.
pub open spec fn fresh_var(n: u64, i: int) -> TypeV {
    TypeV::Var(advance(n, i as nat))
}

/// Fresh variables handed out from below `u64::MAX` are the counter plus their index.
pub proof fn lemma_advance(n: u64, k: nat)
    requires
        n + k <= u64::MAX,
    ensures
        advance(n, k) == n + k,
    decreases k,
{
    if k > 0 {
        lemma_advance(n, (k - 1) as nat);
    }
}

pub proof fn lemma_inst_map(vars: Seq<TypeVar>, n: u64)
    ensures
        inst_map(vars, n).dom() == var_ids(vars),
        forall|k: u64| #[trigger] inst_map(vars, n).dom().contains(k) ==> exists|i: int| 0 <= i < vars.len() && inst_map(vars, n)[k] == #[trigger] fresh_var(n, i),
    decreases vars.len(),
{
    if vars.len() > 0 {
        let d = vars.drop_last();
        lemma_inst_map(d, n);
        assert(vars == d.push(vars.last()));
        super::repr::lemma_var_ids_push(d, vars.last());
        assert forall|k: u64| #[trigger] inst_map(vars, n).dom().contains(k) implies exists|i: int| 0 <= i < vars.len() && inst_map(vars, n)[k] == #[trigger] fresh_var(n, i) by {
            if k == vars.last().0 {
                assert(inst_map(vars, n)[k] == fresh_var(n, vars.len() - 1));
            } else {
                let i = choose|i: int| 0 <= i < d.len() && inst_map(d, n)[k] == #[trigger] fresh_var(n, i);
                assert(inst_map(vars, n)[k] == fresh_var(n, i));
            }
        }
    }
}

/// Instantiation is well defined (its renaming is acyclic) when every quantified
/// variable lies below the supply's counter and the counter does not wrap.
pub proof fn lemma_inst_map_acyclic(vars: Seq<TypeVar>, n: u64)
    requires
        forall|i: int| 0 <= i < vars.len() ==> (#[trigger] vars[i]).0 < n,
        n + vars.len() <= u64::MAX,
    ensures
        acyclic(inst_map(vars, n)),
{
    let m = inst_map(vars, n);
    lemma_inst_map(vars, n);
    let r = |v: u64| 0nat;
    assert forall|v: u64| #[trigger] m.dom().contains(v) implies rk(m, r, m[v]) <= r(v) by {
        let i = choose|i: int| 0 <= i < vars.len() && m[v] == #[trigger] fresh_var(n, i);
        lemma_advance(n, i as nat);
        let w = advance(n, i as nat);
        assert(!m.dom().contains(w)) by {
            if m.dom().contains(w) {
                assert(var_ids(vars).contains(w));
                let j = choose|j: int| 0 <= j < vars.len() && vars[j].0 == w;
                assert(vars[j].0 < n);
            }
        }
    }
    assert(ranked(m, r));
}

impl TypeScheme {
    /// Instantiate this type scheme with fresh type variables.
    ///
    /// Replaces each quantified variable with a fresh type variable.
    pub fn instantiate(&self, supply: &mut TypeVarSupply) -> (r: Type)
        requires
            acyclic(inst_map(self.vars@, old(supply).next_id())),
        ensures
            r@ == dapply(inst_map(self.vars@, old(supply).next_id()), self.ty@),
            final(supply).next_id() == advance(old(supply).next_id(), self.vars@.len()),
    {
        let ghost n = supply.next_id();
        if self.vars.len() == 0 {
            proof {
                assert(inst_map(self.vars@, n) == Map::<u64, TypeV>::empty());
                lemma_dapply_noop(Map::<u64, TypeV>::empty(), self.ty@);
            }
            return self.ty.clone();
        }
        let mut subst = Substitution::new();
        let mut i: usize = 0;
        while i < self.vars.len()
            invariant
                i <= self.vars@.len(),
                subst@ == inst_map(self.vars@.take(i as int), n),
                supply.next_id() == advance(n, i as nat),
            decreases self.vars.len() - i,
        {
            let ghost before = supply.next_id();
            let fresh = Type::var(supply);
            subst.insert(self.vars[i], fresh);
            proof {
                assert(self.vars@.take(i + 1).drop_last() =~= self.vars@.take(i as int));
            }
            i += 1;
        }
        proof {
            assert(self.vars@.take(i as int) =~= self.vars@);
        }
        subst.apply(&self.ty)
    }
}

impl TypeScheme {
    /// Instantiate this type scheme with fresh type variables, where the renaming is
    /// acyclic (`None` where it is not, as when a quantified variable is itself one of the
    /// fresh ones).
    pub fn instantiate_checked(&self, supply: &mut TypeVarSupply) -> (r: Option<Type>)
        ensures
            match r {
                Some(t) => acyclic(inst_map(self.vars@, old(supply).next_id()))
                    && t@ == dapply(inst_map(self.vars@, old(supply).next_id()), self.ty@),
                None => self.vars@.len() > 0,
            },
            idempotent(inst_map(self.vars@, old(supply).next_id())) ==> r is Some,
            final(supply).next_id() == advance(old(supply).next_id(), self.vars@.len()),
    {
        let ghost n = supply.next_id();
        if self.vars.len() == 0 {
            proof {
                assert(inst_map(self.vars@, n) == Map::<u64, TypeV>::empty());
                lemma_dapply_noop(Map::<u64, TypeV>::empty(), self.ty@);
                lemma_idempotent_acyclic(Map::<u64, TypeV>::empty());
            }
            return Some(self.ty.clone());
        }
        let mut subst = Substitution::new();
        let mut i: usize = 0;
        while i < self.vars.len()
            invariant
                i <= self.vars@.len(),
                subst@ == inst_map(self.vars@.take(i as int), n),
                supply.next_id() == advance(n, i as nat),
            decreases self.vars.len() - i,
        {
            let fresh = Type::var(supply);
            subst.insert(self.vars[i], fresh);
            proof {
                assert(self.vars@.take(i + 1).drop_last() =~= self.vars@.take(i as int));
            }
            i += 1;
        }
        proof {
            assert(self.vars@.take(i as int) =~= self.vars@);
        }
        if subst.is_acyclic() {
            Some(subst.apply(&self.ty))
        } else {
            None
        }
    }
}

impl Substitution {
    /// Apply this substitution to a type scheme.
    ///
    /// Only applies to free variables (not the quantified ones).
    pub fn apply_scheme(&self, scheme: &TypeScheme) -> (r: TypeScheme)
        requires
            acyclic(self@.remove_keys(var_ids(scheme.vars@))),
        ensures
            r.vars@ == scheme.vars@,
            r.ty@ == dapply(self@.remove_keys(var_ids(scheme.vars@)), scheme.ty@),
    {
        let mut filtered = self.clone();
        let mut i: usize = 0;
        while i < scheme.vars.len()
            invariant
                i <= scheme.vars@.len(),
                filtered@ == self@.remove_keys(var_ids(scheme.vars@.take(i as int))),
            decreases scheme.vars.len() - i,
        {
            filtered.remove_var(scheme.vars[i]);
            proof {
                assert(scheme.vars@.take(i + 1) =~= scheme.vars@.take(i as int).push(scheme.vars@[i as int]));
                super::repr::lemma_var_ids_push(scheme.vars@.take(i as int), scheme.vars@[i as int]);
                assert(filtered@ =~= self@.remove_keys(var_ids(scheme.vars@.take(i + 1))));
            }
            i += 1;
        }
        proof {
            assert(scheme.vars@.take(i as int) =~= scheme.vars@);
        }
        let ty = filtered.apply(&scheme.ty);
        let vars = scheme.clone().vars;
        TypeScheme { vars, ty }
    }
}


// ========== Composition of idempotent substitutions ==========

/// `outer ∘ inner` for idempotent substitutions whose images do not clash: the result is
/// idempotent, one-step, and applying it is applying `inner` and then `outer`.
pub proof fn lemma_compose_idempotent(outer: Map<u64, TypeV>, inner: Map<u64, TypeV>)
    requires
        idempotent(inner),
        idempotent(outer),
        range_vars(outer).disjoint(inner.dom()),
    ensures
        compose_spec(outer, inner) == scompose(outer, inner),
        idempotent(compose_spec(outer, inner)),
        compose_spec(outer, inner).dom() == inner.dom().union(outer.dom()),
        range_vars(compose_spec(outer, inner)).subset_of(range_vars(inner).union(range_vars(outer))),
        forall|t: TypeV| #[trigger] dapply(compose_spec(outer, inner), t) == sapply(outer, sapply(inner, t)),
{
    let c = compose_spec(outer, inner);
    assert forall|v: u64| #[trigger] inner.dom().contains(v) implies c[v] == sapply(outer, inner[v]) by {
        lemma_dapply_idempotent(outer, inner[v]);
    }
    assert(c =~= scompose(outer, inner));
    assert forall|v: u64| #[trigger] c.dom().contains(v) implies fv(c[v]).disjoint(c.dom()) && fv(c[v]).subset_of(range_vars(inner).union(range_vars(outer))) by {
        if inner.dom().contains(v) {
            lemma_sapply_fv(outer, inner[v]);
            assert forall|x: u64| #[trigger] fv(c[v]).contains(x) implies !c.dom().contains(x) && range_vars(inner).union(range_vars(outer)).contains(x) by {
                assert(sapply_fv_pred(outer, fv(inner[v]), x));
                if fv(inner[v]).contains(x) && !outer.dom().contains(x) {
                    assert(inner.dom().contains(v));
                    assert(!inner.dom().contains(x));
                    assert(range_vars(inner).contains(x));
                } else {
                    let w = choose|w: u64| fv(inner[v]).contains(w) && #[trigger] outer.dom().contains(w) && fv(outer[w]).contains(x);
                    assert(range_vars(outer).contains(x));
                    assert(!outer.dom().contains(x));
                }
            }
        } else {
            assert forall|x: u64| #[trigger] fv(c[v]).contains(x) implies !c.dom().contains(x) && range_vars(inner).union(range_vars(outer)).contains(x) by {
                assert(outer.dom().contains(v));
                assert(range_vars(outer).contains(x));
                assert(!outer.dom().contains(x));
            }
        }
    }
    assert(c.dom() =~= inner.dom().union(outer.dom()));
    assert forall|x: u64| #[trigger] range_vars(c).contains(x) implies range_vars(inner).union(range_vars(outer)).contains(x) by {
        let v = choose|v: u64| #[trigger] c.dom().contains(v) && fv(c[v]).contains(x);
    }
    assert forall|t: TypeV| #[trigger] dapply(compose_spec(outer, inner), t) == sapply(outer, sapply(inner, t)) by {
        lemma_dapply_idempotent(c, t);
        lemma_sapply_compose(outer, inner, t);
    }
}

/// Law: applying `s1.compose(s2)` is applying `s2` and then `s1`, for idempotent
/// substitutions where the images of `s1` avoid the variables `s2` replaces.
pub proof fn law_compose_applies_in_sequence(s1: Map<u64, TypeV>, s2: Map<u64, TypeV>, t: TypeV)
    requires
        idempotent(s1),
        idempotent(s2),
        range_vars(s1).disjoint(s2.dom()),
    ensures
        dapply(compose_spec(s1, s2), t) == dapply(s1, dapply(s2, t)),
        idempotent(compose_spec(s1, s2)),
{
    lemma_compose_idempotent(s1, s2);
    lemma_dapply_idempotent(s2, t);
    lemma_dapply_idempotent(s1, sapply(s2, t));
}

/// Law: after `s.extend(other)`, applying `s` is applying the old `s` and then `other`,
/// for idempotent substitutions where the images of `other` avoid the variables `s` replaces.
pub proof fn law_extend_applies_in_sequence(s: Map<u64, TypeV>, other: Map<u64, TypeV>, t: TypeV)
    requires
        idempotent(s),
        idempotent(other),
        range_vars(other).disjoint(s.dom()),
    ensures
        dapply(compose_spec(other, s), t) == dapply(other, dapply(s, t)),
{
    law_compose_applies_in_sequence(other, s, t);
}

/// Law: an idempotent substitution is applied in one step, and what it produces
/// mentions none of the variables it replaces.
pub proof fn law_idempotent_apply(m: Map<u64, TypeV>, t: TypeV)
    requires
        idempotent(m),
    ensures
        dapply(m, t) == sapply(m, t),
        fv(dapply(m, t)).disjoint(m.dom()),
        acyclic(m),
{
    lemma_dapply_idempotent(m, t);
    lemma_idempotent_acyclic(m);
    lemma_sapply_fv(m, t);
    assert forall|x: u64| #[trigger] fv(sapply(m, t)).contains(x) implies !m.dom().contains(x) by {
        assert(sapply_fv_pred(m, fv(t), x));
        if !(fv(t).contains(x) && !m.dom().contains(x)) {
            let w = choose|w: u64| fv(t).contains(w) && #[trigger] m.dom().contains(w) && fv(m[w]).contains(x);
        }
    }
}

/// None of the fresh variables that instantiating `vars` from `n` hands out is itself one
/// of `vars`.
pub open spec fn fresh_apart(vars: Seq<TypeVar>, n: u64) -> bool {
    forall|j: int, k: int| 0 <= j < vars.len() && 0 <= k < vars.len() ==> #[trigger] vars[j].0 != #[trigger] advance(n, k as nat)
}

/// What the renaming of an instantiation maps: each quantified variable, to one of the
/// fresh variables.
proof fn lemma_inst_map_shape(vars: Seq<TypeVar>, n: u64)
    ensures
        forall|x: u64| #[trigger] inst_map(vars, n).dom().contains(x) ==> (exists|j: int| 0 <= j < vars.len() && #[trigger] vars[j].0 == x)
            && (exists|k: int| 0 <= k < vars.len() && inst_map(vars, n)[x] == TypeV::Var(#[trigger] advance(n, k as nat))),
    decreases vars.len(),
{
    if vars.len() > 0 {
        lemma_inst_map_shape(vars.drop_last(), n);
        assert forall|x: u64| #[trigger] inst_map(vars, n).dom().contains(x) implies (exists|j: int| 0 <= j < vars.len() && #[trigger] vars[j].0 == x)
            && (exists|k: int| 0 <= k < vars.len() && inst_map(vars, n)[x] == TypeV::Var(#[trigger] advance(n, k as nat))) by {
            if x == vars.last().0 {
                assert(vars[vars.len() - 1].0 == x);
                assert(inst_map(vars, n)[x] == TypeV::Var(advance(n, (vars.len() - 1) as nat)));
            } else {
                assert(inst_map(vars.drop_last(), n).dom().contains(x));
                let j = choose|j: int| 0 <= j < vars.drop_last().len() && #[trigger] vars.drop_last()[j].0 == x;
                assert(vars[j].0 == x);
                let k = choose|k: int| 0 <= k < vars.drop_last().len() && inst_map(vars.drop_last(), n)[x] == TypeV::Var(#[trigger] advance(n, k as nat));
                assert(inst_map(vars, n)[x] == TypeV::Var(advance(n, k as nat)));
            }
        }
    }
}

/// Law: where none of the fresh variables is one of the quantified ones, the renaming of
/// an instantiation is idempotent (so instantiating succeeds).
pub proof fn law_fresh_apart_idempotent(vars: Seq<TypeVar>, n: u64)
    requires
        fresh_apart(vars, n),
    ensures
        idempotent(inst_map(vars, n)),
{
    let m = inst_map(vars, n);
    lemma_inst_map_shape(vars, n);
    assert forall|v: u64| #[trigger] m.dom().contains(v) implies fv(m[v]).disjoint(m.dom()) by {
        let k = choose|k: int| 0 <= k < vars.len() && m[v] == TypeV::Var(#[trigger] advance(n, k as nat));
        assert(fv(m[v]) =~= set![advance(n, k as nat)]);
        if m.dom().contains(advance(n, k as nat)) {
            let j = choose|j: int| 0 <= j < vars.len() && #[trigger] vars[j].0 == advance(n, k as nat);
            assert(vars[j].0 != advance(n, k as nat));
        }
    }
}

/// Without wrapping, the counter after `k` variables is `n + k`.
proof fn lemma_advance_plain(n: u64, k: nat)
    requires
        n as nat + k <= u64::MAX as nat,
    ensures
        advance(n, k) as nat == n as nat + k,
    decreases k,
{
    if k > 0 {
        lemma_advance_plain(n, (k - 1) as nat);
    }
}

/// Law: a supply that stands above every quantified variable, with room for as many fresh
/// ones, hands out none of them, so instantiating succeeds.
pub proof fn law_fresh_above_apart(vars: Seq<TypeVar>, n: u64)
    requires
        forall|i: int| 0 <= i < vars.len() ==> (#[trigger] vars[i]).0 < n,
        n as nat + vars.len() <= u64::MAX as nat,
    ensures
        fresh_apart(vars, n),
        idempotent(inst_map(vars, n)),
{
    assert forall|j: int, k: int| 0 <= j < vars.len() && 0 <= k < vars.len() implies #[trigger] vars[j].0 != #[trigger] advance(n, k as nat) by {
        lemma_advance_plain(n, k as nat);
    }
    law_fresh_apart_idempotent(vars, n);
}

/// Law: after `extend`, a variable the substitution mapped maps to its old image with
/// the other substitution applied; a variable only the other one mapped keeps the other's
/// image; no other variable is mapped.
pub proof fn law_extend_mappings(s0: Map<u64, TypeV>, other: Map<u64, TypeV>, v: u64)
    ensures
        compose_spec(other, s0).dom().contains(v) <==> (s0.dom().contains(v) || other.dom().contains(v)),
        s0.dom().contains(v) ==> compose_spec(other, s0)[v] == dapply(other, s0[v]),
        (!s0.dom().contains(v) && other.dom().contains(v)) ==> compose_spec(other, s0)[v] == other[v],
{
}

/// Law: whatever an acyclic substitution produces mentions none of the variables it
/// replaces, so applying it a second time changes nothing.
pub proof fn law_acyclic_apply(m: Map<u64, TypeV>, t: TypeV)
    requires
        acyclic(m),
    ensures
        fv(dapply(m, t)).disjoint(m.dom()),
        dapply(m, dapply(m, t)) == dapply(m, t),
{
    super::model::lemma_dapply_clears(m, t);
    lemma_dapply_noop(m, dapply(m, t));
}

// ========== Composition with an acyclic substitution ==========

/// Exhaustive substitution brings in no variable that neither the type nor the images mention.
proof fn lemma_dapply_avoids(m: Map<u64, TypeV>, d: Set<u64>, t: TypeV)
    requires
        acyclic(m),
        fv(t).disjoint(d),
        range_vars(m).disjoint(d),
    ensures
        fv(dapply(m, t)).disjoint(d),
    decreases rk(m, the_rank(m), t), t,
{
    assert(ranked(m, the_rank(m)));
    match t {
        TypeV::Var(v) => {
            if m.dom().contains(v) {
                assert(rk(m, the_rank(m), m[v]) <= the_rank(m)(v));
                assert forall|x: u64| fv(m[v]).contains(x) implies !d.contains(x) by {
                    assert(range_vars(m).contains(x));
                }
                lemma_dapply_avoids(m, d, m[v]);
            }
        },
        TypeV::Con(_, args) => { lemma_dapply_avoids_seq(m, d, args); },
        TypeV::Arrow(a, b) => {
            lemma_dapply_avoids(m, d, *a);
            lemma_dapply_avoids(m, d, *b);
        },
        TypeV::Tuple(es) => { lemma_dapply_avoids_seq(m, d, es); },
        TypeV::Record(fs) => { lemma_dapply_avoids_fields(m, d, fs); },
    }
}

proof fn lemma_dapply_avoids_seq(m: Map<u64, TypeV>, d: Set<u64>, s: Seq<TypeV>)
    requires
        acyclic(m),
        fv_seq(s).disjoint(d),
        range_vars(m).disjoint(d),
    ensures
        fv_seq(dapply_seq(m, s)).disjoint(d),
    decreases rk_seq(m, the_rank(m), s), s,
{
    if s.len() > 0 {
        lemma_dapply_avoids_seq(m, d, s.drop_last());
        lemma_dapply_avoids(m, d, s.last());
        assert(dapply_seq(m, s).drop_last() =~= dapply_seq(m, s.drop_last()));
    }
}

proof fn lemma_dapply_avoids_fields(m: Map<u64, TypeV>, d: Set<u64>, s: Seq<(Seq<char>, TypeV)>)
    requires
        acyclic(m),
        fv_fields(s).disjoint(d),
        range_vars(m).disjoint(d),
    ensures
        fv_fields(dapply_fields(m, s)).disjoint(d),
    decreases rk_fields(m, the_rank(m), s), s,
{
    if s.len() > 0 {
        lemma_dapply_avoids_fields(m, d, s.drop_last());
        lemma_dapply_avoids(m, d, s.last().1);
        assert(dapply_fields(m, s).drop_last() =~= dapply_fields(m, s.drop_last()));
    }
}

/// Two rankings give a type the same rank where they agree on its variables.
proof fn lemma_rk_agree(m: Map<u64, TypeV>, r: spec_fn(u64) -> nat, m2: Map<u64, TypeV>, r2: spec_fn(u64) -> nat, t: TypeV)
    requires
        forall|w: u64| #[trigger] fv(t).contains(w) ==> (m.dom().contains(w) == m2.dom().contains(w)
            && (m.dom().contains(w) ==> r(w) == r2(w))),
    ensures
        rk(m, r, t) == rk(m2, r2, t),
    decreases t,
{
    match t {
        TypeV::Var(v) => { assert(fv(t).contains(v)); },
        TypeV::Con(_, args) => {
            assert forall|w: u64| #[trigger] fv_seq(args).contains(w) implies (m.dom().contains(w) == m2.dom().contains(w) && (m.dom().contains(w) ==> r(w) == r2(w))) by {
                assert(fv(t).contains(w));
            }
            lemma_rk_agree_seq(m, r, m2, r2, args);
        },
        TypeV::Arrow(a, b) => {
            assert forall|w: u64| #[trigger] fv(*a).contains(w) implies (m.dom().contains(w) == m2.dom().contains(w) && (m.dom().contains(w) ==> r(w) == r2(w))) by {
                assert(fv(t).contains(w));
            }
            assert forall|w: u64| #[trigger] fv(*b).contains(w) implies (m.dom().contains(w) == m2.dom().contains(w) && (m.dom().contains(w) ==> r(w) == r2(w))) by {
                assert(fv(t).contains(w));
            }
            lemma_rk_agree(m, r, m2, r2, *a);
            lemma_rk_agree(m, r, m2, r2, *b);
        },
        TypeV::Tuple(es) => {
            assert forall|w: u64| #[trigger] fv_seq(es).contains(w) implies (m.dom().contains(w) == m2.dom().contains(w) && (m.dom().contains(w) ==> r(w) == r2(w))) by {
                assert(fv(t).contains(w));
            }
            lemma_rk_agree_seq(m, r, m2, r2, es);
        },
        TypeV::Record(fs) => {
            assert forall|w: u64| #[trigger] fv_fields(fs).contains(w) implies (m.dom().contains(w) == m2.dom().contains(w) && (m.dom().contains(w) ==> r(w) == r2(w))) by {
                assert(fv(t).contains(w));
            }
            lemma_rk_agree_fields(m, r, m2, r2, fs);
        },
    }
}

proof fn lemma_rk_agree_seq(m: Map<u64, TypeV>, r: spec_fn(u64) -> nat, m2: Map<u64, TypeV>, r2: spec_fn(u64) -> nat, s: Seq<TypeV>)
    requires
        forall|w: u64| #[trigger] fv_seq(s).contains(w) ==> (m.dom().contains(w) == m2.dom().contains(w)
            && (m.dom().contains(w) ==> r(w) == r2(w))),
    ensures
        rk_seq(m, r, s) == rk_seq(m2, r2, s),
    decreases s,
{
    if s.len() > 0 {
        assert forall|w: u64| #[trigger] fv_seq(s.drop_last()).contains(w) implies (m.dom().contains(w) == m2.dom().contains(w) && (m.dom().contains(w) ==> r(w) == r2(w))) by {
            assert(fv_seq(s).contains(w));
        }
        assert forall|w: u64| #[trigger] fv(s.last()).contains(w) implies (m.dom().contains(w) == m2.dom().contains(w) && (m.dom().contains(w) ==> r(w) == r2(w))) by {
            assert(fv_seq(s).contains(w));
        }
        lemma_rk_agree_seq(m, r, m2, r2, s.drop_last());
        lemma_rk_agree(m, r, m2, r2, s.last());
    }
}

proof fn lemma_rk_agree_fields(m: Map<u64, TypeV>, r: spec_fn(u64) -> nat, m2: Map<u64, TypeV>, r2: spec_fn(u64) -> nat, s: Seq<(Seq<char>, TypeV)>)
    requires
        forall|w: u64| #[trigger] fv_fields(s).contains(w) ==> (m.dom().contains(w) == m2.dom().contains(w)
            && (m.dom().contains(w) ==> r(w) == r2(w))),
    ensures
        rk_fields(m, r, s) == rk_fields(m2, r2, s),
    decreases s,
{
    if s.len() > 0 {
        assert forall|w: u64| #[trigger] fv_fields(s.drop_last()).contains(w) implies (m.dom().contains(w) == m2.dom().contains(w) && (m.dom().contains(w) ==> r(w) == r2(w))) by {
            assert(fv_fields(s).contains(w));
        }
        assert forall|w: u64| #[trigger] fv(s.last().1).contains(w) implies (m.dom().contains(w) == m2.dom().contains(w) && (m.dom().contains(w) ==> r(w) == r2(w))) by {
            assert(fv_fields(s).contains(w));
        }
        lemma_rk_agree_fields(m, r, m2, r2, s.drop_last());
        lemma_rk_agree(m, r, m2, r2, s.last().1);
    }
}

/// No chain of `s2` passes through a variable that `s1` maps: a variable that an image of
/// `s2` mentions and `s2` itself maps is not mapped by `s1`.
pub open spec fn chains_apart(s1: Map<u64, TypeV>, s2: Map<u64, TypeV>) -> bool {
    range_vars(s2).intersect(s2.dom()).disjoint(s1.dom())
}

/// What lets the composition `s1 ∘ s2` apply the two in sequence: both are acyclic, the
/// images of `s1` mention no variable that `s2` maps, and no chain of `s2` passes through
/// a variable of `s1`.
pub open spec fn composable(s1: Map<u64, TypeV>, s2: Map<u64, TypeV>) -> bool {
    acyclic(s1) && acyclic(s2) && range_vars(s1).disjoint(s2.dom()) && chains_apart(s1, s2)
}

/// A ranking of the composition: that of `s2` on the variables `s2` maps, that of `s1`
/// elsewhere.
spec fn compose_rank(s1: Map<u64, TypeV>, s2: Map<u64, TypeV>) -> spec_fn(u64) -> nat {
    |v: u64| if s2.dom().contains(v) { the_rank(s2)(v) } else { the_rank(s1)(v) }
}

/// Applying `s1` to a type that mentions no variable of both gives a type whose rank under
/// the composition is at most the type's rank under `s2`.
proof fn lemma_compose_rank(s1: Map<u64, TypeV>, s2: Map<u64, TypeV>, t: TypeV)
    requires
        composable(s1, s2),
        fv(t).intersect(s2.dom()).disjoint(s1.dom()),
    ensures
        rk(compose_spec(s1, s2), compose_rank(s1, s2), dapply(s1, t)) <= rk(s2, the_rank(s2), t),
    decreases t,
{
    let c = compose_spec(s1, s2);
    assert(c.dom() =~= s1.dom().union(s2.dom()));
    match t {
        TypeV::Var(w) => {
            assert(fv(t).contains(w));
            if s1.dom().contains(w) {
                assert(ranked(s1, the_rank(s1)));
                assert(fv(t) =~= set![w]);
                lemma_dapply_avoids(s1, s2.dom(), t);
                super::model::lemma_dapply_clears(s1, t);
                lemma_rk_zero(c, compose_rank(s1, s2), dapply(s1, t));
            }
        },
        TypeV::Con(_, args) => { lemma_compose_rank_seq(s1, s2, args); },
        TypeV::Arrow(a, b) => {
            lemma_compose_rank(s1, s2, *a);
            lemma_compose_rank(s1, s2, *b);
        },
        TypeV::Tuple(es) => { lemma_compose_rank_seq(s1, s2, es); },
        TypeV::Record(fs) => { lemma_compose_rank_fields(s1, s2, fs); },
    }
}

proof fn lemma_compose_rank_seq(s1: Map<u64, TypeV>, s2: Map<u64, TypeV>, s: Seq<TypeV>)
    requires
        composable(s1, s2),
        fv_seq(s).intersect(s2.dom()).disjoint(s1.dom()),
    ensures
        rk_seq(compose_spec(s1, s2), compose_rank(s1, s2), dapply_seq(s1, s)) <= rk_seq(s2, the_rank(s2), s),
    decreases s,
{
    if s.len() > 0 {
        lemma_compose_rank_seq(s1, s2, s.drop_last());
        lemma_compose_rank(s1, s2, s.last());
        assert(dapply_seq(s1, s).drop_last() =~= dapply_seq(s1, s.drop_last()));
    }
}

proof fn lemma_compose_rank_fields(s1: Map<u64, TypeV>, s2: Map<u64, TypeV>, s: Seq<(Seq<char>, TypeV)>)
    requires
        composable(s1, s2),
        fv_fields(s).intersect(s2.dom()).disjoint(s1.dom()),
    ensures
        rk_fields(compose_spec(s1, s2), compose_rank(s1, s2), dapply_fields(s1, s)) <= rk_fields(s2, the_rank(s2), s),
    decreases s,
{
    if s.len() > 0 {
        lemma_compose_rank_fields(s1, s2, s.drop_last());
        lemma_compose_rank(s1, s2, s.last().1);
        assert(dapply_fields(s1, s).drop_last() =~= dapply_fields(s1, s.drop_last()));
    }
}

/// The composition of two composable substitutions is acyclic.
proof fn lemma_compose_acyclic(s1: Map<u64, TypeV>, s2: Map<u64, TypeV>)
    requires
        composable(s1, s2),
    ensures
        acyclic(compose_spec(s1, s2)),
{
    let c = compose_spec(s1, s2);
    let r1 = the_rank(s1);
    let r2 = the_rank(s2);
    let rc = compose_rank(s1, s2);
    assert(ranked(s1, r1));
    assert(ranked(s2, r2));
    assert forall|v: u64| #[trigger] c.dom().contains(v) implies rk(c, rc, c[v]) <= rc(v) by {
        if s2.dom().contains(v) {
            assert forall|x: u64| #[trigger] fv(s2[v]).intersect(s2.dom()).contains(x) implies !s1.dom().contains(x) by {
                assert(range_vars(s2).contains(x));
            }
            lemma_compose_rank(s1, s2, s2[v]);
        } else {
            assert forall|w: u64| #[trigger] fv(s1[v]).contains(w) implies (c.dom().contains(w) == s1.dom().contains(w)
                && (c.dom().contains(w) ==> rc(w) == r1(w))) by {
                assert(range_vars(s1).contains(w));
            }
            lemma_rk_agree(c, rc, s1, r1, s1[v]);
        }
    }
    assert(ranked(c, rc));
}

/// On types that mention none of the variables of `s2`, the composition acts as `s1` alone.
proof fn lemma_compose_outside(s1: Map<u64, TypeV>, s2: Map<u64, TypeV>, t: TypeV)
    requires
        composable(s1, s2),
        fv(t).disjoint(s2.dom()),
    ensures
        dapply(compose_spec(s1, s2), t) == dapply(s1, t),
    decreases rk(s1, the_rank(s1), t), t,
{
    let c = compose_spec(s1, s2);
    lemma_compose_acyclic(s1, s2);
    assert(ranked(s1, the_rank(s1)));
    assert(ranked(c, the_rank(c)));
    match t {
        TypeV::Var(v) => {
            assert(fv(t).contains(v));
            if s1.dom().contains(v) {
                assert(rk(s1, the_rank(s1), s1[v]) <= the_rank(s1)(v));
                assert forall|x: u64| fv(s1[v]).contains(x) implies !s2.dom().contains(x) by {
                    assert(range_vars(s1).contains(x));
                }
                lemma_compose_outside(s1, s2, s1[v]);
            }
        },
        TypeV::Con(_, args) => { lemma_compose_outside_seq(s1, s2, args); },
        TypeV::Arrow(a, b) => {
            lemma_compose_outside(s1, s2, *a);
            lemma_compose_outside(s1, s2, *b);
        },
        TypeV::Tuple(es) => { lemma_compose_outside_seq(s1, s2, es); },
        TypeV::Record(fs) => { lemma_compose_outside_fields(s1, s2, fs); },
    }
}

proof fn lemma_compose_outside_seq(s1: Map<u64, TypeV>, s2: Map<u64, TypeV>, s: Seq<TypeV>)
    requires
        composable(s1, s2),
        fv_seq(s).disjoint(s2.dom()),
    ensures
        dapply_seq(compose_spec(s1, s2), s) == dapply_seq(s1, s),
    decreases rk_seq(s1, the_rank(s1), s), s,
{
    if s.len() > 0 {
        lemma_compose_outside_seq(s1, s2, s.drop_last());
        lemma_compose_outside(s1, s2, s.last());
    }
}

proof fn lemma_compose_outside_fields(s1: Map<u64, TypeV>, s2: Map<u64, TypeV>, s: Seq<(Seq<char>, TypeV)>)
    requires
        composable(s1, s2),
        fv_fields(s).disjoint(s2.dom()),
    ensures
        dapply_fields(compose_spec(s1, s2), s) == dapply_fields(s1, s),
    decreases rk_fields(s1, the_rank(s1), s), s,
{
    if s.len() > 0 {
        lemma_compose_outside_fields(s1, s2, s.drop_last());
        lemma_compose_outside(s1, s2, s.last().1);
    }
}

/// Applying `s1` first changes nothing that the composition gives, on types that mention
/// no variable mapped by both.
proof fn lemma_compose_absorbs(s1: Map<u64, TypeV>, s2: Map<u64, TypeV>, t: TypeV)
    requires
        composable(s1, s2),
        fv(t).intersect(s2.dom()).disjoint(s1.dom()),
    ensures
        dapply(compose_spec(s1, s2), dapply(s1, t)) == dapply(compose_spec(s1, s2), t),
    decreases t,
{
    let c = compose_spec(s1, s2);
    lemma_compose_acyclic(s1, s2);
    assert(ranked(s1, the_rank(s1)));
    assert(ranked(c, the_rank(c)));
    match t {
        TypeV::Var(w) => {
            assert(fv(t).contains(w));
            if s1.dom().contains(w) {
                assert(fv(t) =~= set![w]);
                assert(c.dom() =~= s1.dom().union(s2.dom()));
                lemma_dapply_avoids(s1, s2.dom(), t);
                super::model::lemma_dapply_clears(s1, t);
                lemma_dapply_noop(c, dapply(s1, t));
                lemma_compose_outside(s1, s2, t);
            }
        },
        TypeV::Con(_, args) => { lemma_compose_absorbs_seq(s1, s2, args); },
        TypeV::Arrow(a, b) => {
            lemma_compose_absorbs(s1, s2, *a);
            lemma_compose_absorbs(s1, s2, *b);
        },
        TypeV::Tuple(es) => { lemma_compose_absorbs_seq(s1, s2, es); },
        TypeV::Record(fs) => { lemma_compose_absorbs_fields(s1, s2, fs); },
    }
}

proof fn lemma_compose_absorbs_seq(s1: Map<u64, TypeV>, s2: Map<u64, TypeV>, s: Seq<TypeV>)
    requires
        composable(s1, s2),
        fv_seq(s).intersect(s2.dom()).disjoint(s1.dom()),
    ensures
        dapply_seq(compose_spec(s1, s2), dapply_seq(s1, s)) == dapply_seq(compose_spec(s1, s2), s),
    decreases s,
{
    if s.len() > 0 {
        lemma_compose_absorbs_seq(s1, s2, s.drop_last());
        lemma_compose_absorbs(s1, s2, s.last());
        let d = dapply_seq(s1, s);
        assert(d.drop_last() =~= dapply_seq(s1, s.drop_last()));
        assert(d.len() > 0);
    }
}

proof fn lemma_compose_absorbs_fields(s1: Map<u64, TypeV>, s2: Map<u64, TypeV>, s: Seq<(Seq<char>, TypeV)>)
    requires
        composable(s1, s2),
        fv_fields(s).intersect(s2.dom()).disjoint(s1.dom()),
    ensures
        dapply_fields(compose_spec(s1, s2), dapply_fields(s1, s)) == dapply_fields(compose_spec(s1, s2), s),
    decreases s,
{
    if s.len() > 0 {
        lemma_compose_absorbs_fields(s1, s2, s.drop_last());
        lemma_compose_absorbs(s1, s2, s.last().1);
        let d = dapply_fields(s1, s);
        assert(d.drop_last() =~= dapply_fields(s1, s.drop_last()));
        assert(d.len() > 0);
    }
}

/// Law: the composition `s1 ∘ s2` of two composable substitutions applies `s2` and then
/// `s1`, and is acyclic.
pub proof fn law_compose_acyclic_in_sequence(s1: Map<u64, TypeV>, s2: Map<u64, TypeV>, t: TypeV)
    requires
        composable(s1, s2),
    ensures
        dapply(compose_spec(s1, s2), t) == dapply(s1, dapply(s2, t)),
        acyclic(compose_spec(s1, s2)),
    decreases rk(s2, the_rank(s2), t), t,
{
    let c = compose_spec(s1, s2);
    lemma_compose_acyclic(s1, s2);
    assert(ranked(c, the_rank(c)));
    assert(ranked(s2, the_rank(s2)));
    match t {
        TypeV::Var(v) => {
            if s2.dom().contains(v) {
                let x = s2[v];
                assert(rk(s2, the_rank(s2), x) <= the_rank(s2)(v));
                law_compose_acyclic_in_sequence(s1, s2, x);
                assert forall|y: u64| #[trigger] fv(x).intersect(s2.dom()).contains(y) implies !s1.dom().contains(y) by {
                    assert(range_vars(s2).contains(y));
                }
                lemma_compose_absorbs(s1, s2, x);
            } else {
                assert(fv(t) =~= set![v]);
                lemma_compose_outside(s1, s2, t);
            }
        },
        TypeV::Con(_, args) => { lemma_compose_in_sequence_seq(s1, s2, args); },
        TypeV::Arrow(a, b) => {
            law_compose_acyclic_in_sequence(s1, s2, *a);
            law_compose_acyclic_in_sequence(s1, s2, *b);
        },
        TypeV::Tuple(es) => { lemma_compose_in_sequence_seq(s1, s2, es); },
        TypeV::Record(fs) => { lemma_compose_in_sequence_fields(s1, s2, fs); },
    }
}

proof fn lemma_compose_in_sequence_seq(s1: Map<u64, TypeV>, s2: Map<u64, TypeV>, s: Seq<TypeV>)
    requires
        composable(s1, s2),
    ensures
        dapply_seq(compose_spec(s1, s2), s) == dapply_seq(s1, dapply_seq(s2, s)),
    decreases rk_seq(s2, the_rank(s2), s), s,
{
    if s.len() > 0 {
        lemma_compose_in_sequence_seq(s1, s2, s.drop_last());
        law_compose_acyclic_in_sequence(s1, s2, s.last());
        let d2 = dapply_seq(s2, s);
        assert(d2.drop_last() =~= dapply_seq(s2, s.drop_last()));
        assert(d2.len() > 0);
    }
}

proof fn lemma_compose_in_sequence_fields(s1: Map<u64, TypeV>, s2: Map<u64, TypeV>, s: Seq<(Seq<char>, TypeV)>)
    requires
        composable(s1, s2),
    ensures
        dapply_fields(compose_spec(s1, s2), s) == dapply_fields(s1, dapply_fields(s2, s)),
    decreases rk_fields(s2, the_rank(s2), s), s,
{
    if s.len() > 0 {
        lemma_compose_in_sequence_fields(s1, s2, s.drop_last());
        law_compose_acyclic_in_sequence(s1, s2, s.last().1);
        let d2 = dapply_fields(s2, s);
        assert(d2.drop_last() =~= dapply_fields(s2, s.drop_last()));
        assert(d2.len() > 0);
    }
}

// ========== Checking that a substitution is acyclic ==========

/// A type whose domain variables all rank below `k` has rank at most `k`.
pub proof fn lemma_rk_bound(m: Map<u64, TypeV>, r: spec_fn(u64) -> nat, t: TypeV, k: nat)
    requires
        forall|w: u64| fv(t).contains(w) && m.dom().contains(w) ==> r(w) + 1 <= k,
    ensures
        rk(m, r, t) <= k,
    decreases t,
{
    match t {
        TypeV::Var(v) => {
            assert(fv(t).contains(v));
        },
        TypeV::Con(_, args) => lemma_rk_bound_seq(m, r, args, k),
        TypeV::Arrow(a, b) => {
            lemma_rk_bound(m, r, *a, k);
            lemma_rk_bound(m, r, *b, k);
        },
        TypeV::Tuple(es) => lemma_rk_bound_seq(m, r, es, k),
        TypeV::Record(fs) => lemma_rk_bound_fields(m, r, fs, k),
    }
}

pub proof fn lemma_rk_bound_seq(m: Map<u64, TypeV>, r: spec_fn(u64) -> nat, s: Seq<TypeV>, k: nat)
    requires
        forall|w: u64| super::model::fv_seq(s).contains(w) && m.dom().contains(w) ==> r(w) + 1 <= k,
    ensures
        rk_seq(m, r, s) <= k,
    decreases s,
{
    if s.len() > 0 {
        lemma_rk_bound_seq(m, r, s.drop_last(), k);
        lemma_rk_bound(m, r, s.last(), k);
    }
}

pub proof fn lemma_rk_bound_fields(m: Map<u64, TypeV>, r: spec_fn(u64) -> nat, s: Seq<(Seq<char>, TypeV)>, k: nat)
    requires
        forall|w: u64| super::model::fv_fields(s).contains(w) && m.dom().contains(w) ==> r(w) + 1 <= k,
    ensures
        rk_fields(m, r, s) <= k,
    decreases s,
{
    if s.len() > 0 {
        lemma_rk_bound_fields(m, r, s.drop_last(), k);
        lemma_rk_bound(m, r, s.last().1, k);
    }
}

/// The ranking read off a table of ranks, one per entry.
pub open spec fn table_rank(entries: Seq<(TypeVar, Type)>, ranks: Seq<usize>) -> spec_fn(u64) -> nat {
    |v: u64| if exists|i: int| 0 <= i < entries.len() && entries[i].0.0 == v {
        ranks[choose|i: int| 0 <= i < entries.len() && entries[i].0.0 == v] as nat
    } else {
        0
    }
}

impl Substitution {
    /// Whether repeatedly applying the substitution terminates: every variable gets a
    /// rank above those of the domain variables in its image.
    pub fn is_acyclic(&self) -> (b: bool)
        ensures
            b ==> acyclic(self@),
            idempotent(self@) ==> b,
    {
        proof {
            use_type_invariant(self);
            lemma_entries_map(self.map@);
        }
        let n = self.map.len();
        if n == 0 {
            proof {
                let r = |v: u64| 0nat;
                assert forall|v: u64| #[trigger] self@.dom().contains(v) implies rk(self@, r, self@[v]) <= r(v) by {
                    assert(exists|i: int| 0 <= i < self.map@.len() && self.map@[i].0.0 == v);
                }
                assert(ranked(self@, r));
            }
            return true;
        }
        let mut rank: Vec<usize> = Vec::new();
        while rank.len() < n
            invariant
                rank@.len() <= n,
                forall|a: int| 0 <= a < rank@.len() ==> rank@[a] == 0,
            decreases n - rank.len(),
        {
            rank.push(0);
        }
        let mut k: usize = 0;
        while k < n
            invariant
                n == self.map@.len(),
                rank@.len() == n,
                k <= n,
                forall|a: int| 0 <= a < n ==> rank@[a] <= k,
                idempotent(self@) ==> k == 0,
                k == 0 ==> forall|a: int| 0 <= a < n ==> rank@[a] == 0,
                forall|k2: u64| self@.dom().contains(k2) <==> exists|i2: int| 0 <= i2 < self.map@.len() && #[trigger] self.map@[i2].0.0 == k2,
                forall|i2: int| 0 <= i2 < self.map@.len() ==> self@[#[trigger] self.map@[i2].0.0] == self.map@[i2].1@,
            decreases n - k,
        {
            // one round: every rank becomes one more than the largest rank it depends on
            let mut next: Vec<usize> = Vec::new();
            let mut changed = false;
            let mut i: usize = 0;
            while i < n
                invariant
                    n == self.map@.len(),
                    rank@.len() == n,
                    k < n,
                    forall|a: int| 0 <= a < n ==> rank@[a] <= k,
                    i <= n,
                    next@.len() == i,
                    forall|a: int| 0 <= a < i ==> next@[a] <= k + 1,
                    forall|a: int, j: int| 0 <= a < i && 0 <= j < n && fv(self.map@[a].1@).contains(self.map@[j].0.0)
                        ==> rank@[j] + 1 <= next@[a],
                    !changed ==> forall|a: int| 0 <= a < i ==> next@[a] == rank@[a],
                    (idempotent(self@) && k == 0) ==> !changed,
                    idempotent(self@) ==> k == 0,
                    k == 0 ==> forall|a: int| 0 <= a < n ==> rank@[a] == 0,
                    forall|k2: u64| self@.dom().contains(k2) <==> exists|i2: int| 0 <= i2 < self.map@.len() && #[trigger] self.map@[i2].0.0 == k2,
                    forall|i2: int| 0 <= i2 < self.map@.len() ==> self@[#[trigger] self.map@[i2].0.0] == self.map@[i2].1@,
                decreases n - i,
            {
                let mut cur: usize = 0;
                let mut j: usize = 0;
                while j < n
                    invariant
                        n == self.map@.len(),
                        rank@.len() == n,
                        k < n,
                        forall|a: int| 0 <= a < n ==> rank@[a] <= k,
                        i < n,
                        j <= n,
                        cur <= k + 1,
                        forall|jj: int| 0 <= jj < j && fv(self.map@[i as int].1@).contains(self.map@[jj].0.0)
                            ==> rank@[jj] + 1 <= cur,
                        cur == 0 || exists|jj: int| 0 <= jj < j && cur == rank@[jj] + 1,
                        (idempotent(self@) && k == 0) ==> cur == 0,
                        k == 0 ==> forall|a: int| 0 <= a < n ==> rank@[a] == 0,
                        forall|k2: u64| self@.dom().contains(k2) <==> exists|i2: int| 0 <= i2 < self.map@.len() && #[trigger] self.map@[i2].0.0 == k2,
                        forall|i2: int| 0 <= i2 < self.map@.len() ==> self@[#[trigger] self.map@[i2].0.0] == self.map@[i2].1@,
                    decreases n - j,
                {
                    proof {
                        if idempotent(self@) && k == 0 {
                            let v = self.map@[i as int].0.0;
                            assert(self@.dom().contains(v));
                            assert(self@.dom().contains(self.map@[j as int].0.0));
                            assert(fv(self@[v]).disjoint(self@.dom()));
                        }
                    }
                    if self.map[i].1.contains_var(self.map[j].0) {
                        let cand = rank[j] + 1;
                        if cand > cur {
                            cur = cand;
                        }
                    }
                    j += 1;
                }
                if cur != rank[i] {
                    changed = true;
                }
                next.push(cur);
                i += 1;
            }
            if !changed {
                proof {
                    use_type_invariant(self);
                    lemma_entries_map(self.map@);
                    assert(next@ =~= rank@);
                    let r = table_rank(self.map@, rank@);
                    let m = self@;
                    assert forall|v: u64| #[trigger] m.dom().contains(v) implies rk(m, r, m[v]) <= r(v) by {
                        let iv = choose|i: int| 0 <= i < self.map@.len() && self.map@[i].0.0 == v;
                        assert(self.map@[iv].0.0 == v);
                        assert(m[v] == self.map@[iv].1@);
                        assert(r(v) == rank@[iv]);
                        assert forall|w: u64| fv(m[v]).contains(w) && m.dom().contains(w) implies r(w) + 1 <= r(v) by {
                            let jw = choose|i: int| 0 <= i < self.map@.len() && self.map@[i].0.0 == w;
                            assert(self.map@[jw].0.0 == w);
                            assert(r(w) == rank@[jw]);
                            assert(fv(self.map@[iv].1@).contains(self.map@[jw].0.0));
                        }
                        lemma_rk_bound(m, r, m[v], r(v));
                    }
                    assert(ranked(m, r));
                }
                return true;
            }
            rank = next;
            k += 1;
        }
        false
    }
}

} // verus!
