//! Name-keyed tables: the finite maps from names to entries that a type
//! environment is made of.

use vstd::prelude::*;

verus! {

/// A value that can be copied, the copy having the same view.
pub trait Duplicate: View + Sized {
    fn duplicate(&self) -> (r: Self)
        ensures
            r@ == self@;
}

impl Duplicate for usize {
    fn duplicate(&self) -> (r: Self) {
        *self
    }
}

/// The map denoted by a list of named entries (later entries win).
pub open spec fn assoc_map<A>(s: Seq<(Seq<char>, A)>) -> Map<Seq<char>, A>
    decreases s.len(),
{
    if s.len() == 0 {
        Map::empty()
    } else {
        assoc_map(s.drop_last()).insert(s.last().0, s.last().1)
    }
}

/// No name occurs twice.
pub open spec fn distinct_names<A>(s: Seq<(Seq<char>, A)>) -> bool {
    forall|i: int, j: int| 0 <= i < j < s.len() ==> s[i].0 != s[j].0
}

pub proof fn lemma_assoc_map<A>(s: Seq<(Seq<char>, A)>)
    requires
        distinct_names(s),
    ensures
        forall|k: Seq<char>| assoc_map(s).dom().contains(k) <==> exists|i: int| 0 <= i < s.len() && #[trigger] s[i].0 == k,
        forall|i: int| 0 <= i < s.len() ==> assoc_map(s)[#[trigger] s[i].0] == s[i].1,
        assoc_map(s).dom().finite(),
        assoc_map(s).dom().len() == s.len(),
    decreases s.len(),
{
    if s.len() > 0 {
        let d = s.drop_last();
        lemma_assoc_map(d);
        assert forall|k: Seq<char>| assoc_map(s).dom().contains(k) <==> exists|i: int| 0 <= i < s.len() && #[trigger] s[i].0 == k by {
            if assoc_map(s).dom().contains(k) && k != s.last().0 {
                let i = choose|i: int| 0 <= i < d.len() && #[trigger] d[i].0 == k;
                assert(s[i].0 == k);
            }
            if exists|i: int| 0 <= i < s.len() && #[trigger] s[i].0 == k {
                let i = choose|i: int| 0 <= i < s.len() && #[trigger] s[i].0 == k;
                if i < s.len() - 1 {
                    assert(d[i].0 == k);
                }
            }
        }
        assert forall|i: int| 0 <= i < s.len() implies assoc_map(s)[#[trigger] s[i].0] == s[i].1 by {
            if i < s.len() - 1 {
                assert(d[i] == s[i]);
                assert(s[i].0 != s.last().0);
            }
        }
        assert(!assoc_map(d).dom().contains(s.last().0)) by {
            if assoc_map(d).dom().contains(s.last().0) {
                let i = choose|i: int| 0 <= i < d.len() && #[trigger] d[i].0 == s.last().0;
                assert(s[i].0 == s[s.len() - 1].0);
            }
        }
    }
}

/// The entries of a table, each name and value taken by its view.
pub open spec fn view_entries<V: View>(s: Seq<(String, V)>) -> Seq<(Seq<char>, V::V)> {
    s.map_values(|e: (String, V)| (e.0@, e.1@))
}

/// A table from names to values, each name at most once.
pub struct NameTable<V: View> {
    entries: Vec<(String, V)>,
}

impl<V: View> View for NameTable<V> {
    type V = Map<Seq<char>, V::V>;

    closed spec fn view(&self) -> Map<Seq<char>, V::V> {
        assoc_map(view_entries(self.entries@))
    }
}

impl<V: View> NameTable<V> {
    /// Each name has one entry.
    pub closed spec fn wf(&self) -> bool {
        distinct_names(view_entries(self.entries@))
    }

    /// The entries, in the order in which they are held.
    pub closed spec fn entries(&self) -> Seq<(Seq<char>, V::V)> {
        view_entries(self.entries@)
    }

    /// The table is the map of its entries, each name once.
    pub proof fn lemma_entries(&self)
        requires
            self.wf(),
        ensures
            distinct_names(self.entries()),
            self@ == assoc_map(self.entries()),
            forall|k: Seq<char>| self@.dom().contains(k) <==> exists|i: int| 0 <= i < self.entries().len() && #[trigger] self.entries()[i].0 == k,
            forall|i: int| 0 <= i < self.entries().len() ==> self@[#[trigger] self.entries()[i].0] == self.entries()[i].1,
            self@.dom().finite(),
            self@.dom().len() == self.entries().len(),
    {
        lemma_assoc_map(view_entries(self.entries@));
    }

    /// The empty table.
    pub fn new() -> (t: Self)
        ensures
            t.wf(),
            t@ == Map::<Seq<char>, V::V>::empty(),
            t.entries() == Seq::<(Seq<char>, V::V)>::empty(),
    {
        let t = NameTable { entries: Vec::new() };
        assert(view_entries(t.entries@) =~= Seq::<(Seq<char>, V::V)>::empty());
        t
    }

    /// The number of names in the table.
    pub fn len(&self) -> (n: usize)
        requires
            self.wf(),
        ensures
            n == self@.dom().len(),
            n == self.entries().len(),
    {
        proof { self.lemma_entries(); }
        self.entries.len()
    }

    /// The name of the `i`-th entry.
    pub fn key_at(&self, i: usize) -> (k: &String)
        requires
            i < self.entries().len(),
        ensures
            k@ == self.entries()[i as int].0,
    {
        &self.entries[i].0
    }

    /// The value of the `i`-th entry.
    pub fn value_at(&self, i: usize) -> (v: &V)
        requires
            i < self.entries().len(),
        ensures
            v@ == self.entries()[i as int].1,
    {
        &self.entries[i].1
    }

    fn find(&self, key: &String) -> (r: Option<usize>)
        requires
            self.wf(),
        ensures
            match r {
                Some(i) => i < self.entries().len() && self.entries()[i as int].0 == key@,
                None => !self@.dom().contains(key@),
            },
    {
        proof { self.lemma_entries(); }
        let mut i: usize = 0;
        while i < self.entries.len()
            invariant
                i <= self.entries@.len(),
                forall|j: int| 0 <= j < i ==> self.entries()[j].0 != key@,
            decreases self.entries.len() - i,
        {
            if self.entries[i].0 == *key {
                return Some(i);
            }
            i += 1;
        }
        None
    }

    /// The value stored under `key`, if any.
    pub fn get(&self, key: &str) -> (r: Option<&V>)
        requires
            self.wf(),
        ensures
            match r {
                Some(v) => self@.dom().contains(key@) && v@ == self@[key@],
                None => !self@.dom().contains(key@),
            },
    {
        proof { self.lemma_entries(); }
        let owned = key.to_owned();
        match self.find(&owned) {
            Some(i) => Some(&self.entries[i].1),
            None => None,
        }
    }

    /// Whether `key` has an entry.
    pub fn contains_key(&self, key: &str) -> (b: bool)
        requires
            self.wf(),
        ensures
            b == self@.dom().contains(key@),
    {
        proof { self.lemma_entries(); }
        let owned = key.to_owned();
        self.find(&owned).is_some()
    }

    /// Store `value` under `key`, replacing what was there.
    pub fn insert(&mut self, key: String, value: V)
        requires
            old(self).wf(),
        ensures
            final(self).wf(),
            final(self)@ == old(self)@.insert(key@, value@),
    {
        proof { self.lemma_entries(); }
        let found = self.find(&key);
        let mut entries: Vec<(String, V)> = Vec::new();
        std::mem::swap(&mut entries, &mut self.entries);
        let ghost before = view_entries(entries@);
        let ghost kv = key@;
        let ghost vv = value@;
        match found {
            Some(i) => {
                entries.set(i, (key, value));
                proof {
                    let after = view_entries(entries@);
                    assert(after =~= before.update(i as int, (kv, vv)));
                    assert(distinct_names(after)) by {
                        assert forall|a: int, b: int| 0 <= a < b < after.len() implies after[a].0 != after[b].0 by {
                            assert(before[a].0 != before[b].0);
                        }
                    }
                    lemma_assoc_map(after);
                    lemma_assoc_map(before);
                    assert forall|k: Seq<char>| assoc_map(after).dom().contains(k) <==> assoc_map(before).insert(kv, vv).dom().contains(k) by {
                        if assoc_map(after).dom().contains(k) {
                            let j = choose|j: int| 0 <= j < after.len() && #[trigger] after[j].0 == k;
                            if j != i { assert(before[j].0 == k); }
                        }
                        if assoc_map(before).dom().contains(k) {
                            let j = choose|j: int| 0 <= j < before.len() && #[trigger] before[j].0 == k;
                            if j != i { assert(after[j].0 == k); }
                        }
                        if k == kv {
                            assert(after[i as int].0 == k);
                        }
                    }
                    assert forall|k: Seq<char>| #[trigger] assoc_map(after).dom().contains(k) implies assoc_map(after)[k] == assoc_map(before).insert(kv, vv)[k] by {
                        let j = choose|j: int| 0 <= j < after.len() && #[trigger] after[j].0 == k;
                        if j != i {
                            assert(before[j] == after[j]);
                        }
                    }
                    assert(assoc_map(after) =~= assoc_map(before).insert(kv, vv));
                }
            },
            None => {
                entries.push((key, value));
                proof {
                    let after = view_entries(entries@);
                    assert(after =~= before.push((kv, vv)));
                    assert(after.drop_last() =~= before);
                    lemma_assoc_map(before);
                    assert forall|a: int, b: int| 0 <= a < b < after.len() implies after[a].0 != after[b].0 by {
                        if b == before.len() {
                            assert(before[a].0 != kv) by {
                                if before[a].0 == kv {
                                    assert(assoc_map(before).dom().contains(kv));
                                }
                            }
                        } else {
                            assert(before[a].0 != before[b].0);
                        }
                    }
                }
            },
        }
        self.entries = entries;
    }

    /// Take the entry of `key` out of the table, giving back its value.
    pub fn remove(&mut self, key: &str) -> (r: Option<V>)
        requires
            old(self).wf(),
        ensures
            final(self).wf(),
            final(self)@ == old(self)@.remove(key@),
            match r {
                Some(v) => old(self)@.dom().contains(key@) && v@ == old(self)@[key@],
                None => !old(self)@.dom().contains(key@),
            },
    {
        proof { self.lemma_entries(); }
        let owned = key.to_owned();
        match self.find(&owned) {
            None => {
                assert(self@ =~= self@.remove(key@));
                None
            },
            Some(i) => {
                let mut entries: Vec<(String, V)> = Vec::new();
                std::mem::swap(&mut entries, &mut self.entries);
                let ghost before = view_entries(entries@);
                let ghost old_map = assoc_map(before);
                let (_, v) = entries.remove(i);
                proof {
                    let after = view_entries(entries@);
                    assert(after =~= before.remove(i as int));
                    assert(distinct_names(after)) by {
                        assert forall|a: int, b: int| 0 <= a < b < after.len() implies after[a].0 != after[b].0 by {
                            let a2 = if a < i { a } else { a + 1 };
                            let b2 = if b < i { b } else { b + 1 };
                            assert(before[a2].0 != before[b2].0);
                        }
                    }
                    lemma_assoc_map(after);
                    lemma_assoc_map(before);
                    assert forall|k: Seq<char>| assoc_map(after).dom().contains(k) <==> old_map.remove(key@).dom().contains(k) by {
                        if assoc_map(after).dom().contains(k) {
                            let j = choose|j: int| 0 <= j < after.len() && #[trigger] after[j].0 == k;
                            let j2 = if j < i { j } else { j + 1 };
                            assert(before[j2].0 == k);
                            assert(before[j2].0 != before[i as int].0);
                        }
                        if old_map.remove(key@).dom().contains(k) {
                            let j = choose|j: int| 0 <= j < before.len() && #[trigger] before[j].0 == k;
                            assert(j != i);
                            if j < i { assert(after[j].0 == k); } else { assert(after[j - 1].0 == k); }
                        }
                    }
                    assert forall|k: Seq<char>| #[trigger] assoc_map(after).dom().contains(k) implies assoc_map(after)[k] == old_map.remove(key@)[k] by {
                        let j = choose|j: int| 0 <= j < after.len() && #[trigger] after[j].0 == k;
                        let j2 = if j < i { j } else { j + 1 };
                        assert(after[j] == before[j2]);
                    }
                    assert(assoc_map(after) =~= old_map.remove(key@));
                }
                self.entries = entries;
                Some(v)
            },
        }
    }
}

impl<V: Duplicate> NameTable<V> {
    /// A copy of the table, entry for entry.
    pub fn duplicate(&self) -> (t: Self)
        requires
            self.wf(),
        ensures
            t.wf(),
            t@ == self@,
            t.entries() == self.entries(),
    {
        let mut entries: Vec<(String, V)> = Vec::new();
        let mut i: usize = 0;
        while i < self.entries.len()
            invariant
                i <= self.entries@.len(),
                view_entries(entries@) =~= view_entries(self.entries@).take(i as int),
            decreases self.entries.len() - i,
        {
            let k = self.entries[i].0.clone();
            let v = self.entries[i].1.duplicate();
            let ghost prev = entries@;
            entries.push((k, v));
            proof {
                assert(entries@ =~= prev.push((k, v)));
                assert(view_entries(entries@) =~= view_entries(prev).push((k@, v@)));
                assert(view_entries(self.entries@).take(i + 1) =~= view_entries(self.entries@).take(i as int).push(view_entries(self.entries@)[i as int]));
            }
            i += 1;
        }
        let t = NameTable { entries };
        assert(view_entries(self.entries@).take(i as int) =~= view_entries(self.entries@));
        t
    }
}

} // verus!
