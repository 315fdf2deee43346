//! A map from texts to values that is walked in the order of its keys.
use vstd::prelude::*;

use crate::order;
use crate::text::same_str;

verus! {

/// A map from texts to values. Its keys stand in ascending order.
pub struct OrdMap<V> {
    entries: Vec<(String, V)>,
}

impl<V> OrdMap<V> {
    /// The keys, in order.
    pub closed spec fn keys(&self) -> Seq<Seq<char>> {
        Seq::new(self.entries@.len(), |i: int| self.entries@[i].0@)
    }

    /// The keys ascend.
    #[verifier::type_invariant]
    pub open spec fn wf(self) -> bool {
        order::ascending(self.keys())
    }
}

impl<V: DeepView> OrdMap<V> {
    /// The values, in the order of their keys.
    pub closed spec fn values(&self) -> Seq<V::V> {
        Seq::new(self.entries@.len(), |i: int| self.entries@[i].1.deep_view())
    }
}

impl<V: DeepView> View for OrdMap<V> {
    type V = Map<Seq<char>, V::V>;

    open spec fn view(&self) -> Map<Seq<char>, V::V> {
        Map::new(
            |k: Seq<char>| self.keys().contains(k),
            |k: Seq<char>| self.values()[self.keys().index_of(k)],
        )
    }
}

impl<V: DeepView> DeepView for OrdMap<V> {
    type V = Map<Seq<char>, V::V>;

    open spec fn deep_view(&self) -> Map<Seq<char>, V::V> {
        self@
    }
}

impl<V: DeepView> OrdMap<V> {
    /// What the keys and values in order say of the map.
    pub proof fn lemma_entries(&self)
        requires
            self.wf(),
        ensures
            self.keys().no_duplicates(),
            self.keys().len() == self.values().len(),
            self.keys().to_set() == self@.dom(),
            self.keys() == order::in_order(self@.dom()),
            self@.dom().finite(),
            self.keys().len() == self@.len(),
            forall|i: int|
                0 <= i < self.keys().len() ==> self@.contains_key(#[trigger] self.keys()[i])
                    && self@[self.keys()[i]] == self.values()[i],
    {
        order::lemma_ascending_distinct(self.keys());
        assert(self.keys().to_set() =~= self@.dom());
        order::lemma_in_order(self.keys());
        self.keys().unique_seq_to_set();
        assert forall|i: int| 0 <= i < self.keys().len() implies self@.contains_key(
            #[trigger] self.keys()[i],
        ) && self@[self.keys()[i]] == self.values()[i] by {
            assert(self.keys().contains(self.keys()[i]));
        }
    }

    /// A map with nothing in it.
    pub fn new() -> (m: OrdMap<V>)
        ensures
            m@ == Map::<Seq<char>, V::V>::empty(),
            m.keys() == Seq::<Seq<char>>::empty(),
    {
        let m = OrdMap { entries: Vec::new() };
        assert(m@ =~= Map::<Seq<char>, V::V>::empty());
        m
    }

    /// How many keys the map holds.
    pub fn len(&self) -> (n: usize)
        ensures
            n == self.keys().len(),
            n == self@.len(),
            self@.dom().finite(),
    {
        proof {
            use_type_invariant(self);
            self.lemma_entries();
        }
        self.entries.len()
    }

    /// Whether the map holds nothing.
    pub fn is_empty(&self) -> (b: bool)
        ensures
            b == (self@ == Map::<Seq<char>, V::V>::empty()),
            b == (self.keys().len() == 0),
    {
        proof {
            if self.keys().len() == 0 {
                assert(self@ =~= Map::<Seq<char>, V::V>::empty());
            } else {
                assert(self.keys().contains(self.keys()[0]));
                assert(self@.contains_key(self.keys()[0]));
            }
        }
        self.entries.len() == 0
    }

    /// The key at position `i`.
    pub fn key_at(&self, i: usize) -> (k: &String)
        requires
            i < self.keys().len(),
        ensures
            k@ == self.keys()[i as int],
    {
        &self.entries[i].0
    }

    /// The value at position `i`.
    pub fn value_at(&self, i: usize) -> (v: &V)
        requires
            i < self.keys().len(),
        ensures
            v.deep_view() == self.values()[i as int],
    {
        &self.entries[i].1
    }

    /// How many keys come before `key`, and whether `key` itself follows them.
    fn place(&self, key: &str) -> (r: (usize, bool))
        ensures
            r.0 <= self.keys().len(),
            r.1 ==> r.0 < self.keys().len() && self.keys()[r.0 as int] == key@,
            !r.1 ==> !self.keys().contains(key@),
            forall|j: int| 0 <= j < r.0 ==> order::precedes(#[trigger] self.keys()[j], key@),
            !r.1 ==> forall|j: int|
                r.0 <= j < self.keys().len() ==> order::precedes(
                    key@,
                    #[trigger] self.keys()[j],
                ),
    {
        proof {
            use_type_invariant(self);
        }
        let mut i: usize = 0;
        while i < self.entries.len() && order::comes_before(self.entries[i].0.as_str(), key)
            invariant
                i <= self.keys().len(),
                self.keys().len() == self.entries@.len(),
                forall|j: int| 0 <= j < i ==> order::precedes(
                    #[trigger] self.keys()[j],
                    key@,
                ),
            decreases self.entries@.len() - i,
        {
            assert(self.keys()[i as int] == self.entries@[i as int].0@);
            i = i + 1;
        }
        let hit = i < self.entries.len() && same_str(self.entries[i].0.as_str(), key);
        proof {
            if i < self.keys().len() {
                assert(self.keys()[i as int] == self.entries@[i as int].0@);
                order::law_precedes_total(self.keys()[i as int], key@);
            }
            if !hit {
                assert forall|j: int| i <= j < self.keys().len() implies order::precedes(
                    key@,
                    #[trigger] self.keys()[j],
                ) by {
                    if j > i {
                        order::law_precedes_transitive(key@, self.keys()[i as int], self.keys()[j]);
                    }
                }
                order::law_precedes_irreflexive(key@);
                assert forall|j: int| 0 <= j < self.keys().len() implies self.keys()[j] != key@ by {
                    if j < i {
                        assert(order::precedes(self.keys()[j], key@));
                    } else {
                        assert(order::precedes(key@, self.keys()[j]));
                    }
                }
            }
        }
        (i, hit)
    }

    /// The value under `key`.
    pub fn get(&self, key: &str) -> (r: Option<&V>)
        ensures
            match r {
                Some(v) => self@.contains_key(key@) && v.deep_view() == self@[key@],
                None => !self@.contains_key(key@),
            },
    {
        let (i, hit) = self.place(key);
        proof {
            use_type_invariant(self);
            self.lemma_entries();
        }
        if hit {
            assert(self@.contains_key(self.keys()[i as int]));
            Some(&self.entries[i].1)
        } else {
            None
        }
    }

    /// Whether there is a value under `key`.
    pub fn contains_key(&self, key: &str) -> (b: bool)
        ensures
            b == self@.contains_key(key@),
    {
        self.get(key).is_some()
    }

    /// Puts `value` under `key`, in the place of what was there.
    pub fn insert(&mut self, key: String, value: V)
        ensures
            final(self)@ == old(self)@.insert(key@, value.deep_view()),
    {
        let (i, hit) = self.place(key.as_str());
        proof {
            use_type_invariant(&*self);
            self.lemma_entries();
        }
        let ghost before = *self;
        let mut e: Vec<(String, V)> = Vec::new();
        std::mem::swap(&mut e, &mut self.entries);
        if hit {
            e.remove(i);
        }
        e.insert(i, (key, value));
        proof {
            let m = OrdMap { entries: e };
            let ks = m.keys();
            if hit {
                assert(ks =~= before.keys());
                assert(m.values() =~= before.values().update(i as int, value.deep_view()));
            } else {
                assert(ks =~= before.keys().insert(i as int, key@));
                assert(m.values() =~= before.values().insert(i as int, value.deep_view()));
                assert forall|a: int, b: int| 0 <= a < b < ks.len() implies order::precedes(
                    #[trigger] ks[a],
                    #[trigger] ks[b],
                ) by {
                    let a0 = if a < i { a } else { a - 1 };
                    let b0 = if b < i { b } else { b - 1 };
                    if a != i && b != i {
                        assert(precedes_at(before.keys(), a0, b0));
                    } else if a == i {
                        assert(ks[b] == before.keys()[b0]);
                    } else {
                        assert(ks[a] == before.keys()[a0]);
                    }
                }
            }
            assert(m.wf());
            m.lemma_entries();
            let target = before@.insert(key@, value.deep_view());
            assert forall|k: Seq<char>| m@.contains_key(k) == target.contains_key(k) by {
                if m@.contains_key(k) {
                    let j = choose|j: int| 0 <= j < ks.len() && ks[j] == k;
                    if j != i {
                        let j0 = if hit || j < i { j } else { j - 1 };
                        assert(before.keys()[j0] == k);
                        assert(before.keys().contains(k));
                    }
                }
                if target.contains_key(k) {
                    if k == key@ {
                        assert(ks[i as int] == k);
                        assert(ks.contains(k));
                    } else {
                        let j = choose|j: int| 0 <= j < before.keys().len() && before.keys()[j] == k;
                        let j1 = if hit || j < i { j } else { j + 1 };
                        assert(ks[j1] == k);
                        assert(ks.contains(k));
                    }
                }
            }
            assert forall|k: Seq<char>| #[trigger] m@.contains_key(k) implies m@[k] == target[k] by {
                let j = choose|j: int| 0 <= j < ks.len() && ks[j] == k;
                assert(m@[ks[j]] == m.values()[j]);
                if j != i {
                    let j0 = if hit || j < i { j } else { j - 1 };
                    assert(before.keys()[j0] == k);
                    assert(before@[before.keys()[j0]] == before.values()[j0]);
                    if k == key@ {
                        if hit {
                            assert(ks[i as int] == key@);
                        } else {
                            assert(before.keys().contains(key@));
                        }
                    }
                }
            }
            assert(m@ =~= target);
        }
        self.entries = e;
    }

    /// Takes away what is under `key`.
    pub fn remove(&mut self, key: &str)
        ensures
            final(self)@ == old(self)@.remove(key@),
    {
        let (i, hit) = self.place(key);
        proof {
            use_type_invariant(&*self);
            self.lemma_entries();
        }
        let ghost before = *self;
        if hit {
            let mut e: Vec<(String, V)> = Vec::new();
            std::mem::swap(&mut e, &mut self.entries);
            e.remove(i);
            proof {
                let m = OrdMap { entries: e };
                let ks = m.keys();
                assert(ks =~= before.keys().remove(i as int));
                assert(m.values() =~= before.values().remove(i as int));
                assert forall|a: int, b: int| 0 <= a < b < ks.len() implies order::precedes(
                    #[trigger] ks[a],
                    #[trigger] ks[b],
                ) by {
                    let a0 = if a < i { a } else { a + 1 };
                    let b0 = if b < i { b } else { b + 1 };
                    assert(precedes_at(before.keys(), a0, b0));
                }
                assert(m.wf());
                m.lemma_entries();
                let target = before@.remove(key@);
                assert forall|k: Seq<char>| m@.contains_key(k) == target.contains_key(k) by {
                    if m@.contains_key(k) {
                        let j = choose|j: int| 0 <= j < ks.len() && ks[j] == k;
                        let j0 = if j < i { j } else { j + 1 };
                        assert(before.keys()[j0] == k);
                        assert(before.keys().contains(k));
                    }
                    if target.contains_key(k) {
                        let j = choose|j: int| 0 <= j < before.keys().len() && before.keys()[j] == k;
                        let j1 = if j < i { j } else { j - 1 };
                        assert(ks[j1] == k);
                        assert(ks.contains(k));
                    }
                }
                assert forall|k: Seq<char>| #[trigger] m@.contains_key(k) implies m@[k]
                    == target[k] by {
                    let j = choose|j: int| 0 <= j < ks.len() && ks[j] == k;
                    let j0 = if j < i { j } else { j + 1 };
                    assert(m@[ks[j]] == m.values()[j]);
                    assert(before.keys()[j0] == k);
                    assert(before@[before.keys()[j0]] == before.values()[j0]);
                }
                assert(m@ =~= target);
            }
            self.entries = e;
        } else {
            assert(self@ =~= self@.remove(key@));
        }
    }
}

/// A value that can be copied.
pub trait Copied: DeepView + Sized {
    /// A copy of the value.
    fn copied(&self) -> (r: Self)
        ensures
            r.deep_view() == self.deep_view(),
    ;
}

impl Copied for String {
    fn copied(&self) -> (r: String) {
        self.clone()
    }
}

/// The part of a map whose values pass `p`.
pub open spec fn where_value<V>(m: Map<Seq<char>, V>, p: spec_fn(V) -> bool) -> Map<Seq<char>, V> {
    Map::new(|k: Seq<char>| m.contains_key(k) && p(m[k]), |k: Seq<char>| m[k])
}

impl<V: Copied> OrdMap<V> {
    /// A copy of the part of the map whose values `keep` holds of.
    pub(crate) fn part<F: Fn(&V) -> bool>(
        &self,
        keep: F,
        Ghost(p): Ghost<spec_fn(V::V) -> bool>,
    ) -> (m: OrdMap<V>)
        requires
            forall|v: &V| call_requires(keep, (v,)),
            forall|v: &V, b: bool| call_ensures(keep, (v,), b) ==> b == p(v.deep_view()),
        ensures
            m@ == where_value(self@, p),
    {
        let mut m: OrdMap<V> = OrdMap::new();
        let ghost ks = self.keys();
        proof {
            use_type_invariant(self);
            self.lemma_entries();
        }
        let n: usize = self.len();
        for i in 0..n
            invariant
                n == ks.len(),
                ks == self.keys(),
                ks.no_duplicates(),
                ks.to_set() == self@.dom(),
                ks.len() == self.values().len(),
                forall|j: int|
                    0 <= j < ks.len() ==> self@.contains_key(#[trigger] ks[j]) && self@[ks[j]]
                        == self.values()[j],
                forall|v: &V| call_requires(keep, (v,)),
                forall|v: &V, b: bool| call_ensures(keep, (v,), b) ==> b == p(v.deep_view()),
                forall|k: Seq<char>| #[trigger]
                    m@.contains_key(k) == (ks.take(i as int).contains(k) && p(self@[k])),
                forall|k: Seq<char>| #[trigger] m@.contains_key(k) ==> m@[k] == self@[k],
        {
            let ghost before = m@;
            if keep(self.value_at(i)) {
                m.insert(self.key_at(i).clone(), self.value_at(i).copied());
            }
            proof {
                assert(self@[ks[i as int]] == self.values()[i as int]);
                let now = ks.take(i + 1);
                assert(now =~= ks.take(i as int).push(ks[i as int]));
                assert forall|k: Seq<char>| now.contains(k) == (ks.take(i as int).contains(k) || k
                    == ks[i as int]) by {
                    if ks.take(i as int).contains(k) {
                        let j = choose|j: int| 0 <= j < i && ks.take(i as int)[j] == k;
                        assert(now[j] == k);
                    }
                    assert(now[i as int] == ks[i as int]);
                }
            }
        }
        proof {
            assert(ks.take(n as int) =~= ks);
            assert forall|k: Seq<char>| ks.contains(k) == self@.contains_key(k) by {
                assert(ks.to_set().contains(k) == ks.contains(k));
            }
            assert(m@ =~= where_value(self@, p));
        }
        m
    }
}

impl<V: Copied> Copied for OrdMap<V> {
    fn copied(&self) -> (r: OrdMap<V>) {
        let ghost p = |v: V::V| true;
        let all = |v: &V| -> (b: bool)
            ensures
                b == p(v.deep_view()),
        {
            true
        };
        let r = self.part(all, Ghost(p));
        assert(r@ =~= self@);
        r
    }
}

/// Two positions of `s` are in order.
spec fn precedes_at(s: Seq<Seq<char>>, i: int, j: int) -> bool {
    order::precedes(s[i], s[j])
}

} // verus!
