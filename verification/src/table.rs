//! A small map from names to values that remembers the order of insertion.
//!
//! Shapes, instances and field lists are all tables. The mathematical
//! content of a table is a pair of sequences of equal length, the names
//! (without repetition) and the values; its view is the finite map they
//! describe.

use vstd::prelude::*;

verus! {

#[derive(Debug)]
struct Slot<V> {
    key: String,
    value: V,
}

/// An insertion-ordered map keyed by text.
#[derive(Debug)]
pub struct Table<V> {
    slots: Vec<Slot<V>>,
}

/// The names after one is put in: a name that is there keeps its place, a
/// new one goes to the end.
pub open spec fn put_name(names: Seq<Seq<char>>, name: Seq<char>) -> Seq<Seq<char>> {
    if names.contains(name) {
        names
    } else {
        names.push(name)
    }
}

/// The names after one is taken out. The others keep their order.
pub open spec fn drop_name(names: Seq<Seq<char>>, name: Seq<char>) -> Seq<Seq<char>> {
    if names.contains(name) {
        names.remove(names.index_of(name))
    } else {
        names
    }
}

impl<V> View for Table<V> {
    type V = Map<Seq<char>, V>;

    open spec fn view(&self) -> Map<Seq<char>, V> {
        Map::new(
            |k: Seq<char>| self.keys().contains(k),
            |k: Seq<char>| self.vals()[self.keys().index_of(k)],
        )
    }
}

spec fn slot_keys<V>(slots: Seq<Slot<V>>) -> Seq<Seq<char>> {
    Seq::new(slots.len(), |i: int| slots[i].key@)
}

spec fn slot_vals<V>(slots: Seq<Slot<V>>) -> Seq<V> {
    Seq::new(slots.len(), |i: int| slots[i].value)
}

impl<V> Table<V> {
    /// The names, in the order in which they were first inserted.
    pub closed spec fn keys(&self) -> Seq<Seq<char>> {
        slot_keys(self.slots@)
    }

    /// The values, in the order of their names.
    pub closed spec fn vals(&self) -> Seq<V> {
        slot_vals(self.slots@)
    }

    /// No name occurs twice, and every name has its value.
    #[verifier::type_invariant]
    pub open spec fn wf(&self) -> bool {
        &&& self.keys().no_duplicates()
        &&& self.keys().len() == self.vals().len()
    }

    /// In a well-formed table the value at a position belongs to the name
    /// at that position.
    pub proof fn lemma_at(&self, i: int)
        requires
            self.wf(),
            0 <= i < self.keys().len(),
        ensures
            self@.contains_key(self.keys()[i]),
            self@[self.keys()[i]] == self.vals()[i],
    {
        let k = self.keys()[i];
        assert(self.keys().contains(k));
        let j = self.keys().index_of(k);
        assert(0 <= j < self.keys().len() && self.keys()[j] == k);
    }

    /// The domain of the view is the set of names, which is finite.
    pub proof fn lemma_dom(&self)
        ensures
            self@.dom() =~= self.keys().to_set(),
            self@.dom().finite(),
    {
        vstd::seq_lib::seq_to_set_is_finite(self.keys());
        assert(self@.dom() =~= self.keys().to_set());
    }

    /// A table with no entry.
    pub fn new() -> (r: Self)
        ensures
            r.keys() == Seq::<Seq<char>>::empty(),
            r.vals() == Seq::<V>::empty(),
            r@ == Map::<Seq<char>, V>::empty(),
    {
        let r = Table { slots: Vec::new() };
        assert(r.keys() =~= Seq::<Seq<char>>::empty());
        assert(r.vals() =~= Seq::<V>::empty());
        assert(r@ =~= Map::<Seq<char>, V>::empty());
        r
    }

    /// The number of entries.
    pub fn len(&self) -> (n: usize)
        ensures
            n == self.keys().len(),
            n == self.vals().len(),
    {
        self.slots.len()
    }

    /// The position of a name, if the table holds it.
    pub fn find(&self, key: &str) -> (r: Option<usize>)
        ensures
            match r {
                Some(i) => i < self.keys().len() && self.keys()[i as int] == key@,
                None => !self.keys().contains(key@),
            },
            r is Some <==> self@.contains_key(key@),
    {
        let wanted = key.to_owned();
        let mut i: usize = 0;
        while i < self.slots.len()
            invariant
                i <= self.slots.len(),
                wanted@ == key@,
                forall|j: int| 0 <= j < i ==> self.keys()[j] != key@,
            decreases self.slots.len() - i,
        {
            if self.slots[i].key == wanted {
                assert(self.keys()[i as int] == key@);
                return Some(i);
            }
            i = i + 1;
        }
        None
    }

    /// Whether the table holds a name.
    pub fn contains_key(&self, key: &str) -> (r: bool)
        ensures
            r == self@.contains_key(key@),
    {
        self.find(key).is_some()
    }

    /// The value stored under a name.
    pub fn get(&self, key: &str) -> (r: Option<&V>)
        ensures
            match r {
                Some(v) => self@.contains_key(key@) && *v == self@[key@],
                None => !self@.contains_key(key@),
            },
    {
        match self.find(key) {
            Some(i) => {
                proof {
                    use_type_invariant(self);
                    self.lemma_at(i as int);
                }
                Some(&self.slots[i].value)
            },
            None => None,
        }
    }

    /// The entry at a position, if there is one.
    pub fn entry(&self, i: usize) -> (r: Option<(&String, &V)>)
        ensures
            match r {
                Some((k, v)) => i < self.keys().len() && k@ == self.keys()[i as int] && *v
                    == self.vals()[i as int],
                None => i >= self.keys().len(),
            },
    {
        if i < self.slots.len() {
            Some((&self.slots[i].key, &self.slots[i].value))
        } else {
            None
        }
    }

    /// The name at a position.
    pub(crate) fn key_at(&self, i: usize) -> (k: &String)
        requires
            i < self.keys().len(),
        ensures
            k@ == self.keys()[i as int],
    {
        &self.slots[i].key
    }

    /// The value at a position.
    pub(crate) fn value_at(&self, i: usize) -> (v: &V)
        requires
            i < self.keys().len(),
        ensures
            *v == self.vals()[i as int],
            self@.contains_key(self.keys()[i as int]),
            *v == self@[self.keys()[i as int]],
    {
        proof {
            use_type_invariant(self);
            self.lemma_at(i as int);
        }
        &self.slots[i].value
    }

    /// Stores a value under a name. A name that is already there keeps its
    /// place and gets the new value; a new name goes to the end.
    pub fn insert(&mut self, key: String, value: V)
        ensures
            final(self)@ == old(self)@.insert(key@, value),
            final(self).keys() == put_name(old(self).keys(), key@),
            old(self).keys().contains(key@) ==> final(self).keys() == old(self).keys()
                && final(self).vals() == old(self).vals().update(
                old(self).keys().index_of(key@),
                value,
            ),
            !old(self).keys().contains(key@) ==> final(self).keys() == old(self).keys().push(key@)
                && final(self).vals() == old(self).vals().push(value),
    {
        proof {
            use_type_invariant(&*self);
        }
        let ghost before = *self;
        match self.find(key.as_str()) {
            Some(i) => {
                let ghost name = key@;
                let mut slots: Vec<Slot<V>> = Vec::new();
                std::mem::swap(&mut self.slots, &mut slots);
                slots.set(i, Slot { key, value });
                assert(slot_keys(slots@) =~= before.keys());
                self.slots = slots;
                proof {
                    assert(self.keys() =~= before.keys());
                    assert(before.keys().index_of(name) == i as int);
                    assert(self.vals() =~= before.vals().update(i as int, value));
                    assert forall|k: Seq<char>| self@.contains_key(k) implies #[trigger] self@[k]
                        == before@.insert(name, value)[k] by {
                        let j = self.keys().index_of(k);
                        assert(0 <= j < self.keys().len() && self.keys()[j] == k);
                    }
                    assert(self@ =~= before@.insert(name, value));
                }
            },
            None => {
                let ghost name = key@;
                let mut slots: Vec<Slot<V>> = Vec::new();
                std::mem::swap(&mut self.slots, &mut slots);
                slots.push(Slot { key, value });
                assert(slot_keys(slots@) =~= before.keys().push(name));
                self.slots = slots;
                proof {
                    assert(self.keys() =~= before.keys().push(name));
                    assert(self.vals() =~= before.vals().push(value));
                    let n = before.keys().len() as int;
                    assert(self.keys()[n] == name);
                    assert forall|k: Seq<char>| #[trigger]
                        self.keys().contains(k) <==> (k == name || before.keys().contains(k)) by {
                        if self.keys().contains(k) {
                            let j = self.keys().index_of(k);
                            assert(0 <= j < self.keys().len() && self.keys()[j] == k);
                            if j < n {
                                assert(before.keys()[j] == k);
                            }
                        }
                        if before.keys().contains(k) {
                            let j = before.keys().index_of(k);
                            assert(0 <= j < n && before.keys()[j] == k);
                            assert(self.keys()[j] == k);
                        }
                    }
                    assert forall|k: Seq<char>| self@.contains_key(k) implies #[trigger] self@[k]
                        == before@.insert(name, value)[k] by {
                        let j = self.keys().index_of(k);
                        assert(0 <= j < self.keys().len() && self.keys()[j] == k);
                        if k != name {
                            let j0 = before.keys().index_of(k);
                            assert(0 <= j0 < n && before.keys()[j0] == k);
                            assert(self.keys()[j0] == k);
                        }
                    }
                    assert(self@ =~= before@.insert(name, value));
                }
            },
        }
    }

    /// Takes a name and its value out. The other entries keep their order.
    pub fn remove(&mut self, key: &str)
        ensures
            final(self)@ == old(self)@.remove(key@),
            final(self).keys() == drop_name(old(self).keys(), key@),
            old(self).keys().contains(key@) ==> final(self).keys() == old(self).keys().remove(
                old(self).keys().index_of(key@),
            ) && final(self).vals() == old(self).vals().remove(old(self).keys().index_of(key@)),
            !old(self).keys().contains(key@) ==> final(self).keys() == old(self).keys()
                && final(self).vals() == old(self).vals(),
    {
        proof {
            use_type_invariant(&*self);
        }
        let ghost before = *self;
        match self.find(key) {
            Some(i) => {
                let mut slots: Vec<Slot<V>> = Vec::new();
                std::mem::swap(&mut self.slots, &mut slots);
                slots.remove(i);
                assert(slot_keys(slots@) =~= before.keys().remove(i as int));
                assert(before.keys().remove(i as int).no_duplicates()) by {
                    let r = before.keys().remove(i as int);
                    assert forall|a: int, b: int| 0 <= a < r.len() && 0 <= b < r.len() && a != b
                        implies r[a] != r[b] by {
                        let a0 = if a < i { a } else { a + 1 };
                        let b0 = if b < i { b } else { b + 1 };
                        assert(r[a] == before.keys()[a0] && r[b] == before.keys()[b0]);
                    }
                }
                self.slots = slots;
                proof {
                    let p = i as int;
                    assert(before.keys().index_of(key@) == p);
                    assert(self.keys() =~= before.keys().remove(p));
                    assert(self.vals() =~= before.vals().remove(p));
                    assert forall|k: Seq<char>| #[trigger]
                        self.keys().contains(k) <==> (k != key@ && before.keys().contains(k)) by {
                        if self.keys().contains(k) {
                            let j = self.keys().index_of(k);
                            assert(0 <= j < self.keys().len() && self.keys()[j] == k);
                            if j < p {
                                assert(before.keys()[j] == k);
                            } else {
                                assert(before.keys()[j + 1] == k);
                            }
                        }
                        if k != key@ && before.keys().contains(k) {
                            let j = before.keys().index_of(k);
                            assert(0 <= j < before.keys().len() && before.keys()[j] == k);
                            if j < p {
                                assert(self.keys()[j] == k);
                            } else {
                                assert(self.keys()[j - 1] == k);
                            }
                        }
                    }
                    assert forall|k: Seq<char>| self@.contains_key(k) implies #[trigger] self@[k]
                        == before@.remove(key@)[k] by {
                        let j = self.keys().index_of(k);
                        assert(0 <= j < self.keys().len() && self.keys()[j] == k);
                        let j0 = before.keys().index_of(k);
                        assert(0 <= j0 < before.keys().len() && before.keys()[j0] == k);
                        if j < p {
                            assert(before.keys()[j] == k);
                        } else {
                            assert(before.keys()[j + 1] == k);
                        }
                    }
                    assert(self@ =~= before@.remove(key@));
                }
            },
            None => {
                assert(self@ =~= before@.remove(key@));
            },
        }
    }
}

} // verus!
