//! Instances: the fields of one record, each with its value.

use vstd::prelude::*;
use crate::table::Table;
use crate::value::{Datum, DatumView};

verus! {

/// The fields of one record. The view is the map from each field's name to
/// the content of its value.
#[derive(Debug)]
pub struct Instance {
    fields: Table<Datum>,
}

impl View for Instance {
    type V = Map<Seq<char>, DatumView>;

    closed spec fn view(&self) -> Map<Seq<char>, DatumView> {
        self.fields@.map_values(|v: Datum| v@)
    }
}

impl Instance {
    /// The names of the fields, in the order in which they were set.
    pub closed spec fn names(&self) -> Seq<Seq<char>> {
        self.fields.keys()
    }

    /// The fields of an instance are those that its names name.
    pub proof fn lemma_names(&self)
        ensures
            self@.dom() =~= self.names().to_set(),
    {
        self.fields.lemma_dom();
    }

    /// An instance without fields.
    pub fn new() -> (r: Instance)
        ensures
            r@ == Map::<Seq<char>, DatumView>::empty(),
            r.names() == Seq::<Seq<char>>::empty(),
    {
        let r = Instance { fields: Table::new() };
        assert(r@ =~= Map::<Seq<char>, DatumView>::empty());
        r
    }

    /// The number of fields.
    pub fn len(&self) -> (n: usize)
        ensures
            n == self.names().len(),
    {
        self.fields.len()
    }

    /// Gives a field its value; a field that is new goes to the end.
    pub fn set(&mut self, name: String, value: Datum)
        ensures
            final(self)@ == old(self)@.insert(name@, value@),
            old(self)@.contains_key(name@) ==> final(self).names() == old(self).names(),
            !old(self)@.contains_key(name@) ==> final(self).names() == old(self).names().push(
                name@,
            ),
    {
        let ghost before = self.fields@;
        self.fields.insert(name, value);
        assert(self@ =~= before.map_values(|v: Datum| v@).insert(name@, value@));
    }

    /// The value of a field.
    pub fn get(&self, name: &str) -> (r: Option<&Datum>)
        ensures
            match r {
                Some(v) => self@.contains_key(name@) && v@ == self@[name@],
                None => !self@.contains_key(name@),
            },
    {
        self.fields.get(name)
    }

    /// Whether the instance has a field of that name.
    pub fn has(&self, name: &str) -> (r: bool)
        ensures
            r == self@.contains_key(name@),
    {
        self.fields.contains_key(name)
    }

    /// A deep copy, with the fields in the same order.
    pub fn duplicate(&self) -> (r: Instance)
        ensures
            r@ == self@,
            r.names() == self.names(),
    {
        proof {
            use_type_invariant(&self.fields);
        }
        let mut out: Table<Datum> = Table::new();
        let mut i: usize = 0;
        while i < self.fields.len()
            invariant
                self.fields.wf(),
                i <= self.fields.keys().len(),
                out.keys() == self.fields.keys().take(i as int),
                out.vals().len() == i,
                forall|j: int| 0 <= j < i ==> (#[trigger] out.vals()[j])@ == self.fields.vals()[j]@,
            decreases self.fields.keys().len() - i,
        {
            let name = self.fields.key_at(i).clone();
            let value = self.fields.value_at(i).duplicate();
            let ghost before = out;
            assert(!before.keys().contains(name@)) by {
                if before.keys().contains(name@) {
                    let j = before.keys().index_of(name@);
                    assert(0 <= j < i && self.fields.keys()[j] == name@);
                }
            }
            out.insert(name, value);
            i = i + 1;
            assert(out.keys() =~= self.fields.keys().take(i as int));
        }
        let r = Instance { fields: out };
        proof {
            use_type_invariant(&r.fields);
            assert(self.fields.keys().take(i as int) =~= self.fields.keys());
            assert forall|k: Seq<char>| r@.contains_key(k) implies #[trigger] r@[k] == self@[k] by {
                let j = r.fields.keys().index_of(k);
                assert(0 <= j < r.fields.keys().len() && r.fields.keys()[j] == k);
                r.fields.lemma_at(j);
                self.fields.lemma_at(j);
            }
            assert(r@ =~= self@);
        }
        r
    }

    /// The field at a position, if there is one.
    pub fn entry(&self, i: usize) -> (r: Option<(&String, &Datum)>)
        ensures
            match r {
                Some((name, value)) => i < self.names().len() && name@ == self.names()[i as int]
                    && self@.contains_key(name@) && value@ == self@[name@],
                None => i >= self.names().len(),
            },
    {
        if i < self.fields.len() {
            Some((self.fields.key_at(i), self.fields.value_at(i)))
        } else {
            None
        }
    }
}

} // verus!
