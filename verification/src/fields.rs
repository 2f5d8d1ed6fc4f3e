//! Building a map field by field, and looking a field up.

use vstd::prelude::*;
use crate::keys::{entry_keys, find_key, key_pos, lemma_key_pos, lemma_key_pos_is};
use crate::value::{MapValueDef, Value};

verus! {

impl MapValueDef {
    /// The keys of the fields, in their order.
    pub open spec fn keys(&self) -> Seq<Seq<char>> {
        entry_keys(self.fields@)
    }

    /// The place of the field that bears `k`, or the number of fields where
    /// none does.
    pub open spec fn place(&self, k: Seq<char>) -> nat {
        key_pos(self.keys(), k, self.fields@.len())
    }

    /// No two fields bear one key.
    pub open spec fn distinct_keys(&self) -> bool {
        forall|i: int, j: int| 0 <= i < j < self.fields@.len() ==> self.keys()[i] != self.keys()[j]
    }

    /// A map without fields.
    pub fn new() -> (m: MapValueDef)
        ensures
            m.fields@.len() == 0,
            m.distinct_keys(),
    {
        MapValueDef { fields: Vec::new() }
    }

    /// The value of the field that bears `key`; `None` where the field is
    /// absent, which is not the same as a field that holds the null value.
    /// In a map built by `insert` one field at most bears the key; in one
    /// that names it twice, which is not well formed, the first is given.
    pub fn get(&self, key: &String) -> (r: Option<&Value>)
        ensures
            match r {
                Some(v) => self.place(key@) < self.fields@.len() && *v == self.fields@[self.place(
                    key@,
                ) as int].1,
                None => self.place(key@) == self.fields@.len(),
            },
    {
        let p = find_key(&self.fields, key, self.fields.len());
        if p < self.fields.len() {
            Some(&self.fields[p].1)
        } else {
            None
        }
    }

    /// Adds a field at the end, unless a field bears the key already: then
    /// the map stays as it is and `false` is returned.
    pub fn insert(&mut self, key: String, value: Value) -> (r: bool)
        ensures
            r == (old(self).place(key@) == old(self).fields@.len()),
            r ==> final(self).fields@ == old(self).fields@.push((key, value)),
            !r ==> *final(self) == *old(self),
            old(self).distinct_keys() ==> final(self).distinct_keys(),
    {
        let p = find_key(&self.fields, &key, self.fields.len());
        if p < self.fields.len() {
            return false;
        }
        proof {
            lemma_key_pos(self.keys(), key@, self.fields@.len() as nat);
        }
        let ghost before = self.keys();
        self.fields.push((key, value));
        proof {
            assert forall|i: int, j: int| 0 <= i < j < self.fields@.len() && old(
                self,
            ).distinct_keys() implies self.keys()[i] != self.keys()[j] by {
                assert(self.keys()[i] == before[i]);
                if j < old(self).fields@.len() {
                    assert(self.keys()[j] == before[j]);
                }
            }
        }
        true
    }
}

/// A field that was added to a map is found under its key, with its value;
/// a key that no field bears is found absent after as before.
pub proof fn lemma_inserted_is_found(m: MapValueDef, key: String, value: Value, other: Seq<char>)
    requires
        m.place(key@) == m.fields@.len(),
    ensures
        ({
            let grown = m.fields@.push((key, value));
            &&& key_pos(entry_keys(grown), key@, grown.len()) == m.fields@.len()
            &&& (other != key@ && m.place(other) == m.fields@.len()) ==> key_pos(
                entry_keys(grown),
                other,
                grown.len(),
            ) == grown.len()
        }),
{
    let grown = m.fields@.push((key, value));
    lemma_key_pos(m.keys(), key@, m.fields@.len());
    assert forall|j: int| 0 <= j < m.fields@.len() implies entry_keys(grown)[j] != key@ by {
        assert(entry_keys(grown)[j] == m.keys()[j]);
    }
    lemma_key_pos_is(entry_keys(grown), key@, grown.len(), m.fields@.len() as int);
    if other != key@ && m.place(other) == m.fields@.len() {
        lemma_key_pos(m.keys(), other, m.fields@.len());
        assert forall|j: int| 0 <= j < grown.len() implies entry_keys(grown)[j] != other by {
            if j < m.fields@.len() {
                assert(entry_keys(grown)[j] == m.keys()[j]);
            }
        }
        lemma_key_pos_is(entry_keys(grown), other, grown.len(), grown.len() as int);
    }
}

} // verus!
