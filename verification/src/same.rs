//! Equality of values, and whether a value is well formed.

use vstd::prelude::*;
use crate::keys::{entry_keys, find_key, key_pos, lemma_key_pos, lemma_key_pos_is};
use crate::codec::{decode_spec, encode_spec};
use crate::hint::hint_of;
use crate::laws::lemma_round_trip;
use crate::value::{
    field_models, keys_of, lemma_array_model, lemma_map_model, value_models, well_formed, Value,
    ValueModel,
};

verus! {

/// Two values are the same: the same variant with the same payload; lists
/// element by element in their order; maps where each names the fields that
/// the other names, with the same value under each name, in whatever order.
pub open spec fn same(a: ValueModel, b: ValueModel) -> bool
    decreases a,
{
    match a {
        ValueModel::Array(s) => b is Array && b->Array_0.len() == s.len() && forall|i: int|
            0 <= i < s.len() ==> same(#[trigger] s[i], b->Array_0[i]),
        ValueModel::Fields(f) => b is Fields && (forall|i: int|
            0 <= i < f.len() ==> key_pos(
                keys_of(b->Fields_0),
                (#[trigger] f[i]).0,
                b->Fields_0.len(),
            ) < b->Fields_0.len() && same(
                f[i].1,
                b->Fields_0[key_pos(keys_of(b->Fields_0), f[i].0, b->Fields_0.len()) as int].1,
            )) && (forall|j: int|
            0 <= j < b->Fields_0.len() ==> key_pos(keys_of(f), (#[trigger] b->Fields_0[j]).0, f.len())
                < f.len()),
        _ => a == b,
    }
}

/// A value is the same as itself, where it is well formed.
pub proof fn lemma_same_reflexive(v: ValueModel)
    requires
        well_formed(v),
    ensures
        same(v, v),
    decreases v,
{
    match v {
        ValueModel::Array(s) => {
            assert forall|i: int| 0 <= i < s.len() implies same(#[trigger] s[i], s[i]) by {
                lemma_same_reflexive(s[i]);
            }
        },
        ValueModel::Fields(f) => {
            assert forall|i: int| 0 <= i < f.len() implies key_pos(
                keys_of(f),
                (#[trigger] f[i]).0,
                f.len(),
            ) == i && same(f[i].1, f[i].1) by {
                assert forall|j: int| 0 <= j < i implies keys_of(f)[j] != f[i].0 by {
                    assert(keys_of(f)[j] != keys_of(f)[i]);
                }
                lemma_key_pos_is(keys_of(f), f[i].0, f.len(), i);
                lemma_same_reflexive(f[i].1);
            }
        },
        _ => {},
    }
}

/// What is read back from the tree of a well-formed value, under the
/// value's own hint, is the same as the value.
pub proof fn lemma_round_trip_same(v: ValueModel)
    requires
        well_formed(v),
    ensures
        decode_spec(encode_spec(v), hint_of(v)) matches Ok(w) && same(w, v),
{
    lemma_round_trip(v);
    lemma_same_reflexive(v);
}

fn same_bytes(a: &Vec<u8>, b: &Vec<u8>) -> (r: bool)
    ensures
        r == (a@ == b@),
{
    if a.len() != b.len() {
        return false;
    }
    let mut i: usize = 0;
    while i < a.len()
        invariant
            i <= a@.len(),
            a@.len() == b@.len(),
            forall|j: int| 0 <= j < i ==> a@[j] == b@[j],
        decreases a@.len() - i,
    {
        if a[i] != b[i] {
            return false;
        }
        i += 1;
    }
    assert(a@ =~= b@);
    true
}

fn same_items(a: &Vec<Value>, b: &Vec<Value>) -> (r: bool)
    ensures
        r == same(ValueModel::Array(value_models(a@)), ValueModel::Array(value_models(b@))),
    decreases a,
{
    if a.len() != b.len() {
        return false;
    }
    let mut i: usize = 0;
    while i < a.len()
        invariant
            i <= a@.len(),
            a@.len() == b@.len(),
            forall|j: int| 0 <= j < i ==> same(#[trigger] value_models(a@)[j], value_models(b@)[j]),
        decreases a@.len() - i,
    {
        if !a[i].same(&b[i]) {
            proof {
                let va = ValueModel::Array(value_models(a@));
                let vb = ValueModel::Array(value_models(b@));
                if same(va, vb) {
                    assert(same(va->Array_0[i as int], vb->Array_0[i as int]));
                }
            }
            return false;
        }
        i += 1;
    }
    true
}

fn same_fields(a: &Vec<(String, Value)>, b: &Vec<(String, Value)>) -> (r: bool)
    ensures
        r == same(ValueModel::Fields(field_models(a@)), ValueModel::Fields(field_models(b@))),
    decreases a,
{
    let ghost f = field_models(a@);
    let ghost g = field_models(b@);
    proof {
        assert(keys_of(f) =~= entry_keys(a@));
        assert(keys_of(g) =~= entry_keys(b@));
    }
    let mut i: usize = 0;
    while i < a.len()
        invariant
            i <= a@.len(),
            f == field_models(a@),
            g == field_models(b@),
            keys_of(f) == entry_keys(a@),
            keys_of(g) == entry_keys(b@),
            forall|j: int|
                0 <= j < i ==> key_pos(keys_of(g), (#[trigger] f[j]).0, g.len()) < g.len() && same(
                    f[j].1,
                    g[key_pos(keys_of(g), f[j].0, g.len()) as int].1,
                ),
        decreases a@.len() - i,
    {
        let p = find_key(b, &a[i].0, b.len());
        if p >= b.len() {
            proof {
                assert(f[i as int].0 == a@[i as int].0@);
                let va = ValueModel::Fields(f);
                let vb = ValueModel::Fields(g);
                if same(va, vb) {
                    assert(key_pos(
                        keys_of(vb->Fields_0),
                        va->Fields_0[i as int].0,
                        vb->Fields_0.len(),
                    ) < vb->Fields_0.len());
                }
            }
            return false;
        }
        if !a[i].1.same(&b[p].1) {
            proof {
                assert(f[i as int].0 == a@[i as int].0@);
                let va = ValueModel::Fields(f);
                let vb = ValueModel::Fields(g);
                if same(va, vb) {
                    assert(same(
                        va->Fields_0[i as int].1,
                        vb->Fields_0[key_pos(
                            keys_of(vb->Fields_0),
                            va->Fields_0[i as int].0,
                            vb->Fields_0.len(),
                        ) as int].1,
                    ));
                }
            }
            return false;
        }
        i += 1;
    }
    let mut j: usize = 0;
    while j < b.len()
        invariant
            j <= b@.len(),
            f == field_models(a@),
            g == field_models(b@),
            keys_of(f) == entry_keys(a@),
            keys_of(g) == entry_keys(b@),
            forall|k: int|
                0 <= k < j ==> key_pos(keys_of(f), (#[trigger] g[k]).0, f.len()) < f.len(),
        decreases b@.len() - j,
    {
        let p = find_key(a, &b[j].0, a.len());
        if p >= a.len() {
            proof {
                assert(g[j as int].0 == b@[j as int].0@);
                let va = ValueModel::Fields(f);
                let vb = ValueModel::Fields(g);
                if same(va, vb) {
                    assert(key_pos(
                        keys_of(va->Fields_0),
                        vb->Fields_0[j as int].0,
                        va->Fields_0.len(),
                    ) < va->Fields_0.len());
                }
            }
            return false;
        }
        j += 1;
    }
    true
}

impl Value {
    /// Whether two values are the same, maps compared without regard to the
    /// order of their fields.
    pub fn same(&self, other: &Value) -> (r: bool)
        ensures
            r == same(self@, other@),
        decreases self,
    {
        match (self, other) {
            (Value::NullValue, Value::NullValue) => true,
            (Value::BooleanValue(a), Value::BooleanValue(b)) => *a == *b,
            (Value::IntegerValue(a), Value::IntegerValue(b)) => *a == *b,
            (Value::DoubleValue(a), Value::DoubleValue(b)) => *a == *b,
            (Value::TimestampValue(a), Value::TimestampValue(b)) => a.seconds == b.seconds
                && a.nanos == b.nanos,
            (Value::StringValue(a), Value::StringValue(b)) => *a == *b,
            (Value::BytesValue(a), Value::BytesValue(b)) => same_bytes(a, b),
            (Value::ReferenceValue(a), Value::ReferenceValue(b)) => *a == *b,
            (Value::GeoPointValue(a), Value::GeoPointValue(b)) => a.latitude == b.latitude
                && a.longitude == b.longitude,
            (Value::ArrayValue(a), Value::ArrayValue(b)) => {
                proof {
                    lemma_array_model(*self);
                    lemma_array_model(*other);
                }
                same_items(&a.values, &b.values)
            },
            (Value::MapValue(a), Value::MapValue(b)) => {
                proof {
                    lemma_map_model(*self);
                    lemma_map_model(*other);
                }
                same_fields(&a.fields, &b.fields)
            },
            _ => false,
        }
    }

    /// Whether no map in the value, at any depth, names a field twice.
    pub fn is_well_formed(&self) -> (r: bool)
        ensures
            r == well_formed(self@),
        decreases self,
    {
        match self {
            Value::ArrayValue(a) => {
                proof {
                    lemma_array_model(*self);
                }
                let mut i: usize = 0;
                while i < a.values.len()
                    invariant
                        i <= a.values@.len(),
                        self matches Value::ArrayValue(x) && x == a,
                        self@ == ValueModel::Array(value_models(a.values@)),
                        forall|j: int| 0 <= j < i ==> well_formed(#[trigger] value_models(a.values@)[j]),
                    decreases a.values@.len() - i,
                {
                    if !a.values[i].is_well_formed() {
                        proof {
                            if well_formed(self@) {
                                assert(well_formed(self@->Array_0[i as int]));
                            }
                        }
                        return false;
                    }
                    i += 1;
                }
                true
            },
            Value::MapValue(m) => {
                proof {
                    lemma_map_model(*self);
                    assert(keys_of(field_models(m.fields@)) =~= entry_keys(m.fields@));
                }
                let mut i: usize = 0;
                while i < m.fields.len()
                    invariant
                        i <= m.fields@.len(),
                        self matches Value::MapValue(x) && x == m,
                        self@ == ValueModel::Fields(field_models(m.fields@)),
                        keys_of(field_models(m.fields@)) == entry_keys(m.fields@),
                        forall|j: int|
                            0 <= j < i ==> well_formed((#[trigger] field_models(m.fields@)[j]).1),
                        forall|j: int, k: int|
                            0 <= j < k < i ==> entry_keys(m.fields@)[j] != entry_keys(m.fields@)[k],
                    decreases m.fields@.len() - i,
                {
                    let p = find_key(&m.fields, &m.fields[i].0, i);
                    proof {
                        lemma_key_pos(entry_keys(m.fields@), m.fields@[i as int].0@, i as nat);
                    }
                    if p < i {
                        assert(entry_keys(m.fields@)[p as int] == entry_keys(m.fields@)[i as int]);
                        return false;
                    }
                    if !m.fields[i].1.is_well_formed() {
                        proof {
                            if well_formed(self@) {
                                assert(well_formed(self@->Fields_0[i as int].1));
                            }
                        }
                        return false;
                    }
                    i += 1;
                }
                true
            },
            _ => true,
        }
    }
}

} // verus!
