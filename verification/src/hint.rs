//! The expected variant of a value, which a tree alone does not tell.

use vstd::prelude::*;
use crate::value::{Value, ValueModel};

verus! {

/// Which variant a tree node is to be read as. A container's hint holds the
/// hints of what it contains: one per element of an array, one per named
/// field of a map.
#[derive(Debug, PartialEq, Eq)]
pub enum Hint {
    NullValue,
    BooleanValue,
    IntegerValue,
    DoubleValue,
    TimestampValue,
    StringValue,
    BytesValue,
    ReferenceValue,
    GeoPointValue,
    ArrayValue(Vec<Hint>),
    MapValue(Vec<(String, Hint)>),
}

/// What a `Hint` is, as mathematics.
pub ghost enum HintModel {
    Null,
    Boolean,
    Integer,
    Double,
    Timestamp,
    Text,
    Bytes,
    Reference,
    GeoPoint,
    Array(Seq<HintModel>),
    Fields(Seq<(Seq<char>, HintModel)>),
}

/// The variant that a hint names, as an error reports it.
#[derive(Debug, Clone, Copy, PartialEq, Eq, Structural)]
pub enum Kind {
    Null,
    Boolean,
    Integer,
    Double,
    Timestamp,
    Text,
    Bytes,
    Reference,
    GeoPoint,
    Array,
    Fields,
}

/// The model of a hint: its variant, and for a container the models of the
/// hints that it holds.
pub open spec fn hint_model(h: Hint) -> HintModel
    decreases h,
{
    match h {
        Hint::NullValue => HintModel::Null,
        Hint::BooleanValue => HintModel::Boolean,
        Hint::IntegerValue => HintModel::Integer,
        Hint::DoubleValue => HintModel::Double,
        Hint::TimestampValue => HintModel::Timestamp,
        Hint::StringValue => HintModel::Text,
        Hint::BytesValue => HintModel::Bytes,
        Hint::ReferenceValue => HintModel::Reference,
        Hint::GeoPointValue => HintModel::GeoPoint,
        Hint::ArrayValue(l) => HintModel::Array(
            Seq::new(
                l@.len(),
                |i: int|
                    if 0 <= i < l@.len() {
                        hint_model(l@[i])
                    } else {
                        HintModel::Null
                    },
            ),
        ),
        Hint::MapValue(o) => HintModel::Fields(
            Seq::new(
                o@.len(),
                |i: int|
                    if 0 <= i < o@.len() {
                        (o@[i].0@, hint_model(o@[i].1))
                    } else {
                        (Seq::empty(), HintModel::Null)
                    },
            ),
        ),
    }
}

impl View for Hint {
    type V = HintModel;

    open spec fn view(&self) -> HintModel {
        hint_model(*self)
    }
}

/// The models of a vector's hints, in their order.
pub open spec fn hint_models(hs: Seq<Hint>) -> Seq<HintModel> {
    Seq::new(hs.len(), |i: int| hs[i]@)
}

/// The models of a vector's named hints, in their order.
pub open spec fn named_hint_models(hs: Seq<(String, Hint)>) -> Seq<(Seq<char>, HintModel)> {
    Seq::new(hs.len(), |i: int| (hs[i].0@, hs[i].1@))
}

/// An array hint's model holds the models of its hints.
pub proof fn lemma_array_hint_model(h: Hint)
    requires
        h is ArrayValue,
    ensures
        h@ == HintModel::Array(hint_models(h->ArrayValue_0@)),
{
    assert(h@->Array_0 =~= hint_models(h->ArrayValue_0@));
}

/// A map hint's model holds the models of its named hints.
pub proof fn lemma_map_hint_model(h: Hint)
    requires
        h is MapValue,
    ensures
        h@ == HintModel::Fields(named_hint_models(h->MapValue_0@)),
{
    assert(h@->Fields_0 =~= named_hint_models(h->MapValue_0@));
}

impl HintModel {
    /// The variant that this hint names.
    pub open spec fn kind(self) -> Kind {
        match self {
            HintModel::Null => Kind::Null,
            HintModel::Boolean => Kind::Boolean,
            HintModel::Integer => Kind::Integer,
            HintModel::Double => Kind::Double,
            HintModel::Timestamp => Kind::Timestamp,
            HintModel::Text => Kind::Text,
            HintModel::Bytes => Kind::Bytes,
            HintModel::Reference => Kind::Reference,
            HintModel::GeoPoint => Kind::GeoPoint,
            HintModel::Array(_) => Kind::Array,
            HintModel::Fields(_) => Kind::Fields,
        }
    }
}

/// The hint under which a value is read back: its variant, and for a
/// container the hints of its contents, in their order and under their names.
pub open spec fn hint_of(v: ValueModel) -> HintModel
    decreases v,
{
    match v {
        ValueModel::Null => HintModel::Null,
        ValueModel::Boolean(_) => HintModel::Boolean,
        ValueModel::Integer(_) => HintModel::Integer,
        ValueModel::Double(_) => HintModel::Double,
        ValueModel::Timestamp(_, _) => HintModel::Timestamp,
        ValueModel::Text(_) => HintModel::Text,
        ValueModel::Bytes(_) => HintModel::Bytes,
        ValueModel::Reference(_) => HintModel::Reference,
        ValueModel::GeoPoint(_, _) => HintModel::GeoPoint,
        ValueModel::Array(s) => HintModel::Array(
            Seq::new(
                s.len(),
                |i: int|
                    if 0 <= i < s.len() {
                        hint_of(s[i])
                    } else {
                        HintModel::Null
                    },
            ),
        ),
        ValueModel::Fields(f) => HintModel::Fields(
            Seq::new(
                f.len(),
                |i: int|
                    if 0 <= i < f.len() {
                        (f[i].0, hint_of(f[i].1))
                    } else {
                        (Seq::empty(), HintModel::Null)
                    },
            ),
        ),
    }
}

impl Hint {
    /// The variant that this hint names.
    pub fn kind(&self) -> (r: Kind)
        ensures
            r == self@.kind(),
    {
        match self {
            Hint::NullValue => Kind::Null,
            Hint::BooleanValue => Kind::Boolean,
            Hint::IntegerValue => Kind::Integer,
            Hint::DoubleValue => Kind::Double,
            Hint::TimestampValue => Kind::Timestamp,
            Hint::StringValue => Kind::Text,
            Hint::BytesValue => Kind::Bytes,
            Hint::ReferenceValue => Kind::Reference,
            Hint::GeoPointValue => Kind::GeoPoint,
            Hint::ArrayValue(_) => Kind::Array,
            Hint::MapValue(_) => Kind::Fields,
        }
    }
}

impl Value {
    /// The hint under which this value is read back from its tree.
    pub fn hint(&self) -> (r: Hint)
        ensures
            r@ == hint_of(self@),
        decreases self,
    {
        match self {
            Value::NullValue => Hint::NullValue,
            Value::BooleanValue(_) => Hint::BooleanValue,
            Value::IntegerValue(_) => Hint::IntegerValue,
            Value::DoubleValue(_) => Hint::DoubleValue,
            Value::TimestampValue(_) => Hint::TimestampValue,
            Value::StringValue(_) => Hint::StringValue,
            Value::BytesValue(_) => Hint::BytesValue,
            Value::ReferenceValue(_) => Hint::ReferenceValue,
            Value::GeoPointValue(_) => Hint::GeoPointValue,
            Value::ArrayValue(a) => {
                let mut out: Vec<Hint> = Vec::new();
                let mut i: usize = 0;
                while i < a.values.len()
                    invariant
                        i <= a.values@.len(),
                        out@.len() == i,
                        forall|j: int| 0 <= j < i ==> (#[trigger] out@[j])@ == hint_of(a.values@[j]@),
                        self matches Value::ArrayValue(x) && x == a,
                    decreases a.values@.len() - i,
                {
                    let h = a.values[i].hint();
                    out.push(h);
                    i += 1;
                }
                let r = Hint::ArrayValue(out);
                proof {
                    assert(r@->Array_0 =~= hint_of(self@)->Array_0);
                }
                r
            },
            Value::MapValue(m) => {
                let mut out: Vec<(String, Hint)> = Vec::new();
                let mut i: usize = 0;
                while i < m.fields.len()
                    invariant
                        i <= m.fields@.len(),
                        out@.len() == i,
                        forall|j: int| 0 <= j < i ==> (#[trigger] out@[j]).0@ == m.fields@[j].0@
                            && out@[j].1@ == hint_of(m.fields@[j].1@),
                        self matches Value::MapValue(x) && x == m,
                    decreases m.fields@.len() - i,
                {
                    let h = m.fields[i].1.hint();
                    out.push((m.fields[i].0.clone(), h));
                    i += 1;
                }
                let r = Hint::MapValue(out);
                proof {
                    assert(r@->Fields_0 =~= hint_of(self@)->Fields_0);
                }
                r
            },
        }
    }
}

} // verus!
