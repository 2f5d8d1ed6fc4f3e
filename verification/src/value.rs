//! The document value: a closed set of variants, two of them containers.

use vstd::prelude::*;

verus! {

/// A point in time: whole seconds and the nanoseconds within the second.
#[derive(Debug, Clone, Copy, PartialEq, Eq, Structural)]
pub struct TimestampDef {
    pub seconds: i64,
    pub nanos: i32,
}

/// A geographic point. Each coordinate is held as the bit pattern of its
/// 64-bit IEEE 754 number, so that the value is carried through unchanged.
#[derive(Debug, Clone, Copy, PartialEq, Eq, Structural)]
pub struct LatLngDef {
    pub latitude: u64,
    pub longitude: u64,
}

/// An ordered list of values.
#[derive(Debug, PartialEq, Eq)]
pub struct ArrayValueDef {
    pub values: Vec<Value>,
}

/// Named fields, in a fixed order; a well-formed map names no field twice.
#[derive(Debug, PartialEq, Eq)]
pub struct MapValueDef {
    pub fields: Vec<(String, Value)>,
}

/// A document value: exactly one variant at a time.
#[derive(Debug, PartialEq, Eq)]
pub enum Value {
    NullValue,
    BooleanValue(bool),
    IntegerValue(i64),
    /// The bit pattern of a 64-bit IEEE 754 number.
    DoubleValue(u64),
    TimestampValue(TimestampDef),
    StringValue(String),
    BytesValue(Vec<u8>),
    ReferenceValue(String),
    GeoPointValue(LatLngDef),
    ArrayValue(ArrayValueDef),
    MapValue(MapValueDef),
}

/// What a `Value` is, as mathematics.
pub ghost enum ValueModel {
    Null,
    Boolean(bool),
    Integer(i64),
    Double(u64),
    Timestamp(i64, i32),
    Text(Seq<char>),
    Bytes(Seq<u8>),
    Reference(Seq<char>),
    GeoPoint(u64, u64),
    Array(Seq<ValueModel>),
    Fields(Seq<(Seq<char>, ValueModel)>),
}

/// The model of a value: each payload as it is, each container by the
/// models of its contents.
pub open spec fn model_of(v: Value) -> ValueModel
    decreases v,
{
    match v {
        Value::NullValue => ValueModel::Null,
        Value::BooleanValue(b) => ValueModel::Boolean(b),
        Value::IntegerValue(i) => ValueModel::Integer(i),
        Value::DoubleValue(d) => ValueModel::Double(d),
        Value::TimestampValue(t) => ValueModel::Timestamp(t.seconds, t.nanos),
        Value::StringValue(s) => ValueModel::Text(s@),
        Value::BytesValue(b) => ValueModel::Bytes(b@),
        Value::ReferenceValue(s) => ValueModel::Reference(s@),
        Value::GeoPointValue(p) => ValueModel::GeoPoint(p.latitude, p.longitude),
        Value::ArrayValue(a) => ValueModel::Array(
            Seq::new(
                a.values@.len(),
                |i: int|
                    if 0 <= i < a.values@.len() {
                        model_of(a.values@[i])
                    } else {
                        ValueModel::Null
                    },
            ),
        ),
        Value::MapValue(m) => ValueModel::Fields(
            Seq::new(
                m.fields@.len(),
                |i: int|
                    if 0 <= i < m.fields@.len() {
                        (m.fields@[i].0@, model_of(m.fields@[i].1))
                    } else {
                        (Seq::empty(), ValueModel::Null)
                    },
            ),
        ),
    }
}

impl View for Value {
    type V = ValueModel;

    open spec fn view(&self) -> ValueModel {
        model_of(*self)
    }
}

} // verus!

verus! {

/// The models of a vector's values, in their order.
pub open spec fn value_models(vs: Seq<Value>) -> Seq<ValueModel> {
    Seq::new(vs.len(), |i: int| vs[i]@)
}

/// The models of a vector's named values, in their order.
pub open spec fn field_models(fs: Seq<(String, Value)>) -> Seq<(Seq<char>, ValueModel)> {
    Seq::new(fs.len(), |i: int| (fs[i].0@, fs[i].1@))
}

/// An array's model holds the models of its values.
pub proof fn lemma_array_model(v: Value)
    requires
        v is ArrayValue,
    ensures
        v@ == ValueModel::Array(value_models(v->ArrayValue_0.values@)),
{
    assert(v@->Array_0 =~= value_models(v->ArrayValue_0.values@));
}

/// A map's model holds the models of its fields.
pub proof fn lemma_map_model(v: Value)
    requires
        v is MapValue,
    ensures
        v@ == ValueModel::Fields(field_models(v->MapValue_0.fields@)),
{
    assert(v@->Fields_0 =~= field_models(v->MapValue_0.fields@));
}

/// The keys of a sequence of named entries, in their order.
pub open spec fn keys_of<T>(entries: Seq<(Seq<char>, T)>) -> Seq<Seq<char>> {
    Seq::new(entries.len(), |i: int| entries[i].0)
}

/// No key stands at two places.
pub open spec fn distinct(keys: Seq<Seq<char>>) -> bool {
    forall|i: int, j: int| 0 <= i < j < keys.len() ==> keys[i] != keys[j]
}

/// A value is well formed when no map in it, at any depth, names a field twice.
pub open spec fn well_formed(v: ValueModel) -> bool
    decreases v,
{
    match v {
        ValueModel::Array(s) => forall|i: int| 0 <= i < s.len() ==> well_formed(#[trigger] s[i]),
        ValueModel::Fields(f) => distinct(keys_of(f)) && forall|i: int|
            0 <= i < f.len() ==> well_formed((#[trigger] f[i]).1),
        _ => true,
    }
}

} // verus!
