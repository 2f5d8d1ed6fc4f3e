//! The two directions: a value written as a tree, and a tree read as a value.

use vstd::prelude::*;
use vstd::string::*;
use crate::hex::{bytes_of, from_hex, hex_of, is_hex, to_hex};
use crate::hint::{
    hint_models, hint_of, lemma_array_hint_model, lemma_map_hint_model, named_hint_models, Hint,
    HintModel,
};
use crate::keys::{entry_keys, find_key, key_pos};
use crate::mismatch::{
    at_node, here, malformed, repeated, unknown, Fault, FaultModel, MismatchModel, PathStep,
    SchemaMismatch, StepModel,
};
use crate::tree::{
    entry_models, lemma_list_model, lemma_object_model, tree_models, Tree, TreeModel,
};
use crate::value::{
    field_models, keys_of, lemma_array_model, lemma_map_model, value_models, well_formed,
    ArrayValueDef, LatLngDef, MapValueDef, TimestampDef, Value, ValueModel,
};
use crate::laws::{lemma_decoded_well_formed, lemma_round_trip};

verus! {

pub open spec fn seconds_key() -> Seq<char> {
    "seconds"@
}

pub open spec fn nanos_key() -> Seq<char> {
    "nanos"@
}

pub open spec fn latitude_key() -> Seq<char> {
    "latitude"@
}

pub open spec fn longitude_key() -> Seq<char> {
    "longitude"@
}

/// The tree of a value.
///
/// A timestamp is an object of `seconds` and `nanos`, a geographic point one
/// of `latitude` and `longitude`; bytes are text in hexadecimal digits; a
/// reference is text like a string; a list keeps its order and a map the
/// order of its fields.
pub open spec fn encode_spec(v: ValueModel) -> TreeModel
    decreases v,
{
    match v {
        ValueModel::Null => TreeModel::Null,
        ValueModel::Boolean(b) => TreeModel::Bool(b),
        ValueModel::Integer(i) => TreeModel::Integer(i),
        ValueModel::Double(d) => TreeModel::Float(d),
        ValueModel::Timestamp(s, n) => TreeModel::Object(
            seq![
                (seconds_key(), TreeModel::Integer(s)),
                (nanos_key(), TreeModel::Integer(n as i64)),
            ],
        ),
        ValueModel::Text(s) => TreeModel::Text(s),
        ValueModel::Bytes(b) => TreeModel::Text(hex_of(b)),
        ValueModel::Reference(s) => TreeModel::Text(s),
        ValueModel::GeoPoint(la, lo) => TreeModel::Object(
            seq![(latitude_key(), TreeModel::Float(la)), (longitude_key(), TreeModel::Float(lo))],
        ),
        ValueModel::Array(s) => TreeModel::List(
            Seq::new(
                s.len(),
                |i: int|
                    if 0 <= i < s.len() {
                        encode_spec(s[i])
                    } else {
                        TreeModel::Null
                    },
            ),
        ),
        ValueModel::Fields(f) => TreeModel::Object(
            Seq::new(
                f.len(),
                |i: int|
                    if 0 <= i < f.len() {
                        (f[i].0, encode_spec(f[i].1))
                    } else {
                        (Seq::empty(), TreeModel::Null)
                    },
            ),
        ),
    }
}

/// The timestamp that an object stands for: exactly two entries, `seconds`
/// and `nanos` in either order, both whole numbers, the second within 32 bits.
pub open spec fn timestamp_of(fs: Seq<(Seq<char>, TreeModel)>) -> Option<ValueModel> {
    let ps = key_pos(keys_of(fs), seconds_key(), fs.len());
    let pn = key_pos(keys_of(fs), nanos_key(), fs.len());
    if fs.len() == 2 && ps < 2 && pn < 2 {
        match (fs[ps as int].1, fs[pn as int].1) {
            (TreeModel::Integer(s), TreeModel::Integer(n)) => if -0x8000_0000 <= n < 0x8000_0000 {
                Some(ValueModel::Timestamp(s, n as i32))
            } else {
                None
            },
            _ => None,
        }
    } else {
        None
    }
}

/// The point that an object stands for: exactly two entries, `latitude` and
/// `longitude` in either order, both numbers with a fraction.
pub open spec fn geo_point_of(fs: Seq<(Seq<char>, TreeModel)>) -> Option<ValueModel> {
    let pa = key_pos(keys_of(fs), latitude_key(), fs.len());
    let po = key_pos(keys_of(fs), longitude_key(), fs.len());
    if fs.len() == 2 && pa < 2 && po < 2 {
        match (fs[pa as int].1, fs[po as int].1) {
            (TreeModel::Float(la), TreeModel::Float(lo)) => Some(ValueModel::GeoPoint(la, lo)),
            _ => None,
        }
    } else {
        None
    }
}

/// The value of a tree under a hint, or the first mismatch on the way
/// through the tree.
///
/// A leaf must have the shape that its hint names. A list must have one
/// element for each hint of its array hint. An object read as a map must not
/// hold a key twice, nor a key that the hint does not name: either is
/// reported under the key. A field that the hint names and the object lacks
/// is absent from the map.
pub open spec fn decode_spec(t: TreeModel, h: HintModel) -> Result<ValueModel, MismatchModel>
    decreases h, 0nat,
{
    match h {
        HintModel::Null => match t {
            TreeModel::Null => Ok(ValueModel::Null),
            _ => Err(here(t, h)),
        },
        HintModel::Boolean => match t {
            TreeModel::Bool(b) => Ok(ValueModel::Boolean(b)),
            _ => Err(here(t, h)),
        },
        HintModel::Integer => match t {
            TreeModel::Integer(i) => Ok(ValueModel::Integer(i)),
            _ => Err(here(t, h)),
        },
        HintModel::Double => match t {
            TreeModel::Float(d) => Ok(ValueModel::Double(d)),
            _ => Err(here(t, h)),
        },
        HintModel::Timestamp => match t {
            TreeModel::Object(fs) => match timestamp_of(fs) {
                Some(v) => Ok(v),
                None => Err(malformed(h)),
            },
            _ => Err(here(t, h)),
        },
        HintModel::Text => match t {
            TreeModel::Text(s) => Ok(ValueModel::Text(s)),
            _ => Err(here(t, h)),
        },
        HintModel::Bytes => match t {
            TreeModel::Text(s) => if is_hex(s) {
                Ok(ValueModel::Bytes(bytes_of(s)))
            } else {
                Err(malformed(h))
            },
            _ => Err(here(t, h)),
        },
        HintModel::Reference => match t {
            TreeModel::Text(s) => Ok(ValueModel::Reference(s)),
            _ => Err(here(t, h)),
        },
        HintModel::GeoPoint => match t {
            TreeModel::Object(fs) => match geo_point_of(fs) {
                Some(v) => Ok(v),
                None => Err(malformed(h)),
            },
            _ => Err(here(t, h)),
        },
        HintModel::Array(hs) => match t {
            TreeModel::List(ts) => if ts.len() == hs.len() {
                match decode_items(ts, hs, ts.len()) {
                    Ok(vs) => Ok(ValueModel::Array(vs)),
                    Err(e) => Err(e),
                }
            } else {
                Err(at_node(FaultModel::WrongLength { expected: hs.len(), actual: ts.len() }))
            },
            _ => Err(here(t, h)),
        },
        HintModel::Fields(hs) => match t {
            TreeModel::Object(fs) => match decode_fields(fs, hs, fs.len()) {
                Ok(vs) => Ok(ValueModel::Fields(vs)),
                Err(e) => Err(e),
            },
            _ => Err(here(t, h)),
        },
    }
}

/// The values of the first `n` elements of a list, each under the hint at
/// its place, or the mismatch of the first element that has one, reported
/// under its position.
pub open spec fn decode_items(ts: Seq<TreeModel>, hs: Seq<HintModel>, n: nat) -> Result<
    Seq<ValueModel>,
    MismatchModel,
>
    decreases hs, n,
{
    if n == 0 || n > hs.len() {
        Ok(Seq::empty())
    } else {
        match decode_items(ts, hs, (n - 1) as nat) {
            Err(e) => Err(e),
            Ok(vs) => match decode_spec(ts[n - 1], hs[n - 1]) {
                Err(e) => Err(e.under(StepModel::Index((n - 1) as nat))),
                Ok(v) => Ok(vs.push(v)),
            },
        }
    }
}

/// The fields of the first `n` entries of an object, each under the hint that
/// bears its key, or the first mismatch, reported under the entry's key: a
/// repeated key where an earlier entry bears the key too, an unknown key
/// where no hint bears it, else the mismatch of the entry's tree.
pub open spec fn decode_fields(
    fs: Seq<(Seq<char>, TreeModel)>,
    hs: Seq<(Seq<char>, HintModel)>,
    n: nat,
) -> Result<Seq<(Seq<char>, ValueModel)>, MismatchModel>
    decreases hs, n,
{
    if n == 0 {
        Ok(Seq::empty())
    } else {
        match decode_fields(fs, hs, (n - 1) as nat) {
            Err(e) => Err(e),
            Ok(vs) => {
                let k = fs[n - 1].0;
                let p = key_pos(keys_of(hs), k, hs.len());
                if key_pos(keys_of(fs), k, (n - 1) as nat) < n - 1 {
                    Err(repeated(k))
                } else if p >= hs.len() {
                    Err(unknown(k))
                } else {
                    match decode_spec(fs[n - 1].1, hs[p as int].1) {
                        Err(e) => Err(e.under(StepModel::Field(k))),
                        Ok(v) => Ok(vs.push((k, v))),
                    }
                }
            },
        }
    }
}

/// Once an element has a mismatch, reading further elements changes nothing.
pub proof fn lemma_items_err_stays(ts: Seq<TreeModel>, hs: Seq<HintModel>, n: nat, m: nat)
    requires
        1 <= n <= m <= hs.len(),
        decode_items(ts, hs, n) is Err,
    ensures
        decode_items(ts, hs, m) == decode_items(ts, hs, n),
    decreases m,
{
    if n < m {
        lemma_items_err_stays(ts, hs, n, (m - 1) as nat);
    }
}

/// Once an entry has a mismatch, reading further entries changes nothing.
pub proof fn lemma_fields_err_stays(
    fs: Seq<(Seq<char>, TreeModel)>,
    hs: Seq<(Seq<char>, HintModel)>,
    n: nat,
    m: nat,
)
    requires
        n <= m,
        decode_fields(fs, hs, n) is Err,
    ensures
        decode_fields(fs, hs, m) == decode_fields(fs, hs, n),
    decreases m,
{
    if n < m {
        lemma_fields_err_stays(fs, hs, n, (m - 1) as nat);
    }
}

/// Writes a value as a tree; `None` for a value that is not well formed,
/// which has no tree that can be read back.
pub fn try_encode(v: &Value) -> (r: Option<Tree>)
    ensures
        r is Some <==> well_formed(v@),
        r matches Some(t) ==> t@ == encode_spec(v@) && decode_spec(t@, hint_of(v@)) == Ok::<
            ValueModel,
            MismatchModel,
        >(v@),
{
    if v.is_well_formed() {
        Some(encode(v))
    } else {
        None
    }
}

/// Writes a well-formed value as a tree, from which the value is read back
/// under its own hint. A value in which a map names a field twice is a
/// defect of whoever built it, and is not taken.
pub fn encode(v: &Value) -> (t: Tree)
    requires
        well_formed(v@),
    ensures
        t@ == encode_spec(v@),
        decode_spec(t@, hint_of(v@)) == Ok::<ValueModel, MismatchModel>(v@),
{
    let t = encode_node(v);
    proof {
        lemma_round_trip(v@);
    }
    t
}

/// Writes one value, and through it the values that it holds.
fn encode_node(v: &Value) -> (t: Tree)
    ensures
        t@ == encode_spec(v@),
    decreases v,
{
    match v {
        Value::NullValue => Tree::Null,
        Value::BooleanValue(b) => Tree::Bool(*b),
        Value::IntegerValue(i) => Tree::Integer(*i),
        Value::DoubleValue(d) => Tree::Float(*d),
        Value::TimestampValue(ts) => {
            let mut o: Vec<(String, Tree)> = Vec::new();
            o.push((String::from_str("seconds"), Tree::Integer(ts.seconds)));
            o.push((String::from_str("nanos"), Tree::Integer(ts.nanos as i64)));
            let t = Tree::Object(o);
            proof {
                lemma_object_model(t);
                assert(entry_models(o@) =~= encode_spec(v@)->Object_0);
            }
            t
        },
        Value::StringValue(s) => Tree::Text(s.clone()),
        Value::BytesValue(b) => Tree::Text(to_hex(b)),
        Value::ReferenceValue(s) => Tree::Text(s.clone()),
        Value::GeoPointValue(p) => {
            let mut o: Vec<(String, Tree)> = Vec::new();
            o.push((String::from_str("latitude"), Tree::Float(p.latitude)));
            o.push((String::from_str("longitude"), Tree::Float(p.longitude)));
            let t = Tree::Object(o);
            proof {
                lemma_object_model(t);
                assert(entry_models(o@) =~= encode_spec(v@)->Object_0);
            }
            t
        },
        Value::ArrayValue(a) => {
            let mut out: Vec<Tree> = Vec::new();
            let mut i: usize = 0;
            while i < a.values.len()
                invariant
                    i <= a.values@.len(),
                    out@.len() == i,
                    v matches Value::ArrayValue(x) && x == a,
                    forall|j: int| 0 <= j < i ==> (#[trigger] out@[j])@ == encode_spec(a.values@[j]@),
                decreases a.values@.len() - i,
            {
                let t = encode_node(&a.values[i]);
                out.push(t);
                i += 1;
            }
            let t = Tree::List(out);
            proof {
                lemma_list_model(t);
                lemma_array_model(*v);
                assert(tree_models(out@) =~= encode_spec(v@)->List_0);
            }
            t
        },
        Value::MapValue(m) => {
            let mut out: Vec<(String, Tree)> = Vec::new();
            let mut i: usize = 0;
            while i < m.fields.len()
                invariant
                    i <= m.fields@.len(),
                    out@.len() == i,
                    v matches Value::MapValue(x) && x == m,
                    forall|j: int| 0 <= j < i ==> (#[trigger] out@[j]).0@ == m.fields@[j].0@
                        && out@[j].1@ == encode_spec(m.fields@[j].1@),
                decreases m.fields@.len() - i,
            {
                let t = encode_node(&m.fields[i].1);
                out.push((m.fields[i].0.clone(), t));
                i += 1;
            }
            let t = Tree::Object(out);
            proof {
                lemma_object_model(t);
                lemma_map_model(*v);
                assert(entry_models(out@) =~= encode_spec(v@)->Object_0);
            }
            t
        },
    }
}

/// Reads the two entries of a timestamp's object.
fn read_timestamp(fs: &Vec<(String, Tree)>) -> (r: Option<TimestampDef>)
    ensures
        match r {
            Some(ts) => timestamp_of(entry_models(fs@)) == Some(
                ValueModel::Timestamp(ts.seconds, ts.nanos),
            ),
            None => timestamp_of(entry_models(fs@)) is None,
        },
{
    proof {
        assert(keys_of(entry_models(fs@)) =~= entry_keys(fs@));
    }
    if fs.len() != 2 {
        return None;
    }
    let ks = String::from_str("seconds");
    let kn = String::from_str("nanos");
    let ps = find_key(fs, &ks, 2);
    let pn = find_key(fs, &kn, 2);
    if ps >= 2 || pn >= 2 {
        return None;
    }
    let low: i64 = -0x8000_0000;
    let high: i64 = 0x8000_0000;
    match (&fs[ps].1, &fs[pn].1) {
        (Tree::Integer(s), Tree::Integer(n)) => {
            if low <= *n && *n < high {
                Some(TimestampDef { seconds: *s, nanos: *n as i32 })
            } else {
                None
            }
        },
        _ => None,
    }
}

/// Reads the two entries of a geographic point's object.
fn read_geo_point(fs: &Vec<(String, Tree)>) -> (r: Option<LatLngDef>)
    ensures
        match r {
            Some(p) => geo_point_of(entry_models(fs@)) == Some(
                ValueModel::GeoPoint(p.latitude, p.longitude),
            ),
            None => geo_point_of(entry_models(fs@)) is None,
        },
{
    proof {
        assert(keys_of(entry_models(fs@)) =~= entry_keys(fs@));
    }
    if fs.len() != 2 {
        return None;
    }
    let ka = String::from_str("latitude");
    let ko = String::from_str("longitude");
    let pa = find_key(fs, &ka, 2);
    let po = find_key(fs, &ko, 2);
    if pa >= 2 || po >= 2 {
        return None;
    }
    match (&fs[pa].1, &fs[po].1) {
        (Tree::Float(la), Tree::Float(lo)) => Some(LatLngDef { latitude: *la, longitude: *lo }),
        _ => None,
    }
}

/// What `decode` returns for a tree and a hint: the value or the mismatch
/// that `decode_spec` gives.
pub open spec fn decoded(r: Result<Value, SchemaMismatch>, t: TreeModel, h: HintModel) -> bool {
    match r {
        Ok(v) => decode_spec(t, h) == Ok::<ValueModel, MismatchModel>(v@),
        Err(e) => decode_spec(t, h) == Err::<ValueModel, MismatchModel>(e@),
    }
}

/// Reads a tree as the value that the hint names, or reports the first node
/// that is not what its hint asks for. A value that is read is well formed.
pub fn decode(tree: &Tree, hint: &Hint) -> (r: Result<Value, SchemaMismatch>)
    ensures
        decoded(r, tree@, hint@),
        r matches Ok(v) ==> well_formed(v@),
{
    let r = decode_node(tree, hint);
    proof {
        if r is Ok {
            lemma_decoded_well_formed(tree@, hint@);
        }
    }
    r
}

/// Reads one node of a tree, and through it the nodes below.
fn decode_node(tree: &Tree, hint: &Hint) -> (r: Result<Value, SchemaMismatch>)
    ensures
        decoded(r, tree@, hint@),
    decreases hint,
{
    match hint {
        Hint::NullValue => match tree {
            Tree::Null => Ok(Value::NullValue),
            _ => Err(
                SchemaMismatch::at_node(
                    Fault::WrongShape { expected: hint.kind(), actual: tree.shape() },
                ),
            ),
        },
        Hint::BooleanValue => match tree {
            Tree::Bool(b) => Ok(Value::BooleanValue(*b)),
            _ => Err(
                SchemaMismatch::at_node(
                    Fault::WrongShape { expected: hint.kind(), actual: tree.shape() },
                ),
            ),
        },
        Hint::IntegerValue => match tree {
            Tree::Integer(i) => Ok(Value::IntegerValue(*i)),
            _ => Err(
                SchemaMismatch::at_node(
                    Fault::WrongShape { expected: hint.kind(), actual: tree.shape() },
                ),
            ),
        },
        Hint::DoubleValue => match tree {
            Tree::Float(d) => Ok(Value::DoubleValue(*d)),
            _ => Err(
                SchemaMismatch::at_node(
                    Fault::WrongShape { expected: hint.kind(), actual: tree.shape() },
                ),
            ),
        },
        Hint::TimestampValue => match tree {
            Tree::Object(fs) => {
                proof {
                    lemma_object_model(*tree);
                }
                match read_timestamp(fs) {
                    Some(ts) => Ok(Value::TimestampValue(ts)),
                    None => Err(SchemaMismatch::at_node(Fault::Malformed { expected: hint.kind() })),
                }
            },
            _ => Err(
                SchemaMismatch::at_node(
                    Fault::WrongShape { expected: hint.kind(), actual: tree.shape() },
                ),
            ),
        },
        Hint::StringValue => match tree {
            Tree::Text(s) => Ok(Value::StringValue(s.clone())),
            _ => Err(
                SchemaMismatch::at_node(
                    Fault::WrongShape { expected: hint.kind(), actual: tree.shape() },
                ),
            ),
        },
        Hint::BytesValue => match tree {
            Tree::Text(s) => match from_hex(s) {
                Some(b) => Ok(Value::BytesValue(b)),
                None => Err(SchemaMismatch::at_node(Fault::Malformed { expected: hint.kind() })),
            },
            _ => Err(
                SchemaMismatch::at_node(
                    Fault::WrongShape { expected: hint.kind(), actual: tree.shape() },
                ),
            ),
        },
        Hint::ReferenceValue => match tree {
            Tree::Text(s) => Ok(Value::ReferenceValue(s.clone())),
            _ => Err(
                SchemaMismatch::at_node(
                    Fault::WrongShape { expected: hint.kind(), actual: tree.shape() },
                ),
            ),
        },
        Hint::GeoPointValue => match tree {
            Tree::Object(fs) => {
                proof {
                    lemma_object_model(*tree);
                }
                match read_geo_point(fs) {
                    Some(p) => Ok(Value::GeoPointValue(p)),
                    None => Err(SchemaMismatch::at_node(Fault::Malformed { expected: hint.kind() })),
                }
            },
            _ => Err(
                SchemaMismatch::at_node(
                    Fault::WrongShape { expected: hint.kind(), actual: tree.shape() },
                ),
            ),
        },
        Hint::ArrayValue(hs) => match tree {
            Tree::List(ts) => {
                proof {
                    lemma_list_model(*tree);
                    lemma_array_hint_model(*hint);
                }
                if ts.len() != hs.len() {
                    return Err(
                        SchemaMismatch::at_node(
                            Fault::WrongLength { expected: hs.len(), actual: ts.len() },
                        ),
                    );
                }
                match decode_list(ts, hs) {
                    Ok(values) => {
                        let r = Value::ArrayValue(ArrayValueDef { values });
                        proof {
                            lemma_array_model(r);
                        }
                        Ok(r)
                    },
                    Err(e) => Err(e),
                }
            },
            _ => Err(
                SchemaMismatch::at_node(
                    Fault::WrongShape { expected: hint.kind(), actual: tree.shape() },
                ),
            ),
        },
        Hint::MapValue(hs) => match tree {
            Tree::Object(fs) => {
                proof {
                    lemma_object_model(*tree);
                    lemma_map_hint_model(*hint);
                }
                match decode_entries(fs, hs) {
                    Ok(fields) => {
                        let r = Value::MapValue(MapValueDef { fields });
                        proof {
                            lemma_map_model(r);
                        }
                        Ok(r)
                    },
                    Err(e) => Err(e),
                }
            },
            _ => Err(
                SchemaMismatch::at_node(
                    Fault::WrongShape { expected: hint.kind(), actual: tree.shape() },
                ),
            ),
        },
    }
}

/// Reads the elements of a list, each under the hint at its place.
fn decode_list(ts: &Vec<Tree>, hs: &Vec<Hint>) -> (r: Result<Vec<Value>, SchemaMismatch>)
    requires
        ts@.len() == hs@.len(),
    ensures
        match r {
            Ok(vs) => decode_items(tree_models(ts@), hint_models(hs@), ts@.len()) == Ok::<
                Seq<ValueModel>,
                MismatchModel,
            >(value_models(vs@)),
            Err(e) => decode_items(tree_models(ts@), hint_models(hs@), ts@.len()) == Err::<
                Seq<ValueModel>,
                MismatchModel,
            >(e@),
        },
    decreases hs,
{
    let mut out: Vec<Value> = Vec::new();
    let mut i: usize = 0;
    proof {
        assert(value_models(out@) =~= Seq::empty());
    }
    while i < ts.len()
        invariant
            i <= ts@.len(),
            ts@.len() == hs@.len(),
            decode_items(tree_models(ts@), hint_models(hs@), i as nat) == Ok::<
                Seq<ValueModel>,
                MismatchModel,
            >(value_models(out@)),
        decreases ts@.len() - i,
    {
        let ghost before = value_models(out@);
        match decode_node(&ts[i], &hs[i]) {
            Err(e) => {
                proof {
                    lemma_items_err_stays(
                        tree_models(ts@),
                        hint_models(hs@),
                        (i + 1) as nat,
                        ts@.len(),
                    );
                }
                return Err(e.under(PathStep::Index(i)));
            },
            Ok(v) => {
                out.push(v);
                proof {
                    assert(value_models(out@) =~= before.push(v@));
                }
            },
        }
        i += 1;
    }
    Ok(out)
}

/// Reads the entries of an object, each under the hint that bears its key.
fn decode_entries(fs: &Vec<(String, Tree)>, hs: &Vec<(String, Hint)>) -> (r: Result<
    Vec<(String, Value)>,
    SchemaMismatch,
>)
    ensures
        match r {
            Ok(vs) => decode_fields(entry_models(fs@), named_hint_models(hs@), fs@.len()) == Ok::<
                Seq<(Seq<char>, ValueModel)>,
                MismatchModel,
            >(field_models(vs@)),
            Err(e) => decode_fields(entry_models(fs@), named_hint_models(hs@), fs@.len()) == Err::<
                Seq<(Seq<char>, ValueModel)>,
                MismatchModel,
            >(e@),
        },
    decreases hs,
{
    let mut out: Vec<(String, Value)> = Vec::new();
    let mut i: usize = 0;
    proof {
        assert(keys_of(entry_models(fs@)) =~= entry_keys(fs@));
        assert(keys_of(named_hint_models(hs@)) =~= entry_keys(hs@));
        assert(field_models(out@) =~= Seq::empty());
    }
    while i < fs.len()
        invariant
            i <= fs@.len(),
            keys_of(entry_models(fs@)) == entry_keys(fs@),
            keys_of(named_hint_models(hs@)) == entry_keys(hs@),
            decode_fields(entry_models(fs@), named_hint_models(hs@), i as nat) == Ok::<
                Seq<(Seq<char>, ValueModel)>,
                MismatchModel,
            >(field_models(out@)),
        decreases fs@.len() - i,
    {
        let ghost before = field_models(out@);
        let key = &fs[i].0;
        let earlier = find_key(fs, key, i);
        let p = find_key(hs, key, hs.len());
        if earlier < i || p >= hs.len() {
            proof {
                lemma_fields_err_stays(
                    entry_models(fs@),
                    named_hint_models(hs@),
                    (i + 1) as nat,
                    fs@.len(),
                );
            }
            let fault = if earlier < i {
                Fault::RepeatedKey
            } else {
                Fault::UnknownKey
            };
            return Err(SchemaMismatch::at_node(fault).under(PathStep::Field(key.clone())));
        }
        match decode_node(&fs[i].1, &hs[p].1) {
            Err(e) => {
                proof {
                    lemma_fields_err_stays(
                        entry_models(fs@),
                        named_hint_models(hs@),
                        (i + 1) as nat,
                        fs@.len(),
                    );
                }
                return Err(e.under(PathStep::Field(key.clone())));
            },
            Ok(v) => {
                out.push((key.clone(), v));
                proof {
                    assert(field_models(out@) =~= before.push((key@, v@)));
                }
            },
        }
        i += 1;
    }
    Ok(out)
}

} // verus!
