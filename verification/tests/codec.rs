use docvalue::codec::{decode, encode, try_encode};
use docvalue::hint::{Hint, Kind};
use docvalue::mismatch::{Fault, PathStep, SchemaMismatch};
use docvalue::tree::{Shape, Tree};
use docvalue::value::{ArrayValueDef, LatLngDef, MapValueDef, TimestampDef, Value};

fn text(s: &str) -> Value {
    Value::StringValue(s.to_string())
}

fn array(values: Vec<Value>) -> Value {
    Value::ArrayValue(ArrayValueDef { values })
}

fn map(fields: Vec<(&str, Value)>) -> Value {
    Value::MapValue(MapValueDef {
        fields: fields.into_iter().map(|(k, v)| (k.to_string(), v)).collect(),
    })
}

fn object(entries: Vec<(&str, Tree)>) -> Tree {
    Tree::Object(entries.into_iter().map(|(k, v)| (k.to_string(), v)).collect())
}

fn mismatch(path: Vec<PathStep>, expected: Kind, actual: Shape) -> SchemaMismatch {
    SchemaMismatch { path, fault: Fault::WrongShape { expected, actual } }
}

fn malformed(expected: Kind) -> SchemaMismatch {
    SchemaMismatch { path: vec![], fault: Fault::Malformed { expected } }
}

fn round_trip(v: &Value) {
    let tree = encode(v);
    let back = decode(&tree, &v.hint()).expect("a value reads back under its own hint");
    assert_eq!(format!("{:?}", back), format!("{:?}", v));
    assert!(back.same(v));
}

#[test]
fn encode_leaves() {
    assert_eq!(encode(&Value::NullValue), Tree::Null);
    assert_eq!(encode(&Value::BooleanValue(true)), Tree::Bool(true));
    assert_eq!(encode(&Value::IntegerValue(-7)), Tree::Integer(-7));
    assert_eq!(encode(&Value::IntegerValue(i64::MAX)), Tree::Integer(i64::MAX));
    assert_eq!(encode(&Value::DoubleValue(1.5f64.to_bits())), Tree::Float(1.5f64.to_bits()));
    assert_eq!(encode(&text("hi")), Tree::Text("hi".to_string()));
}

#[test]
fn encode_reference_is_text() {
    let v = Value::ReferenceValue("projects/p/databases/d/documents/c/x".to_string());
    assert_eq!(encode(&v), Tree::Text("projects/p/databases/d/documents/c/x".to_string()));
}

#[test]
fn encode_bytes_is_lower_case_hex() {
    let v = Value::BytesValue(vec![0x00, 0xff, 0x80, 0x0a, 0x61]);
    assert_eq!(encode(&v), Tree::Text("00ff800a61".to_string()));
    assert_eq!(encode(&Value::BytesValue(vec![])), Tree::Text(String::new()));
}

#[test]
fn encode_timestamp_is_object_of_seconds_and_nanos() {
    let v = Value::TimestampValue(TimestampDef { seconds: 100, nanos: 999_999_999 });
    assert_eq!(
        encode(&v),
        object(vec![("seconds", Tree::Integer(100)), ("nanos", Tree::Integer(999_999_999))])
    );
}

#[test]
fn encode_geo_point_is_object_of_latitude_and_longitude() {
    let v = Value::GeoPointValue(LatLngDef {
        latitude: 59.9f64.to_bits(),
        longitude: (-10.75f64).to_bits(),
    });
    assert_eq!(
        encode(&v),
        object(vec![
            ("latitude", Tree::Float(59.9f64.to_bits())),
            ("longitude", Tree::Float((-10.75f64).to_bits())),
        ])
    );
}

#[test]
fn encode_map_of_three_fields() {
    let v = map(vec![
        ("name", text("Widget")),
        ("qty", Value::IntegerValue(5)),
        ("tags", array(vec![text("a"), text("b")])),
    ]);
    let tree = encode(&v);
    assert_eq!(
        tree,
        object(vec![
            ("name", Tree::Text("Widget".to_string())),
            ("qty", Tree::Integer(5)),
            (
                "tags",
                Tree::List(vec![Tree::Text("a".to_string()), Tree::Text("b".to_string())])
            ),
        ])
    );
    match tree {
        Tree::Object(entries) => assert_eq!(entries.len(), 3),
        _ => panic!("a map is written as an object"),
    }
}

#[test]
fn decode_timestamp_object() {
    let tree = object(vec![("seconds", Tree::Integer(100)), ("nanos", Tree::Integer(0))]);
    let v = decode(&tree, &Hint::TimestampValue).unwrap();
    match &v {
        Value::TimestampValue(ts) => {
            assert_eq!(ts.seconds, 100);
            assert_eq!(ts.nanos, 0);
        }
        _ => panic!("a timestamp was expected"),
    }
    assert_eq!(encode(&v), tree);
}

#[test]
fn decode_timestamp_in_either_order() {
    let tree = object(vec![("nanos", Tree::Integer(7)), ("seconds", Tree::Integer(-3))]);
    match decode(&tree, &Hint::TimestampValue).unwrap() {
        Value::TimestampValue(ts) => assert_eq!(ts, TimestampDef { seconds: -3, nanos: 7 }),
        _ => panic!("a timestamp was expected"),
    }
}

#[test]
fn decode_timestamp_rejects_wrong_objects() {
    let want = Err(malformed(Kind::Timestamp));
    let missing = object(vec![("seconds", Tree::Integer(1))]);
    assert_eq!(decode(&missing, &Hint::TimestampValue).map(|_| ()), want);
    let empty = object(vec![]);
    assert_eq!(decode(&empty, &Hint::TimestampValue).map(|_| ()), want);
    let extra = object(vec![
        ("seconds", Tree::Integer(1)),
        ("nanos", Tree::Integer(2)),
        ("zone", Tree::Null),
    ]);
    assert_eq!(decode(&extra, &Hint::TimestampValue).map(|_| ()), want);
    let typed = object(vec![("seconds", Tree::Text("1".to_string())), ("nanos", Tree::Integer(2))]);
    assert_eq!(decode(&typed, &Hint::TimestampValue).map(|_| ()), want);
    let wide = object(vec![("seconds", Tree::Integer(1)), ("nanos", Tree::Integer(1 << 31))]);
    assert_eq!(decode(&wide, &Hint::TimestampValue).map(|_| ()), want);
    let twice = object(vec![("seconds", Tree::Integer(1)), ("seconds", Tree::Integer(2))]);
    assert_eq!(decode(&twice, &Hint::TimestampValue).map(|_| ()), want);
    assert_eq!(
        decode(&Tree::Integer(5), &Hint::TimestampValue).map(|_| ()),
        Err(mismatch(vec![], Kind::Timestamp, Shape::Integer))
    );
}

#[test]
fn decode_timestamp_keeps_the_whole_range_of_nanos() {
    let tree = object(vec![
        ("seconds", Tree::Integer(i64::MIN)),
        ("nanos", Tree::Integer(i32::MIN as i64)),
    ]);
    match decode(&tree, &Hint::TimestampValue).unwrap() {
        Value::TimestampValue(ts) => {
            assert_eq!(ts, TimestampDef { seconds: i64::MIN, nanos: i32::MIN })
        }
        _ => panic!("a timestamp was expected"),
    }
}

#[test]
fn decode_geo_point() {
    let tree = object(vec![
        ("longitude", Tree::Float(10.0f64.to_bits())),
        ("latitude", Tree::Float(60.0f64.to_bits())),
    ]);
    match decode(&tree, &Hint::GeoPointValue).unwrap() {
        Value::GeoPointValue(p) => {
            assert_eq!(f64::from_bits(p.latitude), 60.0);
            assert_eq!(f64::from_bits(p.longitude), 10.0);
        }
        _ => panic!("a point was expected"),
    }
    let whole = object(vec![("latitude", Tree::Integer(60)), ("longitude", Tree::Integer(10))]);
    assert_eq!(
        decode(&whole, &Hint::GeoPointValue).map(|_| ()),
        Err(malformed(Kind::GeoPoint))
    );
}

#[test]
fn decode_leaves_by_hint() {
    assert!(decode(&Tree::Null, &Hint::NullValue).unwrap().same(&Value::NullValue));
    assert!(decode(&Tree::Bool(false), &Hint::BooleanValue)
        .unwrap()
        .same(&Value::BooleanValue(false)));
    assert!(decode(&Tree::Integer(5), &Hint::IntegerValue)
        .unwrap()
        .same(&Value::IntegerValue(5)));
    assert!(decode(&Tree::Float(2.5f64.to_bits()), &Hint::DoubleValue)
        .unwrap()
        .same(&Value::DoubleValue(2.5f64.to_bits())));
    let t = Tree::Text("c/x".to_string());
    assert!(decode(&t, &Hint::StringValue).unwrap().same(&text("c/x")));
    assert!(decode(&t, &Hint::ReferenceValue)
        .unwrap()
        .same(&Value::ReferenceValue("c/x".to_string())));
    assert!(!decode(&t, &Hint::ReferenceValue).unwrap().same(&text("c/x")));
}

#[test]
fn decode_rejects_a_leaf_of_another_shape() {
    assert_eq!(
        decode(&Tree::Bool(true), &Hint::NullValue).map(|_| ()),
        Err(mismatch(vec![], Kind::Null, Shape::Bool))
    );
    assert_eq!(
        decode(&Tree::Null, &Hint::BooleanValue).map(|_| ()),
        Err(mismatch(vec![], Kind::Boolean, Shape::Null))
    );
    assert_eq!(
        decode(&Tree::Text("5".to_string()), &Hint::IntegerValue).map(|_| ()),
        Err(mismatch(vec![], Kind::Integer, Shape::Text))
    );
    assert_eq!(
        decode(&Tree::Float(1.0f64.to_bits()), &Hint::IntegerValue).map(|_| ()),
        Err(mismatch(vec![], Kind::Integer, Shape::Float))
    );
    assert_eq!(
        decode(&Tree::Integer(1), &Hint::DoubleValue).map(|_| ()),
        Err(mismatch(vec![], Kind::Double, Shape::Integer))
    );
    assert_eq!(
        decode(&Tree::List(vec![]), &Hint::StringValue).map(|_| ()),
        Err(mismatch(vec![], Kind::Text, Shape::List))
    );
    assert_eq!(
        decode(&Tree::Integer(1), &Hint::ReferenceValue).map(|_| ()),
        Err(mismatch(vec![], Kind::Reference, Shape::Integer))
    );
    assert_eq!(
        decode(&Tree::Null, &Hint::ArrayValue(vec![])).map(|_| ()),
        Err(mismatch(vec![], Kind::Array, Shape::Null))
    );
    assert_eq!(
        decode(&Tree::List(vec![]), &Hint::MapValue(vec![])).map(|_| ()),
        Err(mismatch(vec![], Kind::Fields, Shape::List))
    );
}

#[test]
fn decode_bytes() {
    let v = decode(&Tree::Text("00ff80".to_string()), &Hint::BytesValue).unwrap();
    assert!(v.same(&Value::BytesValue(vec![0, 255, 128])));
    let want = Err(malformed(Kind::Bytes));
    assert_eq!(decode(&Tree::Text("0".to_string()), &Hint::BytesValue).map(|_| ()), want);
    assert_eq!(decode(&Tree::Text("0g".to_string()), &Hint::BytesValue).map(|_| ()), want);
    assert_eq!(decode(&Tree::Text("FF".to_string()), &Hint::BytesValue).map(|_| ()), want);
    assert_eq!(decode(&Tree::Text("é0".to_string()), &Hint::BytesValue).map(|_| ()), want);
}

#[test]
fn bytes_round_trip() {
    round_trip(&Value::BytesValue(vec![]));
    round_trip(&Value::BytesValue(vec![0, 0, 0]));
    round_trip(&Value::BytesValue(vec![0xc3, 0x28, 0xff, 0xfe, 0x00, 0x80]));
    round_trip(&Value::BytesValue((0..=255u8).collect()));
}

#[test]
fn round_trip_of_every_variant() {
    round_trip(&Value::NullValue);
    round_trip(&Value::BooleanValue(true));
    round_trip(&Value::IntegerValue(i64::MIN));
    round_trip(&Value::DoubleValue(f64::NAN.to_bits()));
    round_trip(&Value::DoubleValue((-0.0f64).to_bits()));
    round_trip(&Value::TimestampValue(TimestampDef { seconds: -1, nanos: 999_999_999 }));
    round_trip(&text(""));
    round_trip(&text("ünïcödé"));
    round_trip(&Value::ReferenceValue("a/b".to_string()));
    round_trip(&Value::GeoPointValue(LatLngDef {
        latitude: 90.0f64.to_bits(),
        longitude: (-180.0f64).to_bits(),
    }));
    round_trip(&array(vec![]));
    round_trip(&map(vec![]));
}

#[test]
fn round_trip_of_nested_containers() {
    let v = map(vec![
        (
            "a",
            array(vec![
                map(vec![
                    ("deep", array(vec![Value::BytesValue(vec![1, 2]), Value::NullValue])),
                    ("ref", Value::ReferenceValue("c/d".to_string())),
                ]),
                text("x"),
                array(vec![array(vec![array(vec![Value::IntegerValue(1)])])]),
            ]),
        ),
        ("seconds", Value::TimestampValue(TimestampDef { seconds: 1, nanos: 2 })),
        ("", Value::BooleanValue(false)),
    ]);
    round_trip(&v);
}

#[test]
fn empty_containers_are_neither_null_nor_absent() {
    assert_eq!(encode(&array(vec![])), Tree::List(vec![]));
    assert_eq!(encode(&map(vec![])), Tree::Object(vec![]));
    assert!(decode(&Tree::List(vec![]), &Hint::ArrayValue(vec![])).unwrap().same(&array(vec![])));
    assert!(decode(&Tree::Object(vec![]), &Hint::MapValue(vec![])).unwrap().same(&map(vec![])));
    assert!(!array(vec![]).same(&Value::NullValue));
    assert!(!map(vec![]).same(&array(vec![])));
}

#[test]
fn array_order_is_kept() {
    let v = array(vec![text("a"), text("b"), text("c")]);
    let tree = encode(&v);
    assert_eq!(
        tree,
        Tree::List(vec![
            Tree::Text("a".to_string()),
            Tree::Text("b".to_string()),
            Tree::Text("c".to_string()),
        ])
    );
    let back = decode(&tree, &v.hint()).unwrap();
    match &back {
        Value::ArrayValue(a) => {
            assert!(a.values[0].same(&text("a")));
            assert!(a.values[1].same(&text("b")));
            assert!(a.values[2].same(&text("c")));
        }
        _ => panic!("an array was expected"),
    }
    assert!(!back.same(&array(vec![text("c"), text("b"), text("a")])));
}

#[test]
fn decode_list_needs_one_hint_for_each_element() {
    let tree = Tree::List(vec![Tree::Integer(1), Tree::Integer(2)]);
    assert_eq!(
        decode(&tree, &Hint::ArrayValue(vec![Hint::IntegerValue])).map(|_| ()),
        Err(SchemaMismatch { path: vec![], fault: Fault::WrongLength { expected: 1, actual: 2 } })
    );
}

#[test]
fn decode_reports_the_path_of_the_first_mismatch() {
    let tree = object(vec![(
        "items",
        Tree::List(vec![
            Tree::Integer(1),
            object(vec![("when", Tree::Text("now".to_string()))]),
            Tree::Bool(true),
        ]),
    )]);
    let hint = Hint::MapValue(vec![(
        "items".to_string(),
        Hint::ArrayValue(vec![
            Hint::IntegerValue,
            Hint::MapValue(vec![("when".to_string(), Hint::TimestampValue)]),
            Hint::IntegerValue,
        ]),
    )]);
    assert_eq!(
        decode(&tree, &hint).map(|_| ()),
        Err(mismatch(
            vec![
                PathStep::Field("items".to_string()),
                PathStep::Index(1),
                PathStep::Field("when".to_string()),
            ],
            Kind::Timestamp,
            Shape::Text
        ))
    );
}

#[test]
fn decode_object_with_a_key_twice_fails() {
    let tree = object(vec![("x", Tree::Integer(1)), ("y", Tree::Null), ("x", Tree::Integer(2))]);
    let hint = Hint::MapValue(vec![
        ("x".to_string(), Hint::IntegerValue),
        ("y".to_string(), Hint::NullValue),
    ]);
    assert_eq!(
        decode(&tree, &hint).map(|_| ()),
        Err(SchemaMismatch {
            path: vec![PathStep::Field("x".to_string())],
            fault: Fault::RepeatedKey,
        })
    );
    let two = object(vec![("k", Tree::Integer(1)), ("k", Tree::Integer(2))]);
    let hint = Hint::MapValue(vec![("k".to_string(), Hint::IntegerValue)]);
    assert_eq!(
        decode(&two, &hint).map(|_| ()),
        Err(SchemaMismatch {
            path: vec![PathStep::Field("k".to_string())],
            fault: Fault::RepeatedKey,
        })
    );
}

#[test]
fn decode_names_a_repeated_key_by_its_whole_path() {
    let tree = Tree::List(vec![
        Tree::Null,
        object(vec![("k", Tree::Null), ("k", Tree::Null)]),
    ]);
    let hint = Hint::ArrayValue(vec![
        Hint::NullValue,
        Hint::MapValue(vec![("k".to_string(), Hint::NullValue)]),
    ]);
    assert_eq!(
        decode(&tree, &hint).map(|_| ()),
        Err(SchemaMismatch {
            path: vec![PathStep::Index(1), PathStep::Field("k".to_string())],
            fault: Fault::RepeatedKey,
        })
    );
}

#[test]
fn decode_object_with_a_key_without_hint_fails() {
    let tree = object(vec![("x", Tree::Integer(1)), ("z", Tree::Null)]);
    let hint = Hint::MapValue(vec![("x".to_string(), Hint::IntegerValue)]);
    assert_eq!(
        decode(&tree, &hint).map(|_| ()),
        Err(SchemaMismatch {
            path: vec![PathStep::Field("z".to_string())],
            fault: Fault::UnknownKey,
        })
    );
}

#[test]
fn a_map_that_names_a_field_twice_is_not_written() {
    let twice = map(vec![("x", Value::IntegerValue(1)), ("x", Value::IntegerValue(2))]);
    assert_eq!(try_encode(&twice), None);
    assert_eq!(try_encode(&array(vec![Value::NullValue, twice])), None);
    let once = map(vec![("x", Value::IntegerValue(1)), ("y", Value::IntegerValue(2))]);
    assert_eq!(try_encode(&once), Some(encode(&once)));
}

#[test]
fn decode_object_without_a_hinted_key_leaves_the_field_out() {
    let tree = object(vec![("y", Tree::Null)]);
    let hint = Hint::MapValue(vec![
        ("x".to_string(), Hint::IntegerValue),
        ("y".to_string(), Hint::NullValue),
    ]);
    let v = decode(&tree, &hint).unwrap();
    assert!(v.same(&map(vec![("y", Value::NullValue)])));
    assert_eq!(encode(&v), tree);
}

#[test]
fn hint_of_a_value() {
    let v = map(vec![
        ("b", Value::BytesValue(vec![1])),
        ("l", array(vec![Value::NullValue, Value::ReferenceValue("r".to_string())])),
    ]);
    assert_eq!(
        v.hint(),
        Hint::MapValue(vec![
            ("b".to_string(), Hint::BytesValue),
            ("l".to_string(), Hint::ArrayValue(vec![Hint::NullValue, Hint::ReferenceValue])),
        ])
    );
    assert_eq!(v.hint().kind(), Kind::Fields);
    assert_eq!(encode(&v).shape(), Shape::Object);
    assert_eq!(Tree::Integer(1).shape(), Shape::Integer);
    assert_eq!(Tree::Float(0).shape(), Shape::Float);
}

#[test]
fn maps_are_the_same_in_any_order_of_fields() {
    let a = map(vec![("x", Value::IntegerValue(1)), ("y", array(vec![text("p"), text("q")]))]);
    let b = map(vec![("y", array(vec![text("p"), text("q")])), ("x", Value::IntegerValue(1))]);
    let c = map(vec![("y", array(vec![text("q"), text("p")])), ("x", Value::IntegerValue(1))]);
    let d = map(vec![("x", Value::IntegerValue(1))]);
    assert!(a.same(&b));
    assert!(b.same(&a));
    assert!(!a.same(&c));
    assert!(!a.same(&d));
    assert!(!d.same(&a));
    assert!(a.is_well_formed());
    assert!(!map(vec![("x", Value::NullValue), ("x", Value::NullValue)]).is_well_formed());
    assert!(!array(vec![map(vec![("x", Value::NullValue), ("x", Value::NullValue)])])
        .is_well_formed());
}
