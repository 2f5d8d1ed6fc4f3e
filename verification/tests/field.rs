use docvalue::field::{deserialize, serialize};
use docvalue::hex::{from_hex, to_hex};
use docvalue::hint::{Hint, Kind};
use docvalue::keys::find_key;
use docvalue::config::{parse_config, Config, ConfigError};
use docvalue::mismatch::{Fault, PathStep, SchemaMismatch};
use docvalue::tree::{Shape, Tree};
use docvalue::value::Value;

#[test]
fn absent_field_and_null_field_differ() {
    let key = "x".to_string();
    let without: Vec<(String, Tree)> = vec![("a".to_string(), Tree::Integer(1))];
    let with_null: Vec<(String, Tree)> =
        vec![("a".to_string(), Tree::Integer(1)), ("x".to_string(), Tree::Null)];

    let absent = deserialize(&without, &key, &Hint::NullValue).unwrap();
    let present = deserialize(&with_null, &key, &Hint::NullValue).unwrap();
    assert!(absent.is_none());
    assert!(matches!(present, Some(Value::NullValue)));

    let mut again: Vec<(String, Tree)> = vec![("a".to_string(), Tree::Integer(1))];
    assert!(serialize(&mut again, &key, &absent));
    assert_eq!(again, without);
    assert!(serialize(&mut again, &key, &present));
    assert_eq!(again, with_null);
}

#[test]
fn field_under_a_key_that_stands_twice_is_not_read() {
    let entries: Vec<(String, Tree)> =
        vec![("x".to_string(), Tree::Integer(1)), ("x".to_string(), Tree::Integer(2))];
    let got = deserialize(&entries, &"x".to_string(), &Hint::IntegerValue);
    assert_eq!(
        got.map(|_| ()),
        Err(SchemaMismatch {
            path: vec![PathStep::Field("x".to_string())],
            fault: Fault::RepeatedKey,
        })
    );
    let apart: Vec<(String, Tree)> = vec![
        ("x".to_string(), Tree::Null),
        ("y".to_string(), Tree::Integer(2)),
        ("x".to_string(), Tree::Bool(true)),
    ];
    assert_eq!(
        deserialize(&apart, &"x".to_string(), &Hint::NullValue).map(|_| ()),
        Err(SchemaMismatch {
            path: vec![PathStep::Field("x".to_string())],
            fault: Fault::RepeatedKey,
        })
    );
    let y = deserialize(&apart, &"y".to_string(), &Hint::IntegerValue).unwrap();
    assert!(matches!(y, Some(Value::IntegerValue(2))));
}

#[test]
fn field_mismatch_is_reported_under_the_key() {
    let entries: Vec<(String, Tree)> = vec![("x".to_string(), Tree::Bool(true))];
    let got = deserialize(&entries, &"x".to_string(), &Hint::IntegerValue);
    assert_eq!(
        got.map(|_| ()),
        Err(SchemaMismatch {
            path: vec![PathStep::Field("x".to_string())],
            fault: Fault::WrongShape { expected: Kind::Integer, actual: Shape::Bool },
        })
    );
}

#[test]
fn field_with_a_value_is_written_as_its_tree() {
    let mut entries: Vec<(String, Tree)> = Vec::new();
    assert!(serialize(&mut entries, &"n".to_string(), &Some(Value::BytesValue(vec![0xab]))));
    assert_eq!(entries, vec![("n".to_string(), Tree::Text("ab".to_string()))]);
    assert!(!serialize(&mut entries, &"n".to_string(), &Some(Value::NullValue)));
    assert!(serialize(&mut entries, &"n".to_string(), &None));
    assert_eq!(entries, vec![("n".to_string(), Tree::Text("ab".to_string()))]);
    let back = deserialize(&entries, &"n".to_string(), &Hint::BytesValue).unwrap().unwrap();
    assert!(back.same(&Value::BytesValue(vec![0xab])));
}

#[test]
fn hex_text_of_bytes() {
    assert_eq!(to_hex(&vec![]), "");
    assert_eq!(to_hex(&vec![0x01, 0x23, 0x45, 0x67, 0x89, 0xab, 0xcd, 0xef]), "0123456789abcdef");
    assert_eq!(from_hex(&"0123456789abcdef".to_string()), Some(vec![1, 35, 69, 103, 137, 171, 205, 239]));
    assert_eq!(from_hex(&String::new()), Some(vec![]));
    assert_eq!(from_hex(&"abc".to_string()), None);
    assert_eq!(from_hex(&"zz".to_string()), None);
    assert_eq!(from_hex(&"AB".to_string()), None);
}

#[test]
fn key_is_found_at_its_first_place() {
    let entries: Vec<(String, u8)> =
        vec![("a".to_string(), 0), ("b".to_string(), 1), ("a".to_string(), 2)];
    assert_eq!(find_key(&entries, &"a".to_string(), 3), 0);
    assert_eq!(find_key(&entries, &"b".to_string(), 3), 1);
    assert_eq!(find_key(&entries, &"b".to_string(), 1), 1);
    assert_eq!(find_key(&entries, &"c".to_string(), 3), 3);
    assert_eq!(find_key(&entries, &"a".to_string(), 0), 0);
}

#[test]
fn map_is_built_field_by_field() {
    let mut m = docvalue::value::MapValueDef::new();
    assert!(m.insert("x".to_string(), Value::NullValue));
    assert!(m.insert("y".to_string(), Value::IntegerValue(2)));
    assert!(!m.insert("x".to_string(), Value::IntegerValue(3)));
    assert_eq!(m.fields.len(), 2);
    assert!(matches!(m.get(&"x".to_string()), Some(Value::NullValue)));
    assert!(matches!(m.get(&"y".to_string()), Some(Value::IntegerValue(2))));
    assert!(m.get(&"z".to_string()).is_none());
    assert!(Value::MapValue(m).is_well_formed());
}

#[test]
fn key_search_past_the_end_looks_at_all_entries() {
    let entries: Vec<(String, u8)> = vec![("a".to_string(), 0), ("b".to_string(), 1)];
    assert_eq!(find_key(&entries, &"b".to_string(), 10), 1);
    assert_eq!(find_key(&entries, &"c".to_string(), 10), 2);
}

#[test]
fn field_with_a_value_that_is_not_well_formed_is_not_written() {
    let twice = Value::MapValue(docvalue::value::MapValueDef {
        fields: vec![("k".to_string(), Value::NullValue), ("k".to_string(), Value::NullValue)],
    });
    let mut entries: Vec<(String, Tree)> = Vec::new();
    assert!(!serialize(&mut entries, &"m".to_string(), &Some(twice)));
    assert!(entries.is_empty());
}

fn args(items: &[&str]) -> Vec<String> {
    items.iter().map(|s| s.to_string()).collect()
}

#[test]
fn settings_come_from_flags_before_given_values() {
    let got = parse_config(
        &args(&["prog", "--project_id", "p1", "--access_token", "t1"]),
        Some("p0".to_string()),
        None,
    );
    assert_eq!(got, Ok(Config { project_id: "p1".to_string(), access_token: "t1".to_string() }));
    let got = parse_config(&args(&["prog"]), Some("p0".to_string()), Some("t0".to_string()));
    assert_eq!(got, Ok(Config { project_id: "p0".to_string(), access_token: "t0".to_string() }));
    let got = parse_config(
        &args(&["--project_id", "a", "--project_id", "b"]),
        None,
        Some("t".to_string()),
    );
    assert_eq!(got, Ok(Config { project_id: "b".to_string(), access_token: "t".to_string() }));
    let got = parse_config(&args(&["--project_id", "--access_token", "x"]), None, None);
    assert_eq!(
        got,
        Ok(Config { project_id: "--access_token".to_string(), access_token: "x".to_string() })
    );
}

#[test]
fn settings_fail_on_a_flag_without_value_or_a_missing_setting() {
    let both = (Some("p".to_string()), Some("t".to_string()));
    assert_eq!(
        parse_config(&args(&["prog", "--project_id"]), both.0.clone(), both.1.clone()),
        Err(ConfigError::ProjectIdWithoutValue)
    );
    assert_eq!(
        parse_config(&args(&["--project_id", "--access_token"]), both.0.clone(), both.1.clone()),
        Err(ConfigError::AccessTokenWithoutValue)
    );
    assert_eq!(parse_config(&args(&[]), None, None), Err(ConfigError::ProjectIdMissing));
    assert_eq!(
        parse_config(&args(&["--access_token", "t"]), None, None),
        Err(ConfigError::ProjectIdMissing)
    );
    assert_eq!(
        parse_config(&args(&["--project_id", "p"]), None, None),
        Err(ConfigError::AccessTokenMissing)
    );
}
