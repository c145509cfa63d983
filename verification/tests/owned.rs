use serde_json_borrow::number::Number;
use serde_json_borrow::value::Value;
use std::borrow::Cow;

fn owned_float(bits: u64) -> serde_json::Value {
    serde_json::Value::Number(serde_json::Number::from_f64(f64::from_bits(bits)).unwrap())
}

fn owned(value: &Value<'_>) -> serde_json::Value {
    value.to_owned_json(&owned_float)
}

fn parse(text: &str) -> serde_json::Value {
    serde_json::from_str(text).unwrap()
}

fn reborrow(owned: &serde_json::Value) -> Value<'_> {
    match owned {
        serde_json::Value::Null => Value::Null,
        serde_json::Value::Bool(b) => Value::Bool(*b),
        serde_json::Value::Number(n) => {
            if let Some(unsigned) = n.as_u64() {
                Value::Number(Number::from(unsigned))
            } else if let Some(signed) = n.as_i64() {
                Value::Number(Number::from(signed))
            } else {
                Value::Number(Number::from_f64_bits(n.as_f64().unwrap().to_bits()))
            }
        }
        serde_json::Value::String(text) => Value::Str(Cow::Borrowed(text.as_str())),
        serde_json::Value::Array(items) => Value::Array(items.iter().map(reborrow).collect()),
        serde_json::Value::Object(map) => {
            Value::Object(map.iter().map(|(key, value)| (key.as_str(), reborrow(value))).collect())
        }
    }
}

fn unsigned(value: u64) -> Value<'static> {
    Value::Number(Number::from(value))
}

#[test]
fn scalars_convert_to_the_same_scalars() {
    assert_eq!(owned(&Value::Null), serde_json::Value::Null);
    assert_eq!(owned(&Value::Bool(true)), serde_json::Value::Bool(true));
    assert_eq!(owned(&Value::Bool(false)), serde_json::Value::Bool(false));
    assert_eq!(owned(&Value::Str(Cow::Borrowed("ref"))), serde_json::Value::String("ref".to_owned()));
    assert_eq!(
        owned(&Value::Str(Cow::Owned(String::from("a\"b")))),
        serde_json::Value::String("a\"b".to_owned())
    );
    assert_eq!(owned(&Value::Str(Cow::Borrowed(""))), serde_json::Value::String(String::new()));
}

#[test]
fn numbers_convert_shape_by_shape() {
    let positive = owned(&unsigned(123));
    assert!(positive.is_u64());
    assert_eq!(positive.as_u64(), Some(123));
    let top = owned(&unsigned(u64::MAX));
    assert_eq!(top.as_u64(), Some(u64::MAX));
    assert_eq!(top.as_i64(), None);
    let negative = owned(&Value::Number(Number::from(-123i64)));
    assert!(negative.is_i64());
    assert!(!negative.is_u64());
    assert_eq!(negative.as_i64(), Some(-123));
    let lowest = owned(&Value::Number(Number::from(i64::MIN)));
    assert_eq!(lowest.as_i64(), Some(i64::MIN));
    let float = owned(&Value::Number(Number::from_f64_bits(123.5f64.to_bits())));
    assert!(float.is_f64());
    assert_eq!(float.as_f64(), Some(123.5));
    let whole = owned(&Value::Number(Number::from_f64_bits(2.0f64.to_bits())));
    assert!(whole.is_f64());
    assert!(!whole.is_u64());
    assert_eq!(whole, parse("2.0"));
    assert_ne!(whole, parse("2"));
    assert_eq!(positive, parse("123"));
    assert_eq!(negative, parse("-123"));
}

#[test]
fn an_array_converts_element_by_element_in_order() {
    let array = Value::Array(vec![
        unsigned(3),
        Value::Null,
        Value::Str(Cow::Borrowed("s")),
        unsigned(1),
        Value::Array(vec![Value::Bool(true)]),
    ]);
    assert_eq!(owned(&array), parse(r#"[3, null, "s", 1, [true]]"#));
    assert_ne!(owned(&array), parse(r#"[1, null, "s", 3, [true]]"#));
    assert_eq!(owned(&Value::Array(Vec::new())), parse("[]"));
}

#[test]
fn an_object_converts_pair_by_pair_in_order() {
    let object = Value::Object(vec![
        ("b", unsigned(1)),
        ("a", Value::Object(vec![("z", Value::Null), ("y", unsigned(2))])),
        ("c", Value::Array(Vec::new())),
    ]);
    let converted = owned(&object);
    assert_eq!(converted, parse(r#"{"b": 1, "a": {"z": null, "y": 2}, "c": []}"#));
    let keys: Vec<&str> = converted.as_object().unwrap().keys().map(|k| k.as_str()).collect();
    assert_eq!(keys, vec!["b", "a", "c"]);
    let inner: Vec<&str> =
        converted["a"].as_object().unwrap().keys().map(|k| k.as_str()).collect();
    assert_eq!(inner, vec!["z", "y"]);
    assert_eq!(owned(&Value::Object(Vec::new())), parse("{}"));
}

#[test]
fn a_repeated_key_keeps_its_first_place_and_its_last_value() {
    let object = Value::Object(vec![
        ("a", unsigned(1)),
        ("b", unsigned(2)),
        ("a", unsigned(3)),
        ("c", unsigned(4)),
        ("b", Value::Null),
    ]);
    let converted = owned(&object);
    let entries: Vec<(&str, serde_json::Value)> =
        converted.as_object().unwrap().iter().map(|(k, v)| (k.as_str(), v.clone())).collect();
    assert_eq!(
        entries,
        vec![("a", parse("3")), ("b", serde_json::Value::Null), ("c", parse("4"))]
    );
}

#[test]
fn a_parsed_document_converts_to_itself() {
    let text = r#"{"x": {"y": ["z", "zz"]}, "n": [1, -2, 3.5, 1e300, -0.0], "e": {}, "s": "a\"b\\c\n", "t": true, "u": null}"#;
    let parsed = parse(text);
    let borrowed = reborrow(&parsed);
    assert_eq!(owned(&borrowed), parsed);
}

#[test]
fn converting_and_borrowing_again_gives_an_equal_tree() {
    let tree = Value::Object(vec![
        ("first", Value::Array(vec![unsigned(1), Value::Number(Number::from(-1i64))])),
        ("second", Value::Str(Cow::Owned(String::from("owned")))),
        ("third", Value::Number(Number::from_f64_bits(0.1f64.to_bits()))),
        ("fourth", Value::Object(vec![("k", Value::Null), ("j", Value::Bool(false))])),
    ]);
    let converted = owned(&tree);
    let back = reborrow(&converted);
    assert!(back == tree);
    assert!(tree == back);
}

#[test]
fn a_repeated_key_does_not_survive_the_round_trip() {
    let tree = Value::Object(vec![("a", unsigned(1)), ("a", unsigned(2))]);
    let converted = owned(&tree);
    let back = reborrow(&converted);
    assert!(back != tree);
    assert!(back == Value::Object(vec![("a", unsigned(2))]));
}

#[test]
fn the_owned_value_outlives_the_buffer() {
    let converted = {
        let buffer = String::from("borrowed from a buffer");
        let tree = Value::Array(vec![Value::Str(Cow::Borrowed(buffer.as_str()))]);
        owned(&tree)
    };
    assert_eq!(converted, parse(r#"["borrowed from a buffer"]"#));
}
