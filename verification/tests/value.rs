use serde_json_borrow::index::Index;
use serde_json_borrow::number::Number;
use serde_json_borrow::value::Value;
use std::borrow::Cow;

fn borrow(owned: &serde_json::Value) -> Value<'_> {
    match owned {
        serde_json::Value::Null => Value::Null,
        serde_json::Value::Bool(b) => Value::Bool(*b),
        serde_json::Value::Number(n) => {
            if let Some(unsigned) = n.as_u64() {
                Value::Number(Number::from(unsigned))
            } else if let Some(signed) = n.as_i64() {
                Value::Number(Number::from(signed))
            } else {
                Value::Number(Number::from_f64_bits(n.as_f64().unwrap().to_bits()))
            }
        }
        serde_json::Value::String(text) => Value::Str(Cow::Borrowed(text.as_str())),
        serde_json::Value::Array(items) => Value::Array(items.iter().map(borrow).collect()),
        serde_json::Value::Object(map) => {
            Value::Object(map.iter().map(|(key, value)| (key.as_str(), borrow(value))).collect())
        }
    }
}

fn text(value: &str) -> Value<'_> {
    Value::Str(Cow::Borrowed(value))
}

fn unsigned(value: u64) -> Value<'static> {
    Value::Number(Number::from(value))
}

#[test]
fn number_test() {
    let data = r#"{"val1": 123.5, "val2": 123, "val3": -123}"#;
    let parsed: serde_json::Value = serde_json::from_str(data).unwrap();
    let value = borrow(&parsed);
    assert!(value.get("val1").is_f64());
    assert!(!value.get("val1").is_u64());
    assert!(!value.get("val1").is_i64());

    assert!(!value.get("val2").is_f64());
    assert!(value.get("val2").is_u64());
    assert!(value.get("val2").is_i64());

    assert!(!value.get("val3").is_f64());
    assert!(!value.get("val3").is_u64());
    assert!(value.get("val3").is_i64());

    assert!(value.get("val1").as_f64().is_some());
    assert!(value.get("val2").as_f64().is_some());
    assert!(value.get("val3").as_f64().is_some());

    assert!(value.get("val1").as_u64().is_none());
    assert!(value.get("val2").as_u64().is_some());
    assert!(value.get("val3").as_u64().is_none());

    assert!(value.get("val1").as_i64().is_none());
    assert!(value.get("val2").as_i64().is_some());
    assert!(value.get("val3").as_i64().is_some());
}

#[test]
fn number_values_through_get() {
    let data = r#"{"val1": 123.5, "val2": 123, "val3": -123}"#;
    let parsed: serde_json::Value = serde_json::from_str(data).unwrap();
    let value = borrow(&parsed);
    assert_eq!(value.get("val1").as_f64().map(f64::from_bits), Some(123.5));
    assert_eq!(value.get("val2").as_f64().map(f64::from_bits), Some(123.0));
    assert_eq!(value.get("val3").as_f64().map(f64::from_bits), Some(-123.0));
    assert_eq!(value.get("val2").as_u64(), Some(123));
    assert_eq!(value.get("val2").as_i64(), Some(123));
    assert_eq!(value.get("val3").as_i64(), Some(-123));
    assert_eq!(value.get("missing").as_f64(), None);
    assert_eq!(value.as_f64(), None);
}

#[test]
fn get_chains_through_objects_and_arrays() {
    let json_obj = r#"
    {
        "x": {
            "y": ["z", "zz"]
        }
    }
    "#;
    let parsed: serde_json::Value = serde_json::from_str(json_obj).unwrap();
    let data = borrow(&parsed);
    assert!(data.get("x").get("y").get(0) == &Value::Str("z".into()));
    assert!(data.get("x").get("y").get(1) == &Value::Str("zz".into()));
    assert!(data.get("x").get("y").get(2) == &Value::Null);
    assert!(data.get("a") == &Value::Null);
    assert!(data.get("a").get("b") == &Value::Null);
}

#[test]
fn get_with_a_key_on_a_parsed_object() {
    let data = r#"{"bool": true, "key": "123"}"#;
    let parsed: serde_json::Value = serde_json::from_str(data).unwrap();
    let value = borrow(&parsed);
    assert!(value.get("bool") == &Value::Bool(true));
    assert!(value.get("key") == &Value::Str("123".into()));
}

#[test]
fn get_by_position_on_an_array() {
    let array = Value::Array(vec![unsigned(10), unsigned(20), unsigned(30)]);
    assert!(array.get(0) == &unsigned(10));
    assert!(array.get(1) == &unsigned(20));
    assert!(array.get(2) == &unsigned(30));
    assert!(array.get(3).is_null());
    assert!(array.get(4).is_null());
    assert!(array.get(usize::MAX).is_null());
    assert!(std::ptr::eq(array.get(1), match &array {
        Value::Array(items) => &items[1],
        _ => unreachable!(),
    }));
    assert!(Value::Array(Vec::new()).get(0).is_null());
}

#[test]
fn get_by_position_on_anything_but_an_array_is_null() {
    let object = Value::Object(vec![("0", unsigned(1))]);
    assert!(object.get(0).is_null());
    assert!(text("abc").get(0).is_null());
    assert!(unsigned(5).get(0).is_null());
    assert!(Value::Bool(true).get(0).is_null());
    assert!(Value::Null.get(0).is_null());
}

#[test]
fn get_by_key_returns_the_first_pair_with_the_key() {
    let object = Value::Object(vec![
        ("a", unsigned(1)),
        ("b", unsigned(2)),
        ("a", unsigned(3)),
        ("b", Value::Null),
    ]);
    assert!(object.get("a") == &unsigned(1));
    assert!(object.get("b") == &unsigned(2));
    assert!(object.get("c").is_null());
    assert!(object.get("").is_null());
    assert!(object.get("A").is_null());
}

#[test]
fn an_absent_key_and_a_null_value_look_the_same() {
    let object = Value::Object(vec![("present", Value::Null), ("other", unsigned(1))]);
    assert!(object.get("present") == object.get("absent"));
    assert!(object.get("present").is_null());
    assert!(object.get("absent").is_null());
}

#[test]
fn get_by_key_on_anything_but_an_object_is_null() {
    let array = Value::Array(vec![text("a")]);
    assert!(array.get("a").is_null());
    assert!(array.get("0").is_null());
    assert!(text("a").get("a").is_null());
    assert!(unsigned(1).get("a").is_null());
    assert!(Value::Null.get("a").is_null());
}

#[test]
fn index_into_tells_a_miss_from_a_null() {
    let object = Value::Object(vec![("present", Value::Null)]);
    assert!("present".index_into(&object).is_some());
    assert!("absent".index_into(&object).is_none());
    let array = Value::Array(vec![Value::Null]);
    assert!(0usize.index_into(&array).is_some());
    assert!(1usize.index_into(&array).is_none());
    assert!(0usize.index_into(&object).is_none());
    assert!("present".index_into(&array).is_none());
}

#[test]
fn type_predicates_hold_of_exactly_one_kind() {
    let values = [
        Value::Null,
        Value::Bool(false),
        unsigned(1),
        text("s"),
        Value::Array(Vec::new()),
        Value::Object(Vec::new()),
    ];
    for (position, value) in values.iter().enumerate() {
        let held = [
            value.is_null(),
            value.is_bool(),
            value.is_number(),
            value.is_string(),
            value.is_array(),
            value.is_object(),
        ];
        for (kind, holds) in held.iter().enumerate() {
            assert_eq!(*holds, kind == position);
        }
    }
}

#[test]
fn numeric_predicates_follow_the_number() {
    assert!(unsigned(1).is_u64());
    assert!(unsigned(1).is_i64());
    assert!(!unsigned(u64::MAX).is_i64());
    assert!(Value::Number(Number::from(-1i64)).is_i64());
    assert!(!Value::Number(Number::from(-1i64)).is_u64());
    assert!(Value::Number(Number::from_f64_bits(1.5f64.to_bits())).is_f64());
    assert!(!text("5").is_i64());
    assert!(!text("5").is_u64());
    assert!(!text("5.0").is_f64());
    assert!(!Value::Null.is_f64());
}

#[test]
fn accessors_never_coerce() {
    assert_eq!(text("5").as_i64(), None);
    assert_eq!(text("5").as_u64(), None);
    assert_eq!(text("true").as_bool(), None);
    assert_eq!(unsigned(1).as_bool(), None);
    assert_eq!(unsigned(1).as_str(), None);
    assert_eq!(Value::Bool(true).as_u64(), None);
    assert_eq!(Value::Null.as_str(), None);
    assert_eq!(Value::Bool(true).as_bool(), Some(true));
    assert_eq!(Value::Bool(false).as_bool(), Some(false));
    assert_eq!(text("abc").as_str(), Some("abc"));
    assert_eq!(Value::Str(Cow::Owned(String::from("a\"b"))).as_str(), Some("a\"b"));
    assert_eq!(unsigned(7).as_u64(), Some(7));
    assert_eq!(unsigned(7).as_i64(), Some(7));
    assert_eq!(Value::Number(Number::from(-7i64)).as_i64(), Some(-7));
    assert_eq!(Value::Number(Number::from(-7i64)).as_u64(), None);
}

#[test]
fn iter_array_walks_the_elements_in_storage_order() {
    let array = Value::Array(vec![unsigned(3), unsigned(1), unsigned(2), unsigned(1)]);
    let seen: Vec<u64> = array.iter_array().unwrap().map(|v| v.as_u64().unwrap()).collect();
    assert_eq!(seen, vec![3, 1, 2, 1]);
    let again: Vec<u64> = array.iter_array().unwrap().map(|v| v.as_u64().unwrap()).collect();
    assert_eq!(again, seen);
    assert_eq!(Value::Array(Vec::new()).iter_array().unwrap().count(), 0);
    assert!(Value::Object(Vec::new()).iter_array().is_none());
    assert!(text("abc").iter_array().is_none());
    assert!(Value::Null.iter_array().is_none());
}

#[test]
fn iter_object_walks_the_pairs_in_storage_order() {
    let object = Value::Object(vec![("b", unsigned(1)), ("a", unsigned(2)), ("b", unsigned(3))]);
    let seen: Vec<(&str, u64)> =
        object.iter_object().unwrap().map(|(key, value)| (*key, value.as_u64().unwrap())).collect();
    assert_eq!(seen, vec![("b", 1), ("a", 2), ("b", 3)]);
    assert_eq!(object.iter_object().unwrap().count(), 3);
    assert!(Value::Array(Vec::new()).iter_object().is_none());
    assert!(Value::Null.iter_object().is_none());
}

#[test]
fn equality_is_structural_and_order_sensitive() {
    let a = Value::Array(vec![unsigned(1), unsigned(2)]);
    let b = Value::Array(vec![unsigned(2), unsigned(1)]);
    assert!(a == a.clone());
    assert!(a != b);
    assert!(a != Value::Array(vec![unsigned(1)]));
    assert!(a != Value::Array(vec![unsigned(1), unsigned(2), unsigned(3)]));
    let x = Value::Object(vec![("k", unsigned(1)), ("l", unsigned(2))]);
    let y = Value::Object(vec![("l", unsigned(2)), ("k", unsigned(1))]);
    assert!(x == x.clone());
    assert!(x != y);
    assert!(x != Value::Object(vec![("k", unsigned(1)), ("l", unsigned(3))]));
    assert!(x != Value::Object(vec![("k", unsigned(1)), ("m", unsigned(2))]));
    assert!(x != Value::Object(vec![("k", unsigned(1))]));
    assert!(Value::Array(Vec::new()) != Value::Object(Vec::new()));
    assert!(Value::Null == Value::Null);
    assert!(Value::Null != Value::Bool(false));
    assert!(Value::Bool(true) != Value::Bool(false));
    assert!(text("a") != text("b"));
    assert!(text("1") != unsigned(1));
}

#[test]
fn equality_ignores_whether_a_string_is_borrowed() {
    let borrowed = Value::Str(Cow::Borrowed("text"));
    let owned = Value::Str(Cow::Owned(String::from("text")));
    assert!(borrowed == owned);
    assert!(owned == borrowed);
    assert!(owned != Value::Str(Cow::Owned(String::from("Text"))));
}

#[test]
fn equality_of_numbers_inside_trees() {
    let zero = Value::Array(vec![Value::Number(Number::from_f64_bits(0.0f64.to_bits()))]);
    let negative_zero = Value::Array(vec![Value::Number(Number::from_f64_bits((-0.0f64).to_bits()))]);
    assert!(zero == negative_zero);
    assert!(zero != Value::Array(vec![unsigned(0)]));
}

#[test]
fn clone_keeps_the_content() {
    let parsed: serde_json::Value =
        serde_json::from_str(r#"{"a": [1, -2, 1.5, "s", null, true, {"b": []}], "c": {}}"#).unwrap();
    let value = borrow(&parsed);
    let copy = value.clone();
    assert!(copy == value);
    assert!(copy.get("a").get(3) == &text("s"));
    assert_eq!(copy.get("a").iter_array().unwrap().count(), 7);
    let owned = Value::Str(Cow::Owned(String::from("own")));
    assert!(matches!(owned.clone(), Value::Str(Cow::Owned(_))));
    assert!(matches!(text("b").clone(), Value::Str(Cow::Borrowed(_))));
}

#[test]
fn every_miss_returns_the_same_null() {
    let object = Value::Object(vec![("k", unsigned(1))]);
    let array = Value::Array(vec![unsigned(1)]);
    let by_key = object.get("absent");
    let by_position = array.get(7);
    let number = unsigned(1);
    let by_kind = number.get("k").get(0).get("deeper");
    assert!(by_key.is_null());
    assert!(std::ptr::eq(by_key, object.get("other")));
    assert!(std::ptr::eq(by_key, by_position));
    assert!(std::ptr::eq(by_key, by_kind));
}
