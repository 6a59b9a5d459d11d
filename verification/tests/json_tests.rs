use api_proxy::json::{object_get, JsonNumber, JsonValue, NumberRepr};

fn key(x: f64) -> i64 {
    let x = if x == 0.0 { 0.0 } else { x };
    let b = x.to_bits() as i64;
    if b < 0 { b ^ i64::MAX } else { b }
}

fn integer(v: i64) -> JsonValue {
    let repr = if v >= 0 { NumberRepr::PosInt(v as u64) } else { NumberRepr::NegInt(v) };
    JsonValue::Number(JsonNumber { repr, order: key(v as f64) })
}

fn float(x: f64) -> JsonValue {
    JsonValue::Number(JsonNumber { repr: NumberRepr::Float, order: key(x) })
}

fn obj(members: Vec<(&str, JsonValue)>) -> JsonValue {
    JsonValue::Object(members.into_iter().map(|(k, v)| (k.to_string(), v)).collect())
}

#[test]
fn copy_is_equal_to_original() {
    let v = obj(vec![
        ("a", JsonValue::Array(vec![integer(1), float(2.5), JsonValue::Null])),
        ("b", JsonValue::String("x".to_string())),
        ("c", JsonValue::Bool(true)),
    ]);
    let c = v.deep_copy();
    assert!(v.equals(&c));
    assert!(c.equals(&v));
    let d = v.clone();
    assert!(d.equals(&v));
}

#[test]
fn equality_distinguishes_contents() {
    assert!(!integer(1).equals(&integer(2)));
    assert!(!integer(1).equals(&float(1.0)));
    assert!(float(0.0).equals(&float(-0.0)));
    assert!(!JsonValue::Array(vec![integer(1)]).equals(&JsonValue::Array(vec![integer(1), integer(1)])));
    assert!(!obj(vec![("a", integer(1))]).equals(&obj(vec![("b", integer(1))])));
    assert!(!JsonValue::Null.equals(&JsonValue::Bool(false)));
    assert!(JsonValue::String("é".to_string()).equals(&JsonValue::String("é".to_string())));
}

#[test]
fn object_get_finds_first_member() {
    let members = vec![
        ("a".to_string(), integer(1)),
        ("b".to_string(), integer(2)),
        ("a".to_string(), integer(3)),
    ];
    let found = object_get(&members, &"a".to_string()).unwrap();
    assert!(found.equals(&integer(1)));
    assert!(object_get(&members, &"b".to_string()).unwrap().equals(&integer(2)));
    assert!(object_get(&members, &"z".to_string()).is_none());
}
