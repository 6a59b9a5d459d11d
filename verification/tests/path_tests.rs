use api_proxy::json::{JsonNumber, JsonValue, NumberRepr};
use api_proxy::path::find_field;
use api_proxy::text::chars_of;

fn integer(v: u64) -> JsonValue {
    JsonValue::Number(JsonNumber { repr: NumberRepr::PosInt(v), order: (v as f64).to_bits() as i64 })
}

fn obj(members: Vec<(&str, JsonValue)>) -> JsonValue {
    JsonValue::Object(members.into_iter().map(|(k, v)| (k.to_string(), v)).collect())
}

fn sample() -> JsonValue {
    obj(vec![
        ("name", JsonValue::String("probe".into())),
        (
            "sensor",
            obj(vec![(
                "readings",
                JsonValue::Array(vec![
                    obj(vec![("value", integer(7))]),
                    obj(vec![("value", integer(9))]),
                ]),
            )]),
        ),
        ("grid", JsonValue::Array(vec![JsonValue::Array(vec![integer(1), integer(2)])])),
        ("odd[x]", integer(5)),
        ("", integer(6)),
    ])
}

fn find<'a>(v: &'a JsonValue, path: &str) -> Option<&'a JsonValue> {
    find_field(v, &chars_of(path))
}

#[test]
fn plain_and_nested_members() {
    let v = sample();
    assert!(find(&v, "name").unwrap().equals(&JsonValue::String("probe".into())));
    assert!(find(&v, "sensor.readings").is_some());
    assert!(find(&v, "missing").is_none());
    assert!(find(&v, "name.inner").is_none());
}

#[test]
fn array_indexes_in_paths() {
    let v = sample();
    assert!(find(&v, "sensor.readings[0].value").unwrap().equals(&integer(7)));
    assert!(find(&v, "sensor.readings[1].value").unwrap().equals(&integer(9)));
    assert!(find(&v, "sensor.readings[2].value").is_none());
    assert!(find(&v, "grid[0][1]").unwrap().equals(&integer(2)));
    assert!(find(&v, "grid[99999999999999999999999]").is_none());
}

#[test]
fn ill_formed_brackets_name_a_member() {
    let v = sample();
    assert!(find(&v, "odd[x]").unwrap().equals(&integer(5)));
    assert!(find(&v, "").unwrap().equals(&integer(6)));
}
