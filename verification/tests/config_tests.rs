use api_proxy::config::{
    ApiConfig, ApiPolicy, Config, ConfigFormat, FieldType, HeaderAction, Mode, Rule,
};
use api_proxy::errors::Error;
use api_proxy::json::{JsonNumber, JsonValue, NumberRepr};

fn key(x: f64) -> i64 {
    let x = if x == 0.0 { 0.0 } else { x };
    let b = x.to_bits() as i64;
    if b < 0 { b ^ i64::MAX } else { b }
}

fn integer(v: i64) -> JsonValue {
    let repr = if v >= 0 { NumberRepr::PosInt(v as u64) } else { NumberRepr::NegInt(v) };
    JsonValue::Number(JsonNumber { repr, order: key(v as f64) })
}

fn float(x: f64) -> JsonValue {
    JsonValue::Number(JsonNumber { repr: NumberRepr::Float, order: key(x) })
}

fn text(s: &str) -> JsonValue {
    JsonValue::String(s.to_string())
}

fn rule(field: &str) -> Rule {
    Rule { field: field.to_string(), ..Default::default() }
}

#[test]
fn defaults() {
    assert_eq!(Mode::default(), Mode::Raw);
    assert_eq!(HeaderAction::default(), HeaderAction::Allow);
    assert_eq!(ApiPolicy::default(), ApiPolicy::Allow);
    assert_eq!(FieldType::default(), FieldType::String);
    let api = ApiConfig::default();
    assert_eq!(api.mode, Mode::Raw);
    assert!(!api.keep_proxy_path);
}

#[test]
fn formats_follow_the_extension() {
    assert_eq!(Config::formats_for_extension("toml"), vec![ConfigFormat::Toml]);
    assert_eq!(Config::formats_for_extension("JSON"), vec![ConfigFormat::Json]);
    assert_eq!(Config::formats_for_extension("Toml"), vec![ConfigFormat::Toml]);
    assert_eq!(Config::formats_for_extension(""), vec![ConfigFormat::Toml, ConfigFormat::Json]);
    assert_eq!(Config::formats_for_extension("yaml"), vec![ConfigFormat::Toml, ConfigFormat::Json]);
}

#[test]
fn default_config_path() {
    assert_eq!(Config::path_or_default(None), "config.toml");
    assert_eq!(Config::path_or_default(Some("a.json".to_string())), "a.json");
}

#[test]
fn field_type_names() {
    assert_eq!(FieldType::Number.name(), "Number");
    assert_eq!(FieldType::Object.name(), "Object");
    assert_eq!(format!("{:?}", FieldType::Array), FieldType::Array.name());
}

#[test]
fn type_check() {
    let mut r = rule("age");
    r.field_type = Some(FieldType::Number);
    assert!(r.validate(&integer(3)).is_ok());
    assert!(r.validate(&float(3.5)).is_ok());
    match r.validate(&text("3")) {
        Err(Error::FieldTypeIncorrect(f, t)) => {
            assert_eq!(f, "age");
            assert_eq!(t, FieldType::Number);
        }
        other => panic!("unexpected {:?}", other),
    }
    assert!(r.validate_type(&JsonValue::Null, FieldType::Null).is_ok());
    assert!(r.validate_type(&JsonValue::Bool(true), FieldType::Null).is_err());
    // inner checks skip the type
    assert!(r.validate_rule(&text("3"), true).is_ok());
}

#[test]
fn number_bounds_use_ordering_keys() {
    let mut r = rule("t");
    r.min = Some(key(-1.5));
    r.max = Some(key(10.0));
    assert!(r.validate(&integer(-1)).is_ok());
    assert!(r.validate(&integer(10)).is_ok());
    assert!(r.validate(&float(-0.0)).is_ok());
    match r.validate(&integer(-2)) {
        Err(Error::FieldLowerThanMinimum(f, x, m)) => {
            assert_eq!(f, "t");
            assert_eq!(x, key(-2.0));
            assert_eq!(m, key(-1.5));
        }
        other => panic!("unexpected {:?}", other),
    }
    match r.validate(&float(10.25)) {
        Err(Error::FieldHigherThanMaximum(_, x, m)) => {
            assert_eq!(x, key(10.25));
            assert_eq!(m, key(10.0));
        }
        other => panic!("unexpected {:?}", other),
    }
    assert!(r.validate_number(key(0.0)).is_ok());
}

#[test]
fn string_length_counts_characters() {
    let mut r = rule("name");
    r.min_string_length = Some(2);
    r.max_string_length = Some(3);
    assert!(r.validate(&text("éé")).is_ok());
    assert!(r.validate_string("abc").is_ok());
    match r.validate(&text("a")) {
        Err(Error::FieldLengthLowerThanMinimum(_, l, m)) => assert_eq!((l, m), (1, 2)),
        other => panic!("unexpected {:?}", other),
    }
    match r.validate(&text("abcd")) {
        Err(Error::FieldLengthHigherThanMaximum(_, l, m)) => assert_eq!((l, m), (4, 3)),
        other => panic!("unexpected {:?}", other),
    }
}

#[test]
fn exact_values_are_the_allowed_ones() {
    let mut r = rule("color");
    r.exact = Some(vec![text("red"), text("blue")]);
    assert!(r.validate(&text("red")).is_ok());
    assert!(r.validate(&text("blue")).is_ok());
    match r.validate(&text("green")) {
        Err(Error::FieldNotInExactList(f, v, allowed)) => {
            assert_eq!(f, "color");
            assert!(v.equals(&text("green")));
            // reported with the first allowed value, the first one compared against
            assert!(allowed.equals(&text("red")));
        }
        other => panic!("unexpected {:?}", other),
    }
    // an empty list allows anything
    assert!(r.validate_exact(&vec![], &text("anything")).is_ok());
    let exact = vec![integer(1)];
    assert!(r.validate_exact(&exact, &integer(1)).is_ok());
    assert!(r.validate_exact(&exact, &float(1.0)).is_err());
}

#[test]
fn arrays_check_length_then_items() {
    let mut r = rule("xs");
    r.min_array_length = Some(1);
    r.max_array_length = Some(2);
    r.min = Some(key(0.0));
    assert!(r.validate(&JsonValue::Array(vec![integer(0), integer(5)])).is_ok());
    match r.validate(&JsonValue::Array(vec![])) {
        Err(Error::FieldLengthLowerThanMinimum(_, l, m)) => assert_eq!((l, m), (0, 1)),
        other => panic!("unexpected {:?}", other),
    }
    match r.validate(&JsonValue::Array(vec![integer(1), integer(2), integer(3)])) {
        Err(Error::FieldLengthHigherThanMaximum(_, l, m)) => assert_eq!((l, m), (3, 2)),
        other => panic!("unexpected {:?}", other),
    }
    match r.validate(&JsonValue::Array(vec![integer(4), integer(-7)])) {
        Err(Error::FieldLowerThanMinimum(_, x, _)) => assert_eq!(x, key(-7.0)),
        other => panic!("unexpected {:?}", other),
    }
    // items are checked against the same rule, type included
    let mut t = rule("xs");
    t.field_type = Some(FieldType::Array);
    assert!(t.validate(&JsonValue::Array(vec![integer(1)])).is_err());
    assert!(t.validate(&JsonValue::Array(vec![JsonValue::Array(vec![])])).is_ok());
    assert!(r.validate_array(&vec![integer(1)]).is_ok());
}

#[test]
fn checks_come_in_order() {
    let mut r = rule("v");
    r.field_type = Some(FieldType::String);
    r.exact = Some(vec![text("ok")]);
    r.max_string_length = Some(1);
    assert!(matches!(r.validate(&integer(1)), Err(Error::FieldTypeIncorrect(..))));
    assert!(matches!(r.validate(&text("no")), Err(Error::FieldNotInExactList(..))));
    assert!(matches!(r.validate(&text("ok")), Err(Error::FieldLengthHigherThanMaximum(..))));
}
