use cortx::value::{Date, Number, Value};
use cortx::yaml::YamlNode;

fn num(f: f64) -> Value {
    Value::Number(Number::from_bits(f.to_bits(), f.to_string()))
}

fn date(y: i32, m: u32, d: u32) -> Value {
    Value::Date(Date::from_ymd_opt(y, m, d).unwrap())
}

fn node(v: &serde_yaml::Value) -> YamlNode {
    match v {
        serde_yaml::Value::Null => YamlNode::Null,
        serde_yaml::Value::Bool(b) => YamlNode::Bool(*b),
        serde_yaml::Value::Number(n) => {
            let f = n.as_f64().unwrap_or(0.0);
            YamlNode::Number(Number::from_bits(f.to_bits(), f.to_string()))
        }
        serde_yaml::Value::String(s) => YamlNode::String(s.clone()),
        serde_yaml::Value::Sequence(items) => YamlNode::Sequence(items.iter().map(node).collect()),
        serde_yaml::Value::Mapping(m) => {
            YamlNode::Mapping(m.iter().map(|(k, v)| (node(k), node(v))).collect())
        }
        serde_yaml::Value::Tagged(t) => {
            YamlNode::Tagged(t.tag.to_string(), Box::new(node(&t.value)))
        }
    }
}

// -- Display tests --

#[test]
fn test_value_display_bool() {
    assert_eq!(Value::Bool(true).to_display_string(), "true");
    assert_eq!(Value::Bool(false).to_display_string(), "false");
}

#[test]
fn test_value_display_number() {
    assert_eq!(num(42.0).to_display_string(), "42");
    assert_eq!(num(3.14).to_display_string(), "3.14");
}

#[test]
fn test_value_display_null() {
    assert_eq!(Value::Null.to_display_string(), "null");
}

#[test]
fn test_value_display_string() {
    assert_eq!(Value::String("hello".into()).to_display_string(), "hello");
}

#[test]
fn test_value_display_date() {
    let d = date(2026, 4, 2);
    assert_eq!(d.to_display_string(), "2026-04-02");
}

#[test]
fn test_value_display_array() {
    let arr = Value::Array(vec![Value::String("a".into()), Value::String("b".into())]);
    assert_eq!(arr.to_display_string(), "[a, b]");
}

// -- PartialOrd tests --

#[test]
fn test_value_compare_numbers() {
    let a = num(1.0);
    let b = num(5.0);
    assert!(a < b);
    assert!(b > a);
}

#[test]
fn test_value_compare_strings() {
    let a = Value::String("alpha".into());
    let b = Value::String("beta".into());
    assert!(a < b);
}

#[test]
fn test_value_compare_bools() {
    assert!(Value::Bool(false) < Value::Bool(true));
    assert!(Value::Bool(true) > Value::Bool(false));
    assert_eq!(Value::Bool(false), Value::Bool(false));
}

#[test]
fn test_value_compare_arrays() {
    let a = Value::Array(vec![num(1.0), num(2.0)]);
    let b = Value::Array(vec![num(1.0), num(3.0)]);
    assert!(a < b);
}

#[test]
fn test_value_compare_mixed_types_consistent_ordering() {
    assert!(Value::Null < Value::Bool(false));
    assert!(Value::Bool(false) < num(1.0));
    assert!(num(1.0) < Value::String("hello".into()));
    let d = date(2026, 1, 1);
    assert!(Value::String("hello".into()) < d);
    let arr = Value::Array(vec![]);
    assert!(d < arr);
}

// -- from_yaml edge cases --

#[test]
fn test_value_from_yaml_number() {
    let yaml: serde_yaml::Value = serde_yaml::from_str("42").unwrap();
    let val = Value::from_yaml(&node(&yaml));
    assert_eq!(val, num(42.0));
}

#[test]
fn test_value_from_yaml_mapping_becomes_null() {
    let yaml: serde_yaml::Value = serde_yaml::from_str("foo: bar").unwrap();
    let val = Value::from_yaml(&node(&yaml));
    assert_eq!(val, Value::Null);
}

// -- to_yaml roundtrip tests --

#[test]
fn test_value_to_yaml_roundtrip() {
    let values = vec![
        Value::String("hello".into()),
        Value::Bool(true),
        num(3.14),
        Value::Null,
        date(2026, 4, 2),
        Value::Array(vec![Value::String("a".into())]),
    ];
    for val in values {
        let yaml = val.to_yaml();
        let back = Value::from_yaml(&yaml);
        assert_eq!(val, back, "roundtrip failed for {val:?}");
    }
}

// -- as_str and as_date --

#[test]
fn test_value_as_str_non_string() {
    assert_eq!(Value::Bool(true).as_str(), None);
    assert_eq!(Value::Null.as_str(), None);
}

#[test]
fn test_value_as_date_non_date() {
    assert!(Value::String("foo".into()).as_date().is_none());
    assert!(Value::Null.as_date().is_none());
}

#[test]
fn test_value_contains_non_array() {
    assert!(!Value::String("hello".into()).contains(&Value::String("h".into())));
    assert!(!Value::Null.contains(&Value::String("x".into())));
}

#[test]
fn test_value_from_yaml_string() {
    let yaml: serde_yaml::Value = serde_yaml::from_str("\"hello\"").unwrap();
    let val = Value::from_yaml(&node(&yaml));
    assert_eq!(val, Value::String("hello".to_string()));
}

#[test]
fn test_value_from_yaml_date_string() {
    let val = Value::parse_as_date("2026-04-02");
    assert_eq!(val, Some(date(2026, 4, 2)));
}

#[test]
fn test_value_from_yaml_array() {
    let yaml: serde_yaml::Value = serde_yaml::from_str("[home, urgent]").unwrap();
    let val = Value::from_yaml(&node(&yaml));
    assert_eq!(
        val,
        Value::Array(vec![Value::String("home".to_string()), Value::String("urgent".to_string())])
    );
}

#[test]
fn test_value_from_yaml_bool() {
    let yaml: serde_yaml::Value = serde_yaml::from_str("true").unwrap();
    let val = Value::from_yaml(&node(&yaml));
    assert_eq!(val, Value::Bool(true));
}

#[test]
fn test_value_from_yaml_null() {
    let yaml: serde_yaml::Value = serde_yaml::from_str("null").unwrap();
    let val = Value::from_yaml(&node(&yaml));
    assert_eq!(val, Value::Null);
}

#[test]
fn test_value_compare_dates() {
    let d1 = date(2026, 4, 1);
    let d2 = date(2026, 4, 5);
    assert!(d1 < d2);
}

#[test]
fn test_value_array_contains() {
    let arr = Value::Array(vec![Value::String("home".to_string()), Value::String("urgent".to_string())]);
    assert!(arr.contains(&Value::String("home".to_string())));
    assert!(!arr.contains(&Value::String("work".to_string())));
}

// -- Further cases --

#[test]
fn number_keys_order_like_numbers() {
    assert!(num(-2.5) < num(-1.0));
    assert!(num(-1.0) < num(0.0));
    assert!(num(0.5) < num(1e10));
    assert_eq!(num(0.0), num(-0.0));
}

#[test]
fn nan_equals_nothing() {
    let nan = num(f64::NAN);
    assert!(nan != nan);
    assert!(nan.partial_cmp(&num(1.0)).is_none());
}

#[test]
fn dates_at_the_calendar_edges() {
    assert!(Date::from_ymd_opt(2024, 2, 29).is_some());
    assert!(Date::from_ymd_opt(2023, 2, 29).is_none());
    assert!(Date::from_ymd_opt(1900, 2, 29).is_none());
    assert!(Date::from_ymd_opt(2000, 2, 29).is_some());
    let d = Date::from_ymd_opt(2025, 12, 31).unwrap();
    let next = d.succ_opt().unwrap();
    assert_eq!((next.year(), next.month(), next.day()), (2026, 1, 1));
    let prev = Date::from_ymd_opt(2024, 3, 1).unwrap().pred_opt().unwrap();
    assert_eq!((prev.year(), prev.month(), prev.day()), (2024, 2, 29));
}

#[test]
fn date_like_strings_read_back_as_dates() {
    let yaml = Value::String("2026-04-02".into()).to_yaml();
    assert_eq!(Value::from_yaml(&yaml), date(2026, 4, 2));
}

#[test]
fn tagged_yaml_is_looked_through() {
    let yaml: serde_yaml::Value = serde_yaml::from_str("!custom hello").unwrap();
    assert_eq!(Value::from_yaml(&node(&yaml)), Value::String("hello".into()));
}

#[test]
fn nested_array_display() {
    let v = Value::Array(vec![num(1.0), Value::Array(vec![Value::Bool(true)]), Value::Null]);
    assert_eq!(v.to_display_string(), "[1, [true], null]");
}
