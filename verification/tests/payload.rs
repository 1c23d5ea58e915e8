use zmqtt2prom::json::{JsonNumber, JsonValue};
use zmqtt2prom::payload::flatten_payload;

fn float(x: f64) -> JsonValue {
    JsonValue::Number(JsonNumber::Float(x.to_bits()))
}

fn integer(u: u64) -> JsonValue {
    JsonValue::Number(JsonNumber::PosInt(u))
}

fn text(s: &str) -> JsonValue {
    JsonValue::String(s.to_string())
}

fn object(members: Vec<(&str, JsonValue)>) -> JsonValue {
    JsonValue::Object(members.into_iter().map(|(k, v)| (k.to_string(), v)).collect())
}

fn same(a: &JsonValue, b: &JsonValue) -> bool {
    match (a, b) {
        (JsonValue::Null, JsonValue::Null) => true,
        (JsonValue::Bool(x), JsonValue::Bool(y)) => x == y,
        (JsonValue::Number(x), JsonValue::Number(y)) => x == y,
        (JsonValue::String(x), JsonValue::String(y)) => x == y,
        (JsonValue::Array(x), JsonValue::Array(y)) => {
            x.len() == y.len() && x.iter().zip(y.iter()).all(|(p, q)| same(p, q))
        }
        (JsonValue::Object(x), JsonValue::Object(y)) => {
            x.len() == y.len() && x.iter().zip(y.iter()).all(|(p, q)| p.0 == q.0 && same(&p.1, &q.1))
        }
        _ => false,
    }
}

fn is(found: Option<&JsonValue>, expected: &JsonValue) -> bool {
    match found {
        Some(v) => same(v, expected),
        None => false,
    }
}

fn key(k: &str) -> String {
    k.to_string()
}

#[test]
fn test_flatten_simple() {
    let input = object(vec![("temperature", float(25.5)), ("humidity", integer(60))]);

    let result = flatten_payload(&input);
    assert!(is(result.get(&key("temperature")), &float(25.5)));
    assert!(is(result.get(&key("humidity")), &integer(60)));
}

#[test]
fn test_flatten_nested() {
    let input = object(vec![(
        "overload_protection",
        object(vec![("min_current", float(0.5)), ("max_current", float(16.0))]),
    )]);

    let result = flatten_payload(&input);
    assert!(is(result.get(&key("overload_protection_min_current")), &float(0.5)));
    assert!(is(result.get(&key("overload_protection_max_current")), &float(16.0)));
}

#[test]
fn test_flatten_deeply_nested() {
    let input = object(vec![("color", object(vec![("xy", object(vec![("x", float(0.3)), ("y", float(0.4))]))]))]);

    let result = flatten_payload(&input);
    assert!(is(result.get(&key("color_xy_x")), &float(0.3)));
    assert!(is(result.get(&key("color_xy_y")), &float(0.4)));
}

#[test]
fn test_flatten_with_null() {
    let input = object(vec![("temperature", float(25.5)), ("battery", JsonValue::Null)]);

    let result = flatten_payload(&input);
    assert!(is(result.get(&key("temperature")), &float(25.5)));
    assert!(is(result.get(&key("battery")), &JsonValue::Null));
}

#[test]
fn test_flatten_mixed() {
    let input = object(vec![
        ("state", text("ON")),
        ("brightness", integer(254)),
        ("color", object(vec![("x", float(0.3)), ("y", float(0.4))])),
    ]);

    let result = flatten_payload(&input);
    assert!(is(result.get(&key("state")), &text("ON")));
    assert!(is(result.get(&key("brightness")), &integer(254)));
    assert!(is(result.get(&key("color_x")), &float(0.3)));
    assert!(is(result.get(&key("color_y")), &float(0.4)));
}

#[test]
fn flatten_leaves_no_entry_for_nested_objects() {
    let input = object(vec![("color", object(vec![("x", float(0.3))]))]);
    let result = flatten_payload(&input);
    assert!(result.get(&key("color")).is_none());
    assert!(result.get(&key("x")).is_none());
}

#[test]
fn flatten_of_a_non_object_is_empty() {
    let input = JsonValue::Array(vec![integer(1), integer(2)]);
    let result = flatten_payload(&input);
    assert!(result.get(&key("0")).is_none());
    let input = float(1.5);
    assert!(flatten_payload(&input).get(&key("")).is_none());
}

#[test]
fn flatten_later_member_wins_on_clashing_keys() {
    let input = object(vec![("a_b", integer(1)), ("a", object(vec![("b", integer(2))]))]);
    let result = flatten_payload(&input);
    assert!(is(result.get(&key("a_b")), &integer(2)));
}

#[test]
fn flatten_keeps_arrays_as_values() {
    let input = object(vec![("list", JsonValue::Array(vec![integer(1), text("x")]))]);
    let result = flatten_payload(&input);
    assert!(is(result.get(&key("list")), &JsonValue::Array(vec![integer(1), text("x")])));
}
