use roon_api::json::Json;
use roon_api::json_text::{from_value, to_value};

#[test]
fn documents_are_read_and_written() {
    let text = "{\"a\":[1,-2,null,true,\"x\\n\"],\"b\":{\"c\":1.5}}";
    let json = Json::parse(text).unwrap();
    assert_eq!(json.to_text(), text);
    assert_eq!(json.to_text(), to_value(&json).to_string());
    assert_eq!(Json::parse(&json.to_pretty_text()).unwrap(), json);
    assert_eq!(json.clone(), json);
}

#[test]
fn a_document_on_one_line_has_no_line_break() {
    let json = Json::text("a\nb");
    assert_eq!(json.to_text(), "\"a\\nb\"");
}

#[test]
fn what_is_no_document_is_not_read() {
    assert_eq!(Json::parse(""), None);
    assert_eq!(Json::parse("{"), None);
    assert_eq!(Json::parse("1 2"), None);
}

#[test]
fn deep_documents_are_read_up_to_a_limit() {
    let nested = |n: usize| "[".repeat(n) + &"]".repeat(n);
    assert!(Json::parse(&nested(127)).is_some());
    assert!(Json::parse(&nested(128)).is_none());
}

#[test]
fn numbers_keep_their_values() {
    let text = "[0,18446744073709551615,-9223372036854775808,1e100,0.1]";
    let json = Json::parse(text).unwrap();
    if let Json::Array(items) = &json {
        assert_eq!(items[0], Json::Uint(0));
        assert_eq!(items[1], Json::Uint(u64::MAX));
        assert_eq!(items[2], Json::Int(i64::MIN));
    } else {
        panic!("{:?}", json);
    }
    assert_eq!(json.to_text(), "[0,18446744073709551615,-9223372036854775808,1e+100,0.1]");
}

#[test]
fn members_are_set_and_found() {
    let mut json = Json::object();
    json.set("a", Json::uint(1));
    json.set("b", Json::text("x"));
    json.set("a", Json::uint(2));
    assert_eq!(json.get("a"), Some(&Json::Uint(2)));
    assert_eq!(json.get_str("b"), Some("x"));
    assert_eq!(json.get_str("a"), None);
    assert_eq!(json.get("c"), None);
    assert_eq!(json.to_text(), "{\"a\":2,\"b\":\"x\"}");
    let mut json = Json::Null;
    assert!(json.is_settable());
    json.set("a", Json::opt_text(&None));
    assert_eq!(json.to_text(), "{\"a\":null}");
    assert!(!Json::Array(vec![]).is_settable());
    assert!(Json::Array(vec![]).is_array());
    assert_eq!(Json::Bool(true).as_bool(), Some(true));
    assert_eq!(Json::Null.as_bool(), None);
}

#[test]
fn of_two_members_with_one_key_the_last_counts() {
    let json = Json::Object(vec![
        ("a".to_string(), Json::Uint(1)),
        ("a".to_string(), Json::Uint(2)),
    ]);
    assert_eq!(json.get("a"), Some(&Json::Uint(2)));
    assert_eq!(json.to_text(), "{\"a\":2}");
    let json = Json::parse("{\"a\":1,\"a\":2}").unwrap();
    assert_eq!(json.get("a"), Some(&Json::Uint(2)));
}

#[test]
fn values_are_converted() {
    let value = serde_json::Value::Array(vec![
        serde_json::Value::from(3u64),
        serde_json::Value::from("x"),
        serde_json::Value::Bool(false),
    ]);
    let json = from_value(value.clone());
    assert_eq!(
        json,
        Json::Array(vec![Json::Uint(3), Json::text("x"), Json::Bool(false)])
    );
    assert_eq!(to_value(&json), value);
}

#[test]
fn the_last_entry_under_a_key_is_written() {
    let entry = |key: &str, n: u64| (key.to_string(), Json::Uint(n));
    let j = Json::Object(vec![entry("a", 1), entry("b", 2), entry("a", 3), entry("c", 4)]);
    assert_eq!(j.to_text(), "{\"a\":3,\"b\":2,\"c\":4}");
    assert_eq!(j.get("a"), Some(&Json::Uint(3)));
    let inner = Json::Object(vec![("x".to_string(), j.clone()), ("x".to_string(), Json::Null)]);
    assert_eq!(inner.to_text(), "{\"x\":null}");
}

#[test]
fn documents_that_are_nested_too_deep_are_not_read() {
    let nested = |n: usize| format!("{}{}", "[".repeat(n), "]".repeat(n));
    assert_eq!(Json::parse(&nested(127)).unwrap().to_text(), nested(127));
    assert!(Json::parse(&nested(128)).is_none());
}
