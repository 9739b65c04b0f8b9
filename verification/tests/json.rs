use router_core::JsonValue;

fn text(s: &str) -> JsonValue {
    JsonValue::Text(s.to_string())
}

fn object(members: Vec<(&str, JsonValue)>) -> JsonValue {
    JsonValue::Object(
        members
            .into_iter()
            .map(|(k, v)| (k.to_string(), v))
            .collect(),
    )
}

#[test]
fn get_finds_member_of_object() {
    let doc = object(vec![("a", text("1")), ("b", JsonValue::Bool(true))]);
    assert_eq!(doc.get("a").and_then(|v| v.as_str()), Some("1"));
    assert_eq!(doc.get("b").and_then(|v| v.as_bool()), Some(true));
    assert!(doc.get("c").is_none());
    assert!(doc.get("").is_none());
}

#[test]
fn get_takes_first_of_equal_keys() {
    let doc = object(vec![("k", text("first")), ("k", text("second"))]);
    assert_eq!(doc.get("k").and_then(|v| v.as_str()), Some("first"));
}

#[test]
fn get_on_other_values_is_none() {
    assert!(JsonValue::Null.get("a").is_none());
    assert!(text("a").get("a").is_none());
    assert!(JsonValue::Array(vec![text("a")]).get("a").is_none());
}

#[test]
fn accessors_tell_kinds_apart() {
    assert!(JsonValue::Null.is_null());
    assert!(!text("").is_null());
    assert_eq!(text("x").as_str(), Some("x"));
    assert_eq!(JsonValue::Number("1".to_string()).as_str(), None);
    assert_eq!(JsonValue::Bool(false).as_bool(), Some(false));
    assert_eq!(text("true").as_bool(), None);
    assert_eq!(JsonValue::Array(vec![text("a")]).as_array().map(|a| a.len()), Some(1));
    assert!(object(vec![]).as_array().is_none());
    assert_eq!(object(vec![("a", text("b"))]).as_object().map(|o| o.len()), Some(1));
    assert!(JsonValue::Array(vec![]).as_object().is_none());
}

#[test]
fn duplicate_copies_nested_documents() {
    let doc = object(vec![
        ("list", JsonValue::Array(vec![text("a"), JsonValue::Number("2.5".to_string())])),
        ("inner", object(vec![("deep", object(vec![("x", JsonValue::Null)]))])),
        ("flag", JsonValue::Bool(true)),
    ]);
    let copy = doc.duplicate();
    assert_eq!(format!("{:?}", copy), format!("{:?}", doc));
    assert!(copy
        .get("inner")
        .and_then(|v| v.get("deep"))
        .and_then(|v| v.get("x"))
        .map(|v| v.is_null())
        .unwrap_or(false));
}
