use sgp_proxy::json::put;
use sgp_proxy::json::Json;

const SAMPLE: &str = "{\"b\":[1,-2.5,\"x\",null,{\"c\":true}],\"a\":{}}";

#[test]
fn text_is_read_into_a_value() {
    let value = Json::parse(SAMPLE).unwrap();
    let items = value.get_array("b").unwrap();
    assert_eq!(items.len(), 5);
    assert_eq!(items[0], Json::Number(serde_json::Number::from(1)));
    assert_eq!(items[2].as_str(), Some("x"));
    assert_eq!(items[3], Json::Null);
    assert_eq!(items[4].get("c").and_then(Json::as_bool), Some(true));
    assert_eq!(value.get("a"), Some(&Json::Object(vec![])));
}

#[test]
fn text_that_is_not_json_is_refused() {
    for text in ["", " ", "{", "event: x", "1 2", "nul", "'a'"] {
        assert_eq!(Json::parse(text), None);
    }
}

#[test]
fn values_are_written_out_with_members_by_name() {
    let value = Json::parse(SAMPLE).unwrap();
    assert_eq!(
        value.render().unwrap(),
        "{\"a\":{},\"b\":[1,-2.5,\"x\",null,{\"c\":true}]}"
    );
}

#[test]
fn values_survive_the_exchange() {
    let value = Json::parse(SAMPLE).unwrap();
    let exchanged = value.to_value();
    assert_eq!(exchanged["b"][4]["c"], serde_json::Value::Bool(true));
    assert_eq!(exchanged["a"], serde_json::Value::Object(serde_json::Map::new()));
    assert_eq!(Json::from_value(exchanged), value);
    assert_eq!(value.clone(), value);
}

#[test]
fn later_member_counts() {
    let mut members = Vec::new();
    put(&mut members, "a", Json::text("old"));
    put(&mut members, "b", Json::Null);
    put(&mut members, "a", Json::text("new"));
    let value = Json::Object(members);
    assert_eq!(value.get_str("a"), Some("new"));
    assert_eq!(value.render().unwrap(), "{\"a\":\"new\",\"b\":null}");
}

#[test]
fn other_values_have_no_members() {
    for value in [Json::Null, Json::Bool(true), Json::text("a"), Json::Array(vec![])] {
        assert_eq!(value.get("a"), None);
        assert_eq!(value.get_str("a"), None);
        assert!(value.get_array("a").is_none());
    }
    let value = Json::Object(vec![("a".to_string(), Json::Null)]);
    assert_eq!(value.get("a"), Some(&Json::Null));
    assert_eq!(value.get("b"), None);
    assert_eq!(value.get_str("a"), None);
    assert!(value.get_array("a").is_none());
    assert_eq!(value.as_str(), None);
    assert_eq!(value.as_bool(), None);
    assert!(value.as_array().is_none());
}
