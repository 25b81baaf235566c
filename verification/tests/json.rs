use openai_compat::json::{empty_object, text_or_default, Json, Member};

fn parsed(text: &str) -> serde_json::Value {
    serde_json::from_str(text).unwrap()
}

fn member(key: &str, value: Json) -> Member {
    Member { key: key.to_string(), value }
}

fn text(value: &str) -> Json {
    Json::String(value.to_string())
}

#[test]
fn every_kind_of_value_is_converted() {
    let value = parsed(r#"{"a":null,"b":true,"c":1.5,"d":"x","e":[1,[]],"f":{"g":false}}"#);
    let expected = Json::Object(vec![
        member("a", Json::Null),
        member("b", Json::Bool(true)),
        member("c", Json::Number(serde_json::Number::from_f64(1.5).unwrap())),
        member("d", text("x")),
        member(
            "e",
            Json::Array(vec![
                Json::Number(serde_json::Number::from(1u64)),
                Json::Array(Vec::new()),
            ]),
        ),
        member("f", Json::Object(vec![member("g", Json::Bool(false))])),
    ]);
    assert_eq!(Json::from_value(&value), expected);
}

#[test]
fn a_value_survives_both_conversions() {
    let value = parsed(r#"[{"b":[null,"y",-3],"a":{"n":18446744073709551615}},true,0.1,""]"#);
    assert_eq!(Json::from_value(&value).to_value(), value);
}

#[test]
fn the_last_of_equal_keys_counts() {
    let json = Json::Object(vec![
        member("k", text("first")),
        member("other", Json::Null),
        member("k", text("last")),
    ]);
    assert_eq!(json.get_str("k"), Some("last"));
    assert_eq!(json.to_value(), parsed(r#"{"k":"last","other":null}"#));
    assert_eq!(json.to_text(), r#"{"k":"last","other":null}"#);
}

#[test]
fn a_clone_holds_the_same() {
    let json = Json::from_value(&parsed(r#"{"a":[1,2.5,{"b":"c"}],"d":null,"e":false}"#));
    assert_eq!(json.clone(), json);
    assert_eq!(json.clone().to_value(), json.to_value());
}

#[test]
fn text_is_compact_and_escaped() {
    let json = Json::from_value(&parsed(r#"{ "b" : [ 1, 2.5, "q\"\n" ], "a" : { } }"#));
    assert_eq!(json.to_text(), r#"{"a":{},"b":[1,2.5,"q\"\n"]}"#);
    assert_eq!(Json::Null.to_text(), "null");
    assert_eq!(Json::Bool(true).to_text(), "true");
    assert_eq!(text("a").to_text(), "\"a\"");
    assert_eq!(Json::Number(serde_json::Number::from(-7i64)).to_text(), "-7");
}

#[test]
fn an_object_without_members_is_two_braces() {
    assert_eq!(empty_object().to_text(), "{}");
    assert_eq!(empty_object(), Json::Object(Vec::new()));
}

#[test]
fn members_are_found_by_name() {
    let json = Json::from_value(&parsed(r#"{"type":"text","n":1}"#));
    assert_eq!(json.get("type"), Some(&text("text")));
    assert_eq!(json.get("missing"), None);
    assert_eq!(json.get_str("type"), Some("text"));
    assert_eq!(json.get_str("n"), None);
    assert_eq!(json.get_str("missing"), None);
}

#[test]
fn only_objects_have_members() {
    assert_eq!(text("type").get("type"), None);
    assert_eq!(Json::Array(vec![text("type")]).get("type"), None);
    assert_eq!(Json::Null.get("type"), None);
}

#[test]
fn only_strings_have_a_text() {
    assert_eq!(text("t").as_str(), Some("t"));
    assert_eq!(Json::Bool(false).as_str(), None);
    assert_eq!(Json::Array(vec![text("t")]).as_str(), None);
}

#[test]
fn a_failed_serialization_gives_the_empty_text() {
    let failure = serde_json::from_str::<serde_json::Value>("{").unwrap_err();
    assert_eq!(text_or_default(Err(failure)), "");
    assert_eq!(text_or_default(Ok("kept".to_string())), "kept");
}
