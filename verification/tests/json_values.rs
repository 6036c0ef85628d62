use responses_chat::json::{from_value, Json, Object};

#[test]
fn object_round_trip() {
    let j = Json::Object(
        Object::new()
            .with("a", Json::integer(1))
            .with("b", Json::text("x\ny"))
            .with("a", Json::Null),
    );
    assert_eq!(j.to_text(), "{\"a\":null,\"b\":\"x\\ny\"}");
    assert_eq!(from_value(j.to_value()).to_value(), j.to_value());
}

#[test]
fn every_kind_of_value_survives() {
    let text = r#"{"a":[null,true,false,0,-1,1.5,18446744073709551615,"s",[],{}],"b":{"c":{"d":""}}}"#;
    let value: serde_json::Value = serde_json::from_str(text).unwrap();
    let json = from_value(value.clone());
    assert_eq!(json.to_value(), value);
    assert_eq!(json.clone().to_value(), value);
    assert_eq!(json.to_text(), text);
}

#[test]
fn members() {
    let json = from_value(serde_json::from_str(r#"{"s":"x","n":7,"l":[1]}"#).unwrap());
    assert_eq!(json.get_str("s"), Some("x"));
    assert_eq!(json.get_str("n"), None);
    assert_eq!(json.str_or_empty("none"), "");
    assert_eq!(json.get_array("l").unwrap().len(), 1);
    assert!(json.get("none").is_none());
    assert_eq!(json.member("n").unwrap().to_text(), "7");
    assert_eq!(Json::integer(7).to_text(), "7");
    assert!(Json::text("s").get("s").is_none());
}

#[test]
fn text_is_read() {
    let json = Json::from_text(r#" {"b": [1, "x"], "a": null} "#).unwrap();
    assert_eq!(json.to_text(), r#"{"a":null,"b":[1,"x"]}"#);
    assert!(Json::from_text("{").is_none());
    assert!(Json::from_text("").is_none());
    assert!(Json::from_text("{} {}").is_none());
}
