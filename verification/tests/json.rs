//! JSON values.

use stargaze::Json;

#[test]
fn json_reads_and_writes() {
    let text = r#"{"a":[1,-2,2.5,true,null],"b":{"c":"d\n"}}"#;
    let v = Json::parse(text).unwrap();
    assert_eq!(v.to_text().unwrap(), text);
    let items = v.get("a").unwrap().as_array().unwrap();
    assert_eq!(items[0].as_u64(), Some(1));
    assert_eq!(items[1].as_u64(), None);
    assert_eq!(items[2].as_u64(), None);
    assert_eq!(items[3].as_bool(), Some(true));
    assert_eq!(v.get("b").unwrap().str_at("c"), Some("d\n"));
    assert!(v.get("z").is_none());
    assert!(items[0].get("a").is_none());
    assert_eq!(v.clone(), v);
}

#[test]
fn json_objects_are_written_in_the_order_of_their_keys() {
    let v = Json::object()
        .with("b", Json::Unsigned(1))
        .with("a", Json::Signed(-1))
        .with("b", Json::text("later"));
    assert_eq!(v.str_at("b"), Some("later"));
    assert_eq!(v.to_text().unwrap(), r#"{"a":-1,"b":"later"}"#);
}

#[test]
fn json_fields_go_to_objects_only() {
    assert_eq!(Json::Null.with("a", Json::Null), Json::Null);
}

#[test]
fn json_integers_are_the_same_however_held() {
    assert_eq!(Json::Signed(5).as_u64(), Some(5));
    assert_eq!(Json::Signed(-5).as_u64(), None);
    assert_eq!(Json::Number(serde_json::Number::from(5u64)).as_u64(), Some(5));
    assert_eq!(Json::Number(serde_json::Number::from(-5i64)).as_u64(), None);
    assert_eq!(
        Json::Unsigned(u64::MAX).to_text().unwrap(),
        "18446744073709551615"
    );
}

#[test]
fn json_pretty_text_is_indented() {
    let v = Json::object().with("a", Json::Array(vec![Json::Bool(false)]));
    assert_eq!(
        v.to_pretty_text().unwrap(),
        "{\n  \"a\": [\n    false\n  ]\n}"
    );
}

#[test]
fn json_compact_text_is_one_line() {
    let v = Json::text("a\nb\r\n");
    assert_eq!(v.to_text().unwrap(), r#""a\nb\r\n""#);
}

#[test]
fn json_errors_say_what_is_wrong() {
    let e = Json::parse("{").unwrap_err();
    assert!(e.contains("EOF"), "{}", e);
}

#[test]
fn json_texts() {
    let v = Json::texts(&vec!["a".to_string(), "b".to_string()]);
    assert_eq!(v.to_text().unwrap(), r#"["a","b"]"#);
    assert_eq!(Json::opt_text(&None), Json::Null);
    assert_eq!(Json::opt_text(&Some("x".to_string())), Json::text("x"));
}
