use tailcall::json::{Json, JsonError};
use tailcall::template::{DynamicValue, Mustache};

#[test]
fn parse_reads_each_kind_of_value() {
    assert_eq!(Json::parse("null"), Ok(Json::Null));
    assert_eq!(Json::parse("true"), Ok(Json::Bool(true)));
    assert_eq!(Json::parse("12"), Ok(Json::Number("12".into())));
    assert_eq!(Json::parse("-3"), Ok(Json::Number("-3".into())));
    assert_eq!(Json::parse("1.5"), Ok(Json::Number("1.5".into())));
    assert_eq!(Json::parse(r#""a\nb""#), Ok(Json::String("a\nb".into())));
    assert_eq!(
        Json::parse(r#"[1, "x", [null]]"#),
        Ok(Json::Array(vec![
            Json::Number("1".into()),
            Json::String("x".into()),
            Json::Array(vec![Json::Null])
        ]))
    );
    assert_eq!(
        Json::parse(r#"{"b": 1, "a": {"c": false}}"#),
        Ok(Json::Object(vec![
            ("b".into(), Json::Number("1".into())),
            ("a".into(), Json::Object(vec![("c".into(), Json::Bool(false))])),
        ]))
    );
}

#[test]
fn parse_refuses_what_is_no_json() {
    assert_eq!(Json::parse(""), Err(JsonError::Parse));
    assert_eq!(Json::parse("{"), Err(JsonError::Parse));
    assert_eq!(Json::parse("[1,]"), Err(JsonError::Parse));
    assert_eq!(Json::parse("nul"), Err(JsonError::Parse));
}

#[test]
fn to_text_writes_compact_json() {
    let v = Json::Object(vec![
        ("b".into(), Json::Number("1".into())),
        ("a".into(), Json::Array(vec![Json::String("x\"y".into()), Json::Null, Json::Bool(true)])),
    ]);
    assert_eq!(v.to_text(), Ok(r#"{"b":1,"a":["x\"y",null,true]}"#.to_string()));
    assert_eq!(Json::String("plain".into()).to_text(), Ok("\"plain\"".to_string()));
}

#[test]
fn to_text_refuses_a_number_that_is_none() {
    assert_eq!(Json::Number("twelve".into()).to_text(), Err(JsonError::Serialize));
    assert_eq!(
        Json::Array(vec![Json::Number("1".into()), Json::Number("".into())]).to_text(),
        Err(JsonError::Serialize)
    );
}

#[test]
fn text_and_value_round_trip() {
    let text = r#"{"a":[1,2.5,{"b":null}],"c":"d"}"#;
    assert_eq!(Json::parse(text).unwrap().to_text().unwrap(), text);
}

#[test]
fn clone_is_equal() {
    let v = Json::parse(r#"{"a":[1,{"b":"c"}]}"#).unwrap();
    assert_eq!(v.clone(), v);
}

#[test]
fn dynamic_value_as_json_keeps_templates_as_text() {
    let v = DynamicValue::Object(vec![
        ("id".into(), DynamicValue::Mustache(Mustache::parse("{{.value.id}}"))),
        ("n".into(), DynamicValue::Value(Json::Number("3".into()))),
        ("l".into(), DynamicValue::Array(vec![DynamicValue::Mustache(Mustache::parse("a{{x}}"))])),
    ]);
    assert_eq!(
        v.to_json(),
        Json::parse(r#"{"id":"{{value.id}}","n":3,"l":["a{{x}}"]}"#).unwrap()
    );
    assert_eq!(v.to_string(), Ok(r#"{"id":"{{value.id}}","n":3,"l":["a{{x}}"]}"#.to_string()));
    assert_eq!(
        DynamicValue::Value(Json::Number("x".into())).to_string(),
        Err(JsonError::Serialize)
    );
}
