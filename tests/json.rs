use normcore::JsonValue;
use normcore::parse_json;
use normcore::quote;
use normcore::to_pretty_json;

#[test]
fn parses_object_array_and_string() {
    let value = parse_json(r#"{"a":[1,true,"x"],"b":null}"#).expect("must parse");
    assert!(matches!(value, JsonValue::Object(_)));
    assert!(matches!(value.get("b"), Some(JsonValue::Null)));
}

#[test]
fn pretty_prints_json() {
    let value = parse_json(r#"{"status":"ok"}"#).expect("must parse");
    let rendered = to_pretty_json(&value);
    assert!(rendered.contains("\"status\""));
}

#[test]
fn pretty_print_layout() {
    let value = parse_json(r#"{"b":[1,{}],"a":"x\n"}"#).expect("must parse");
    assert_eq!(to_pretty_json(&value), "{\n  \"a\": \"x\\n\",\n  \"b\": [\n    1,\n    {}\n  ]\n}");
    assert_eq!(to_pretty_json(&JsonValue::Array(Vec::new())), "[]");
    assert_eq!(to_pretty_json(&JsonValue::Bool(false)), "false");
}

#[test]
fn objects_keep_sorted_unique_keys() {
    let value = parse_json(r#"{"b":1,"a":2,"b":3}"#).expect("must parse");
    match &value {
        JsonValue::Object(es) => {
            assert_eq!(es.len(), 2);
            assert_eq!(es[0].0, "a");
            assert_eq!(es[1].0, "b");
            assert!(matches!(&es[1].1, JsonValue::Number(n) if n == "3"));
        }
        _ => panic!("object expected"),
    }
}

#[test]
fn strings_and_escapes() {
    let value = parse_json(r#""a\"b\\c\/A\t""#).expect("must parse");
    assert_eq!(value.as_str(), Some("a\"b\\c/A\t"));
    assert!(parse_json(r#""\ud800""#).is_err());
    assert!(parse_json("\"a\u{1}b\"").is_err());
    assert!(parse_json(r#""abc"#).is_err());
    assert!(parse_json(r#""\x""#).is_err());
}

#[test]
fn numbers_keep_their_text() {
    assert!(matches!(parse_json("-1.50e+3").unwrap(), JsonValue::Number(n) if n == "-1.50e+3"));
    assert!(matches!(parse_json("0.5").unwrap(), JsonValue::Number(n) if n == "0.5"));
    assert!(parse_json("-").is_err());
    assert!(parse_json("1e").is_err());
    assert!(parse_json("-.5").is_ok());
}

#[test]
fn rejects_malformed_text() {
    assert_eq!(parse_json("").unwrap_err().message, "unexpected end of JSON");
    assert_eq!(parse_json("[1] x").unwrap_err().message, "trailing characters in JSON");
    assert!(parse_json("[1,]").is_err());
    assert!(parse_json("{\"a\" 1}").is_err());
    assert!(parse_json("nul").is_err());
    assert!(parse_json("tru").is_err());
    assert!(parse_json("?").is_err());
    assert!(matches!(parse_json(" true ").unwrap(), JsonValue::Bool(true)));
}

#[test]
fn quoting_escapes_control_characters() {
    assert_eq!(quote("a\"b\\\n\r\t\u{1}\u{7f}é"), "\"a\\\"b\\\\\\n\\r\\t\\u0001\\u007fé\"");
}

#[test]
fn accessors() {
    let value = parse_json(r#"{"k":[1]}"#).unwrap();
    assert!(value.as_object().is_some());
    assert!(value.as_array().is_none());
    assert_eq!(value.get("k").and_then(|v| v.as_array()).map(|a| a.len()), Some(1));
    assert!(value.get("missing").is_none());
    assert!(JsonValue::Null.get("k").is_none());
}

#[test]
fn unicode_escapes_decode() {
    assert_eq!(parse_json(r#""\u0041\u00e9""#).unwrap().as_str(), Some("Aé"));
    assert!(parse_json(r#""\u00zz""#).is_err());
    assert!(parse_json(r#""\u00""#).is_err());
}
