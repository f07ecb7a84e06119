use pq::json::{parse_json, serialize_json};
use pq::value::Value;

fn text_of(v: &Value) -> String {
    serialize_json(v)
}

#[test]
fn parses_all_value_forms() {
    let v = parse_json(" {\"a\": [1, 2.5e3, true, false, null], \"b\": \"x\"} ").unwrap();
    assert_eq!(text_of(&v), r#"{"a":[1,2.5e3,true,false,null],"b":"x"}"#);
}

#[test]
fn number_tokens_are_kept_verbatim() {
    let v = parse_json("[1.50, -0, 1e05, 0.25]").unwrap();
    assert_eq!(text_of(&v), "[1.50,-0,1e05,0.25]");
}

#[test]
fn unicode_escape_decodes() {
    let v = parse_json("\"\\u0041\\u00e9\"").unwrap();
    assert_eq!(
        v,
        Value::Str {
            s: "A\u{e9}".to_string()
        }
    );
}

#[test]
fn surrogate_pair_decodes() {
    let v = parse_json("\"\\ud83d\\ude00\"").unwrap();
    assert_eq!(
        v,
        Value::Str {
            s: "\u{1f600}".to_string()
        }
    );
}

#[test]
fn named_escapes_decode() {
    let v = parse_json("\"a\\n\\t\\\\\\\"\\/\\b\\f\\r\"").unwrap();
    assert_eq!(
        v,
        Value::Str {
            s: "a\n\t\\\"/\u{8}\u{c}\r".to_string()
        }
    );
}

#[test]
fn control_characters_are_escaped_on_output() {
    let v = Value::Str {
        s: "a\nb".to_string(),
    };
    assert_eq!(text_of(&v), "\"a\\u000ab\"");
}

#[test]
fn string_round_trip_preserves_value() {
    let v = Value::Str {
        s: "quote \" slash \\ newline \n snow \u{2603}".to_string(),
    };
    let again = parse_json(&text_of(&v)).unwrap();
    assert_eq!(again, v);
}

#[test]
fn document_round_trip_preserves_value() {
    let text = r#"{"k":[{"a":null},true,"s",-12.5]}"#;
    let v = parse_json(text).unwrap();
    assert_eq!(text_of(&v), text);
}

#[test]
fn rejects_malformed_documents() {
    assert_eq!(parse_json(""), None);
    assert_eq!(parse_json("01"), None);
    assert_eq!(parse_json("+1"), None);
    assert_eq!(parse_json("1."), None);
    assert_eq!(parse_json("[1,]"), None);
    assert_eq!(parse_json("{\"a\":1,}"), None);
    assert_eq!(parse_json("{\"a\" 1}"), None);
    assert_eq!(parse_json("Infinity"), None);
    assert_eq!(parse_json("nul"), None);
    assert_eq!(parse_json("1 2"), None);
    assert_eq!(parse_json("\"unterminated"), None);
    assert_eq!(parse_json("\"\\ud800\""), None);
    assert_eq!(parse_json("\"\\q\""), None);
    assert_eq!(parse_json("\"raw\ncontrol\""), None);
}

#[test]
fn accepts_empty_containers() {
    assert_eq!(text_of(&parse_json("[]").unwrap()), "[]");
    assert_eq!(text_of(&parse_json("{}").unwrap()), "{}");
    assert_eq!(text_of(&parse_json("[[], {}]").unwrap()), "[[],{}]");
}

#[test]
fn whitespace_everywhere_is_fine() {
    let v = parse_json("\t{ \"a\" :\r\n [ 1 , 2 ] }\n").unwrap();
    assert_eq!(text_of(&v), r#"{"a":[1,2]}"#);
}

#[test]
fn deep_nesting_round_trips() {
    let text = "[[[[[[[[1]]]]]]]]";
    let v = parse_json(text).unwrap();
    assert_eq!(text_of(&v), text);
}
