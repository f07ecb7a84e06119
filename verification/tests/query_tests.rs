use pq::errors::{EvalError, QueryError};
use pq::eval::evaluate;
use pq::json::{parse_json, serialize_json};
use pq::parse::{parse_queries, resolve_boundary};
use pq::step::{Entry, Step};
use pq::value::Value;

fn run(doc: &str, query: &str) -> Result<String, EvalError> {
    let v = parse_json(doc).expect("document must be valid JSON");
    let plan = parse_queries(query).expect("query must parse");
    let out = evaluate(v, &plan)?;
    Ok(serialize_json(&out))
}

#[test]
fn dotted_select_chain() {
    let out = run(r#"{"a":{"b":{"c":7}}}"#, "a.b.c").unwrap();
    assert_eq!(out, "7");
}

#[test]
fn dotted_select_order_matters() {
    let out = run(r#"{"x":{"y":1},"y":{"x":2}}"#, "y.x").unwrap();
    assert_eq!(out, "2");
}

#[test]
fn missing_key_selects_null() {
    let out = run(r#"{"a":1}"#, "z").unwrap();
    assert_eq!(out, "null");
}

#[test]
fn uppercase_expression_on_document() {
    let out = run(r#"{"name":"allovelle"}"#, r#"(_["name"].upper())"#).unwrap();
    assert_eq!(out, "\"ALLOVELLE\"");
}

#[test]
fn uppercase_expression_after_select() {
    let out = run(r#"{"name":"allovelle"}"#, "name.(_.upper())").unwrap();
    assert_eq!(out, "\"ALLOVELLE\"");
}

#[test]
fn negative_index_counts_from_end() {
    let out = run("[10,20,30,40,50]", "[-1]").unwrap();
    assert_eq!(out, "50");
}

#[test]
fn index_past_end_is_fatal() {
    let v = parse_json("[10,20,30,40,50]").unwrap();
    let plan = vec![Step::Index { offset: 5 }];
    assert_eq!(evaluate(v, &plan), Err(EvalError::IndexOutOfRange));
}

#[test]
fn first_fit_boundary_is_shortest() {
    assert_eq!(resolve_boundary("1+2)"), Some(0));
}

#[test]
fn first_fit_truncation_fails_later() {
    assert_eq!(parse_queries("(1)+2"), Err(QueryError::Syntax { at: 3 }));
}

#[test]
fn boundary_none_without_valid_prefix() {
    assert_eq!(resolve_boundary("+++"), None);
}

#[test]
fn build_object_select_copies_one_key() {
    let out = run(r#"{"a":1,"b":2}"#, "{a}").unwrap();
    assert_eq!(out, r#"{"a":1}"#);
}

#[test]
fn build_object_two_selects() {
    let out = run(r#"{"a":1,"b":2,"c":3}"#, "{a,c}").unwrap();
    assert_eq!(out, r#"{"a":1,"c":3}"#);
}

#[test]
fn build_object_mapped_pair() {
    let out = run(r#"{"k":"name","v":5}"#, "{k:v}").unwrap();
    assert_eq!(out, r#"{"name":5}"#);
}

#[test]
fn dots_query_is_noop() {
    let doc = r#"{"b":1,"a":2}"#;
    let out = run(doc, "...").unwrap();
    assert_eq!(out, doc);
}

#[test]
fn parser_accepts_mixed_segments() {
    let plan = parse_queries("a.b[0].(1)").unwrap();
    assert_eq!(plan.len(), 4);
}

#[test]
fn index_with_sign_and_spaces() {
    let plan = parse_queries("[ - 3 ]").unwrap();
    assert_eq!(plan, vec![Step::Index { offset: -3 }]);
}

#[test]
fn index_digits_too_large() {
    assert_eq!(
        parse_queries("[99999999999999999999]"),
        Err(QueryError::IndexRange { at: 0 })
    );
}

#[test]
fn unrecognized_character_names_position() {
    assert_eq!(parse_queries("a.!"), Err(QueryError::Syntax { at: 2 }));
}

#[test]
fn unclosed_object_body() {
    assert_eq!(parse_queries("{a"), Err(QueryError::Unclosed { at: 2 }));
}

#[test]
fn bare_entry_must_be_plain_identifier() {
    assert_eq!(parse_queries("{(1)}"), Err(QueryError::Entry { at: 4 }));
}

#[test]
fn empty_object_body_rejected() {
    assert_eq!(parse_queries("{}"), Err(QueryError::Entry { at: 1 }));
}

#[test]
fn boundary_exhausted_is_an_error() {
    assert_eq!(parse_queries("("), Err(QueryError::Boundary { at: 0 }));
}

#[test]
fn select_on_non_object_fails() {
    let v = parse_json("[1,2]").unwrap();
    let plan = parse_queries("a").unwrap();
    assert_eq!(evaluate(v, &plan), Err(EvalError::NotAnObject));
}

#[test]
fn index_on_non_array_fails() {
    let v = parse_json(r#"{"a":1}"#).unwrap();
    let plan = parse_queries("[0]").unwrap();
    assert_eq!(evaluate(v, &plan), Err(EvalError::NotAnArray));
}

#[test]
fn mapped_key_must_name_a_string() {
    let v = parse_json(r#"{"a":1,"b":2}"#).unwrap();
    let plan = parse_queries("{a:b}").unwrap();
    assert_eq!(evaluate(v, &plan), Err(EvalError::KeyNotString));
}

#[test]
fn mapped_expression_value_unsupported() {
    let v = parse_json(r#"{"a":"x"}"#).unwrap();
    let plan = parse_queries("{a:(1)}").unwrap();
    assert_eq!(evaluate(v, &plan), Err(EvalError::Unsupported));
}

#[test]
fn string_literal_key_part_unsupported() {
    let v = parse_json(r#"{"v":1}"#).unwrap();
    let plan = parse_queries("{\"k\":v}").unwrap();
    assert_eq!(evaluate(v, &plan), Err(EvalError::Unsupported));
}

#[test]
fn reserved_step_reports_unsupported() {
    let v = parse_json("null").unwrap();
    let plan = vec![Step::Fanout];
    assert_eq!(evaluate(v, &plan), Err(EvalError::Unsupported));
}

#[test]
fn malformed_entry_part_reports_bad_entry() {
    let v = parse_json(r#"{"a":1}"#).unwrap();
    let plan = vec![Step::BuildObject {
        entries: vec![Entry::Select {
            part: Step::Index { offset: 0 },
        }],
    }];
    assert_eq!(evaluate(v, &plan), Err(EvalError::BadEntry));
}

#[test]
fn script_failure_is_fatal() {
    let err = run(r#"{"a":1}"#, "(unknown_name)").unwrap_err();
    assert!(matches!(err, EvalError::Script { .. }));
}

#[test]
fn non_json_bridge_output_is_fatal() {
    let err = run("1", r#"(float("inf"))"#).unwrap_err();
    assert_eq!(err, EvalError::Undecodable);
}

#[test]
fn selection_after_missing_key_fails() {
    let v = parse_json(r#"{"a":{"b":1}}"#).unwrap();
    let plan = parse_queries("z.a").unwrap();
    assert_eq!(evaluate(v, &plan), Err(EvalError::NotAnObject));
}

#[test]
fn duplicate_value_is_deep_copy() {
    let v = parse_json(r#"{"a":[1,{"b":"x"}]}"#).unwrap();
    let w = v.duplicate();
    assert_eq!(serialize_json(&w), serialize_json(&v));
    assert_eq!(v, w);
}

#[test]
fn build_object_replaces_repeated_key() {
    let out = run(r#"{"k":"name","v":5,"name":7}"#, "{name,k:v}").unwrap();
    assert_eq!(out, r#"{"name":5}"#);
}

#[test]
fn unicode_survives_the_bridge() {
    let out = run(r#"{"name":"héllo"}"#, "name.(_.upper())").unwrap();
    assert_eq!(out, "\"H\u{c9}LLO\"");
}

#[test]
fn query_text_is_trimmed() {
    let out = run(r#"{"a":1}"#, "  a\t").unwrap();
    assert_eq!(out, "1");
}

#[test]
fn build_object_mixed_entries() {
    let out = run(r#"{"a":1,"k":"name","v":5,"b":2}"#, "{a,k:v,b}").unwrap();
    assert_eq!(out, r#"{"a":1,"name":5,"b":2}"#);
}

#[test]
fn chained_indexes_and_selects() {
    let out = run(r#"{"rows":[{"v":1},{"v":2}]}"#, "rows[-1].v").unwrap();
    assert_eq!(out, "2");
}
