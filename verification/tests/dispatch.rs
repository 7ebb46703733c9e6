use fusion_core::coerce::{coerce_param, param_kind_from_name, ParamKind};
use fusion_core::dispatch::{bind_args, build_response, coerce_value, parse_json_object, raw_args, ParamSpec};
use fusion_core::http_error::HttpError;
use fusion_core::json::{JsonNumber, JsonValue};
use fusion_core::request::Request;
use fusion_core::strmap::StrMap;

fn s(x: &str) -> JsonValue {
    JsonValue::String(x.to_string())
}

fn num(n: u64) -> JsonValue {
    JsonValue::Number(JsonNumber::PosInt(n))
}

fn map(pairs: &[(&str, &str)]) -> StrMap<String> {
    let mut m = StrMap::new();
    for (k, v) in pairs {
        m.insert(k.to_string(), v.to_string());
    }
    m
}

fn req(method: &str, params: &[(&str, &str)], query: &[(&str, &str)], body: &str) -> Request {
    Request {
        method: method.into(),
        path: "/".into(),
        headers: vec![],
        body: body.as_bytes().to_vec(),
        params: map(params),
        query: map(query),
    }
}

fn spec(name: &str, kind: ParamKind) -> ParamSpec {
    ParamSpec { name: name.into(), kind, optional: false, has_default: false }
}

#[test]
fn coerces_common_kinds() {
    assert_eq!(coerce_param("42", ParamKind::Int, None), num(42));
    assert_eq!(coerce_param("true", ParamKind::Bool, None), JsonValue::Bool(true));
    assert_eq!(coerce_param("hi", ParamKind::String, None), s("hi"));
    assert_eq!(coerce_param("7", ParamKind::Auto, None), num(7));
}

#[test]
fn binds_path_param() {
    let specs = vec![spec("id", ParamKind::Int)];
    let request = req("GET", &[("id", "42")], &[], "");
    let args = bind_args(&specs, &request, &vec![None]).unwrap();
    assert_eq!(args.get("id"), Some(&num(42)));
}

#[test]
fn binds_query_param() {
    let specs = vec![spec("q", ParamKind::String)];
    let request = req("GET", &[], &[("q", "hello")], "");
    let args = bind_args(&specs, &request, &vec![None]).unwrap();
    assert_eq!(args.get("q"), Some(&s("hello")));
}

#[test]
fn binds_body_param() {
    let specs = vec![spec("name", ParamKind::String)];
    let request = req("POST", &[], &[], r#"{"name":"alice"}"#);
    let args = bind_args(&specs, &request, &vec![None]).unwrap();
    assert_eq!(args.get("name"), Some(&s("alice")));
}

#[test]
fn missing_param_passes_null() {
    let specs = vec![spec("id", ParamKind::Int)];
    let request = req("GET", &[], &[], "");
    let args = bind_args(&specs, &request, &vec![None]).unwrap();
    assert_eq!(args.get("id"), Some(&JsonValue::Null));
}

#[test]
fn rejects_bool_for_int() {
    let err = coerce_value(&JsonValue::Bool(true), ParamKind::Int, None).unwrap_err();
    assert_eq!(err.status, 400);
}

#[test]
fn bool_error_detail_names_the_kind() {
    let err = coerce_value(&JsonValue::Bool(false), ParamKind::Float, None).unwrap_err();
    assert_eq!(err.detail, JsonValue::Object(vec![("detail".to_string(), s("expected float, got bool"))]));
    assert_eq!(err.message(), "HTTP 400");
}

#[test]
fn kind_names_are_trimmed_and_case_blind() {
    assert_eq!(param_kind_from_name(" INT "), ParamKind::Int);
    assert_eq!(param_kind_from_name("Double"), ParamKind::Float);
    assert_eq!(param_kind_from_name("boolean"), ParamKind::Bool);
    assert_eq!(param_kind_from_name("str"), ParamKind::String);
    assert_eq!(param_kind_from_name(""), ParamKind::Auto);
    assert_eq!(param_kind_from_name("uuid"), ParamKind::String);
}

#[test]
fn int_kind_keeps_unparsable_text() {
    assert_eq!(coerce_param("-12", ParamKind::Int, None), JsonValue::Number(JsonNumber::NegInt(-12)));
    assert_eq!(coerce_param("+5", ParamKind::Int, None), num(5));
    assert_eq!(coerce_param("4x", ParamKind::Int, None), s("4x"));
    assert_eq!(coerce_param("99999999999999999999", ParamKind::Int, None), s("99999999999999999999"));
}

#[test]
fn float_kind_uses_the_host_reading() {
    assert_eq!(
        coerce_param("1.5", ParamKind::Float, Some("1.5".to_string())),
        JsonValue::Number(JsonNumber::Float("1.5".to_string()))
    );
    assert_eq!(coerce_param("abc", ParamKind::Float, None), s("abc"));
    assert_eq!(
        coerce_param("2.5", ParamKind::Auto, Some("2.5".to_string())),
        JsonValue::Number(JsonNumber::Float("2.5".to_string()))
    );
}

#[test]
fn bool_and_auto_words() {
    assert_eq!(coerce_param("YES", ParamKind::Bool, None), JsonValue::Bool(true));
    assert_eq!(coerce_param("On", ParamKind::Bool, None), JsonValue::Bool(true));
    assert_eq!(coerce_param("no", ParamKind::Bool, None), JsonValue::Bool(false));
    assert_eq!(coerce_param("False", ParamKind::Auto, None), JsonValue::Bool(false));
    assert_eq!(coerce_param("TRUE", ParamKind::Auto, None), JsonValue::Bool(true));
    assert_eq!(coerce_param("word", ParamKind::Auto, None), s("word"));
}

#[test]
fn coerce_value_of_json_scalars() {
    assert_eq!(coerce_value(&num(3), ParamKind::Int, None).unwrap(), num(3));
    assert_eq!(coerce_value(&s("9"), ParamKind::Int, None).unwrap(), num(9));
    assert_eq!(coerce_value(&JsonValue::Null, ParamKind::String, None).unwrap(), s(""));
    assert_eq!(coerce_value(&num(7), ParamKind::String, None).unwrap(), s("7"));
    assert_eq!(coerce_value(&num(1), ParamKind::Bool, None).unwrap(), JsonValue::Bool(true));
    assert_eq!(coerce_value(&JsonValue::Bool(true), ParamKind::Bool, None).unwrap(), JsonValue::Bool(true));
    assert_eq!(
        coerce_value(&num(2), ParamKind::Float, Some("2.0".to_string())).unwrap(),
        JsonValue::Number(JsonNumber::Float("2.0".to_string()))
    );
    assert_eq!(
        coerce_value(&JsonValue::Array(vec![num(1)]), ParamKind::String, None).unwrap(),
        s("[1]")
    );
}

#[test]
fn path_wins_over_body_and_query() {
    let specs = vec![spec("id", ParamKind::String)];
    let request = req("PUT", &[("id", "p")], &[("id", "q")], r#"{"id":"b"}"#);
    let args = bind_args(&specs, &request, &vec![None]).unwrap();
    assert_eq!(args.get("id"), Some(&s("p")));
}

#[test]
fn write_methods_ignore_the_query() {
    let specs = vec![spec("q", ParamKind::String)];
    let request = req("patch", &[], &[("q", "x")], "");
    let args = bind_args(&specs, &request, &vec![None]).unwrap();
    assert_eq!(args.get("q"), Some(&JsonValue::Null));
}

#[test]
fn defaults_and_optionals() {
    let specs = vec![
        ParamSpec { name: "a".into(), kind: ParamKind::Int, optional: false, has_default: true },
        ParamSpec { name: "b".into(), kind: ParamKind::Int, optional: true, has_default: false },
    ];
    let request = req("POST", &[], &[], r#"{"b":null}"#);
    let args = bind_args(&specs, &request, &vec![None, None]).unwrap();
    assert_eq!(args.get("a"), None);
    assert_eq!(args.get("b"), Some(&JsonValue::Null));
    assert_eq!(args.len(), 1);
}

#[test]
fn body_bool_for_int_is_rejected() {
    let specs = vec![spec("n", ParamKind::Int)];
    let request = req("POST", &[], &[], r#"{"n":true}"#);
    let err = bind_args(&specs, &request, &vec![None]).unwrap_err();
    assert_eq!(err.status, 400);
}

#[test]
fn raw_args_follow_the_sources() {
    let specs = vec![spec("id", ParamKind::Float), spec("x", ParamKind::Float)];
    let request = req("POST", &[("id", "3.5")], &[], r#"{"x":2}"#);
    let raws = raw_args(&specs, &request);
    assert_eq!(raws, vec![Some(s("3.5")), Some(num(2))]);
    let args = bind_args(&specs, &request, &vec![Some("3.5".to_string()), Some("2.0".to_string())]).unwrap();
    assert_eq!(args.get("x"), Some(&JsonValue::Number(JsonNumber::Float("2.0".to_string()))));
}

#[test]
fn json_object_bodies() {
    assert_eq!(parse_json_object("  "), None);
    assert_eq!(parse_json_object("[1]"), None);
    assert_eq!(parse_json_object("{nope"), None);
    assert_eq!(parse_json_object(r#" {"a":1} "#), Some(vec![("a".to_string(), num(1))]));
}

#[test]
fn response_envelope_adds_json_content_type() {
    let env = build_response(num(5), 201, StrMap::new());
    let mut hs = StrMap::new();
    hs.insert("content-type".to_string(), "application/json".to_string());
    assert_eq!(
        env,
        JsonValue::Object(vec![
            ("body".to_string(), num(5)),
            ("headers".to_string(), JsonValue::Object(vec![("content-type".to_string(), s("application/json"))])),
            ("status".to_string(), num(201)),
        ])
    );
    let plain = build_response(s("hi"), 200, StrMap::new());
    assert_eq!(
        plain,
        JsonValue::Object(vec![("body".to_string(), s("hi")), ("status".to_string(), num(200))])
    );
}

#[test]
fn error_envelope_sorts_headers() {
    let mut hs = StrMap::new();
    hs.insert("x-b".to_string(), "2".to_string());
    hs.insert("x-a".to_string(), "1".to_string());
    let e = HttpError::new(404, s("missing")).with_headers(hs);
    assert_eq!(e.message(), "missing");
    assert_eq!(
        e.to_envelope(),
        JsonValue::Object(vec![
            ("body".to_string(), s("missing")),
            (
                "headers".to_string(),
                JsonValue::Object(vec![("x-a".to_string(), s("1")), ("x-b".to_string(), s("2"))])
            ),
            ("status".to_string(), num(404)),
        ])
    );
}
