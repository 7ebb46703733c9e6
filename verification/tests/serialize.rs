use fusion_core::json::{JsonNumber, JsonValue};
use fusion_core::response::Response;
use fusion_core::serialize::{is_response_envelope, response_from_value};

fn s(x: &str) -> JsonValue {
    JsonValue::String(x.to_string())
}

fn num(n: u64) -> JsonValue {
    JsonValue::Number(JsonNumber::PosInt(n))
}

fn obj(members: Vec<(&str, JsonValue)>) -> JsonValue {
    JsonValue::Object(members.into_iter().map(|(k, v)| (k.to_string(), v)).collect())
}

fn members(members: Vec<(&str, JsonValue)>) -> Vec<(String, JsonValue)> {
    members.into_iter().map(|(k, v)| (k.to_string(), v)).collect()
}

fn has_header(res: &Response, name: &str, value: &str) -> bool {
    res.headers.iter().any(|(k, v)| k == name && v == value)
}

#[test]
fn plain_object_becomes_json() {
    let res = response_from_value(obj(vec![("message", s("hello")), ("status", num(200))]));
    assert_eq!(res.status, 200);
    assert!(has_header(&res, "content-type", "application/json"));
    let body = std::str::from_utf8(&res.body).unwrap();
    assert!(body.contains("hello"));
    assert!(body.contains("message"));
}

#[test]
fn envelope_with_body() {
    let res = response_from_value(obj(vec![
        ("body", s("{\"ok\":true}")),
        ("headers", obj(vec![("content-type", s("application/json"))])),
        ("status", num(201)),
    ]));
    assert_eq!(res.status, 201);
    assert_eq!(res.body.as_slice(), br#"{"ok":true}"#);
}

#[test]
fn envelope_status_only_empty_body() {
    let res = response_from_value(obj(vec![("status", num(204))]));
    assert_eq!(res.status, 204);
    assert!(res.body.is_empty());
    assert!(!res.headers.iter().any(|(k, _)| k == "content-type"));
}

#[test]
fn string_is_text() {
    let res = response_from_value(s("hi"));
    assert_eq!(res.status, 200);
    assert_eq!(res.body.as_slice(), b"hi");
}

#[test]
fn array_is_json() {
    let res = response_from_value(JsonValue::Array(vec![num(1), num(2), num(3)]));
    assert_eq!(res.status, 200);
    assert_eq!(res.body.as_slice(), b"[1,2,3]");
}

#[test]
fn envelope_detection_rules() {
    assert!(is_response_envelope(&members(vec![("body", JsonValue::Null)])));
    assert!(is_response_envelope(&members(vec![("body", s("x")), ("extra", num(1))])));
    assert!(is_response_envelope(&members(vec![("headers", JsonValue::Null)])));
    assert!(!is_response_envelope(&members(vec![("status", s("200"))])));
    assert!(!is_response_envelope(&members(vec![("status", num(200)), ("message", s("m"))])));
    assert!(!is_response_envelope(&members(vec![("suppress_headers", JsonValue::Array(vec![]))])));
    assert!(!is_response_envelope(&members(vec![])));
}

#[test]
fn envelope_json_body_gets_content_type() {
    let res = response_from_value(obj(vec![("body", obj(vec![("a", num(1))])), ("status", num(202))]));
    assert_eq!(res.status, 202);
    assert_eq!(res.body.as_slice(), br#"{"a":1}"#);
    assert_eq!(res.headers, vec![("content-type".to_string(), "application/json".to_string())]);
}

#[test]
fn envelope_keeps_given_content_type_any_case() {
    let res = response_from_value(obj(vec![
        ("body", JsonValue::Array(vec![])),
        ("headers", obj(vec![("Content-Type", s("text/csv")), ("x-n", num(3))])),
    ]));
    assert_eq!(res.status, 200);
    assert_eq!(
        res.headers,
        vec![
            ("Content-Type".to_string(), "text/csv".to_string()),
            ("x-n".to_string(), "3".to_string()),
        ]
    );
}

#[test]
fn envelope_status_is_capped_and_negative_wraps() {
    let res = response_from_value(obj(vec![("status", num(70000))]));
    assert_eq!(res.status, 65535);
    let res = response_from_value(obj(vec![("status", JsonValue::Number(JsonNumber::NegInt(-1)))]));
    assert_eq!(res.status, 65535);
}

#[test]
fn envelope_suppress_headers_keeps_nonempty_strings() {
    let res = response_from_value(obj(vec![
        ("status", num(200)),
        ("suppress_headers", JsonValue::Array(vec![s("X-Powered-By"), s(""), num(1), s("X-Framework")])),
    ]));
    assert_eq!(res.suppress_headers, vec!["X-Powered-By".to_string(), "X-Framework".to_string()]);
}

#[test]
fn response_builders() {
    let r = Response::not_found();
    assert_eq!(r.status, 404);
    assert_eq!(r.body.as_slice(), b"Not Found");
    let t = Response::text(201, "ok").with_header("x-a", "1");
    assert_eq!(t.status, 201);
    assert_eq!(
        t.headers,
        vec![
            ("content-type".to_string(), "text/plain; charset=utf-8".to_string()),
            ("x-a".to_string(), "1".to_string()),
        ]
    );
    let j = Response::json(200, &JsonValue::Null);
    assert_eq!(j.body.as_slice(), b"null");
    let o = Response::ok(vec![1, 2]);
    assert_eq!(o.status, 200);
    assert_eq!(o.body, vec![1, 2]);
}
