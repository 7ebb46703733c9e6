use fusion_core::coerce::ParamKind;
use fusion_core::dispatch::ParamSpec;
use fusion_core::json::JsonValue;
use fusion_core::openapi::{openapi_spec, versioned_route_path, ApiRegistry};
use fusion_core::strmap::StrMap;

fn text(s: &str) -> JsonValue {
    JsonValue::String(s.to_string())
}

fn obj(ms: Vec<(&str, JsonValue)>) -> JsonValue {
    JsonValue::Object(ms.into_iter().map(|(k, v)| (k.to_string(), v)).collect())
}

fn spec(name: &str, kind: ParamKind, optional: bool, has_default: bool) -> ParamSpec {
    ParamSpec { name: name.to_string(), kind, optional, has_default }
}

fn int64() -> JsonValue {
    obj(vec![("format", text("int64")), ("type", text("integer"))])
}

fn responses() -> JsonValue {
    obj(vec![(
        "200",
        obj(vec![
            ("content", obj(vec![("application/json", obj(vec![("schema", obj(vec![("type", text("object"))]))]))])),
            ("description", text("OK")),
        ]),
    )])
}

fn id_param() -> JsonValue {
    obj(vec![
        ("in", text("path")),
        ("name", text("id")),
        ("required", JsonValue::Bool(true)),
        ("schema", int64()),
    ])
}

#[test]
fn version_prefix() {
    assert_eq!(versioned_route_path("/api/users", Some(" /v1/ ")), "v1/api/users");
    assert_eq!(versioned_route_path("/api/users", Some("  ")), "/api/users");
    assert_eq!(versioned_route_path("/api/users", None), "/api/users");
}

#[test]
fn empty_registry_document() {
    let doc = openapi_spec(&Vec::new());
    assert_eq!(
        doc,
        obj(vec![
            ("info", obj(vec![("title", text("fusion-framework")), ("version", text("0.1.0"))])),
            ("openapi", text("3.0.3")),
            ("paths", obj(vec![])),
        ])
    );
}

#[test]
fn registered_class_document() {
    let mut registry = ApiRegistry::new();
    let mut methods = StrMap::new();
    methods.insert(
        "post".to_string(),
        vec![
            spec("id", ParamKind::Int, false, false),
            spec("name", ParamKind::String, false, false),
            spec("age", ParamKind::Int, false, true),
        ],
    );
    methods.insert(
        "get".to_string(),
        vec![spec("id", ParamKind::Int, false, false), spec("q", ParamKind::String, true, false)],
    );
    let path = registry.register_route(
        "/api/[module]/{id}",
        "UsersApi",
        methods,
        vec!["users".to_string()],
        None,
        None,
        Some("v1"),
        false,
    );
    assert_eq!(path, "v1/api/usersapi/{id}");
    assert_eq!(registry.mount_plan(), vec![(0, "get"), (0, "post")]);

    let get = obj(vec![
        ("deprecated", JsonValue::Bool(false)),
        ("description", text("")),
        ("operationId", text("UsersApi_get")),
        (
            "parameters",
            JsonValue::Array(vec![
                id_param(),
                obj(vec![
                    ("in", text("query")),
                    ("name", text("q")),
                    ("required", JsonValue::Bool(false)),
                    ("schema", obj(vec![("nullable", JsonValue::Bool(true)), ("type", text("string"))])),
                ]),
            ]),
        ),
        ("responses", responses()),
        ("summary", text("UsersApi GET")),
        ("tags", JsonValue::Array(vec![text("users")])),
    ]);
    let post = obj(vec![
        ("deprecated", JsonValue::Bool(false)),
        ("description", text("")),
        ("operationId", text("UsersApi_post")),
        ("parameters", JsonValue::Array(vec![id_param()])),
        (
            "requestBody",
            obj(vec![
                (
                    "content",
                    obj(vec![(
                        "application/json",
                        obj(vec![(
                            "schema",
                            obj(vec![
                                (
                                    "properties",
                                    obj(vec![
                                        (
                                            "age",
                                            obj(vec![
                                                ("format", text("int64")),
                                                ("nullable", JsonValue::Bool(true)),
                                                ("type", text("integer")),
                                            ]),
                                        ),
                                        ("name", obj(vec![("type", text("string"))])),
                                    ]),
                                ),
                                ("required", JsonValue::Array(vec![text("name")])),
                                ("type", text("object")),
                            ]),
                        )]),
                    )]),
                ),
                ("required", JsonValue::Bool(true)),
            ]),
        ),
        ("responses", responses()),
        ("summary", text("UsersApi POST")),
        ("tags", JsonValue::Array(vec![text("users")])),
    ]);
    let expected = obj(vec![
        ("info", obj(vec![("title", text("fusion-framework")), ("version", text("0.1.0"))])),
        ("openapi", text("3.0.3")),
        ("paths", obj(vec![("/v1/api/usersapi/{id}", obj(vec![("get", get), ("post", post)]))])),
        ("tags", JsonValue::Array(vec![obj(vec![("name", text("users"))])])),
    ]);
    assert_eq!(openapi_spec(registry.entries()), expected);

    registry.clear_registry();
    assert!(registry.entries().is_empty());
}
