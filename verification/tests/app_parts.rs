use fusion_core::coerce::ParamKind;
use fusion_core::openapi::{extract_path_params_from_pattern, schema_for_param};
use fusion_core::cache::normalize_driver;
use fusion_core::headers::apply_fingerprint_headers;
use fusion_core::settings::normalize_key;
use fusion_core::tasks::TaskRegistry;
use fusion_core::api_context::ApiContext;
use fusion_core::application::App;
use fusion_core::discovery::{first_settings_name, is_settings_file_name, settings_file_name, unique_roots};
use fusion_core::json::{JsonNumber, JsonValue};
use fusion_core::request::Request;
use fusion_core::response::Response;
use fusion_core::router::SyncHandler;
use fusion_core::strmap::StrMap;
use fusion_core::templates::{is_template_extension, template_key, TemplateCache};

fn strings(items: &[&str]) -> Vec<String> {
    items.iter().map(|s| s.to_string()).collect()
}

#[test]
fn settings_file_name_for_env() {
    assert_eq!(settings_file_name("dev"), "fusion.dev.json");
    assert_eq!(settings_file_name(""), "fusion..json");
}

#[test]
fn settings_family_names() {
    assert!(is_settings_file_name("fusion.prod.json"));
    assert!(is_settings_file_name("fusion.json"));
    assert!(!is_settings_file_name("fusion.prod.yaml"));
    assert!(!is_settings_file_name("app.fusion.json"));
    assert!(!is_settings_file_name("fusion"));
}

#[test]
fn roots_keep_first_occurrence() {
    let roots = strings(&["/a/b", "/a", "/a/b", "/", "/a", "/x"]);
    assert_eq!(unique_roots(&roots), strings(&["/a/b", "/a", "/", "/x"]));
    assert!(unique_roots(&Vec::new()).is_empty());
}

#[test]
fn least_settings_name_is_picked() {
    let names = strings(&["readme.md", "fusion.test.json", "fusion.prod.json", "fusion.dev.yaml"]);
    assert_eq!(first_settings_name(&names), Some("fusion.prod.json".to_string()));
    assert_eq!(first_settings_name(&strings(&["a.json", "fusion.txt"])), None);
}

#[test]
fn template_files_and_keys() {
    assert!(is_template_extension("html"));
    assert!(is_template_extension("tera"));
    assert!(is_template_extension("css"));
    assert!(!is_template_extension("HTML"));
    assert!(!is_template_extension("js"));
    assert_eq!(template_key("home\\partials\\nav.html"), "home/partials/nav.html");
    assert_eq!(template_key("a/b.css"), "a/b.css");
}

#[test]
fn engine_is_built_once_per_root() {
    let mut cache = TemplateCache::new();
    let first = vec![("t.html".to_string(), "one {{ n }}".to_string())];
    let second = vec![("t.html".to_string(), "two {{ n }}".to_string())];
    let ctx = JsonValue::Object(vec![("n".to_string(), JsonValue::Number(JsonNumber::PosInt(1)))]);
    assert_eq!(cache.render_template("/r", &first, "t.html", &ctx).unwrap(), "one 1");
    // Same root: the cached engine is reused, the new templates are not read.
    assert_eq!(cache.render_template("/r", &second, "t.html", &ctx).unwrap(), "one 1");
    // Another root: the engine is rebuilt.
    assert_eq!(cache.render_template("/s", &second, "t.html", &ctx).unwrap(), "two 1");
    assert!(cache.render_template("/s", &second, "t.html", &JsonValue::Null).is_err());
}

#[test]
fn api_context_from_request() {
    let mut params = StrMap::new();
    params.insert("id".to_string(), "7".to_string());
    let req = Request::new(
        "post",
        "/items/7",
        vec![
            ("x-a".to_string(), "1".to_string()),
            ("x-b".to_string(), "2".to_string()),
            ("x-a".to_string(), "3".to_string()),
        ],
        b"{\"k\":1}".to_vec(),
    )
    .with_params(params);
    let ctx = ApiContext::from_request(&req);
    assert_eq!(ctx.method, "POST");
    assert_eq!(ctx.path, "/items/7");
    assert_eq!(ctx.body, "{\"k\":1}");
    assert_eq!(ctx.headers.get("x-a").map(String::as_str), Some("3"));
    assert_eq!(ctx.headers.get("x-b").map(String::as_str), Some("2"));
    assert_eq!(ctx.params.get("id").map(String::as_str), Some("7"));
    assert_eq!(ctx.query.len(), 0);
    assert_eq!(ctx.state.len(), 0);
}

#[test]
fn api_context_response_envelope() {
    let mut headers = StrMap::new();
    headers.insert("x-k".to_string(), "v".to_string());
    let r = ApiContext::response(JsonValue::Bool(true), 201, headers);
    let expected = JsonValue::Object(vec![
        ("body".to_string(), JsonValue::Bool(true)),
        (
            "headers".to_string(),
            JsonValue::Object(vec![
                ("content-type".to_string(), JsonValue::String("application/json".to_string())),
                ("x-k".to_string(), JsonValue::String("v".to_string())),
            ]),
        ),
        ("status".to_string(), JsonValue::Number(JsonNumber::PosInt(201))),
    ]);
    assert_eq!(r, expected);
}

fn hello(_req: Request) -> Response {
    Response::text(200, "ok")
}

#[test]
fn app_routes_and_settings() {
    let mut app: App<SyncHandler<fn(Request) -> Response>> = App::new();
    assert_eq!(app.settings().env(), "dev");
    app.route("get", "/", SyncHandler(hello as fn(Request) -> Response));
    app.settings_mut()
        .merge_map(vec![("port".to_string(), JsonValue::Number(JsonNumber::PosInt(8080)))]);
    assert_eq!(app.settings().port(), 8080);
    assert_eq!(app.router().len(), 1);
    let router = app.into_router();
    let res = router.dispatch(Request::new("GET", "/", vec![], vec![]));
    assert_eq!(res.body.as_slice(), b"ok");
}

#[test]
fn fingerprint_twice_is_once() {
    let mut h = vec![("x-powered-by".to_string(), "custom".to_string())];
    apply_fingerprint_headers(&mut h);
    let once = h.clone();
    apply_fingerprint_headers(&mut h);
    assert_eq!(h, once);
    assert_eq!(h.len(), 3);
    assert_eq!(h[0], ("x-powered-by".to_string(), "custom".to_string()));
}

#[test]
fn task_ids_are_fresh() {
    let mut reg = TaskRegistry::new();
    let a = reg.alloc_id();
    let b = reg.alloc_id();
    assert_eq!(a, "task-1");
    assert_eq!(b, "task-2");
    assert_ne!(a, b);
}

#[test]
fn normal_forms_are_stable() {
    let k = normalize_key("  Cache-Driver ");
    assert_eq!(k, "cache_driver");
    assert_eq!(normalize_key(&k), k);
    let d = normalize_driver(" MAKO ");
    assert_eq!(d, "moka");
    assert_eq!(normalize_driver(&d), d);
    let other = normalize_driver("\tRedis\n");
    assert_eq!(other, "redis");
    assert_eq!(normalize_driver(&other), other);
}

fn text(s: &str) -> JsonValue {
    JsonValue::String(s.to_string())
}

fn obj(ms: Vec<(&str, JsonValue)>) -> JsonValue {
    JsonValue::Object(ms.into_iter().map(|(k, v)| (k.to_string(), v)).collect())
}

#[test]
fn pattern_parameter_names() {
    assert_eq!(extract_path_params_from_pattern("/users/{id}/[name]/x/{}/"), strings(&["id", "name"]));
    assert!(extract_path_params_from_pattern("/").is_empty());
}

#[test]
fn parameter_schemas() {
    assert_eq!(schema_for_param(ParamKind::String, false), obj(vec![("type", text("string"))]));
    assert_eq!(
        schema_for_param(ParamKind::Int, true),
        obj(vec![("format", text("int64")), ("nullable", JsonValue::Bool(true)), ("type", text("integer"))])
    );
    assert_eq!(
        schema_for_param(ParamKind::Bool, true),
        obj(vec![("nullable", JsonValue::Bool(true)), ("type", text("boolean"))])
    );
    let auto = schema_for_param(ParamKind::Auto, false);
    assert_eq!(
        auto,
        obj(vec![(
            "oneOf",
            JsonValue::Array(vec![
                obj(vec![("format", text("int64")), ("type", text("integer"))]),
                obj(vec![("type", text("number"))]),
                obj(vec![("type", text("boolean"))]),
                obj(vec![("type", text("string"))]),
            ])
        )])
    );
}

#[test]
fn install_with_no_templates_succeeds() {
    let mut cache = TemplateCache::new();
    assert!(cache.install("/empty", &Vec::new()).is_ok());
    assert!(cache.engine_ready("/empty"));
    let err = cache.render("missing.html", &JsonValue::Object(vec![])).unwrap_err();
    assert!(err.starts_with("template render failed: "));
    let bad = cache.install("/bad", &vec![("x.html".to_string(), "{% extends \"nope.html\" %}".to_string())]);
    assert!(bad.unwrap_err().starts_with("failed to load templates: "));
    assert!(cache.engine_ready("/empty"));
}
