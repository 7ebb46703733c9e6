use fusion_core::json::{JsonNumber, JsonValue};
use fusion_core::security::hello;
use fusion_core::tasks::{TaskRegistry, TaskStatus};
use fusion_core::templates::{builtin_components, TemplateCache};

#[test]
fn test_hello() {
    assert!(hello("Fusion").contains("security"));
}

#[test]
fn hello_exact_text() {
    assert_eq!(hello("Ann"), "Hello, Ann! (from security)");
}

#[test]
fn includes_css_partial() {
    let mut cache = TemplateCache::new();
    cache.clear_template_cache();
    let root = "/tmp/fusion_tpl_css_test";
    let templates = vec![
        ("home/style.css".to_string(), "body { color: red; }".to_string()),
        ("home/index.html".to_string(), r#"<style>{% include "home/style.css" %}</style>"#.to_string()),
    ];
    assert!(!cache.engine_ready(root));
    cache.install(root, &templates).unwrap();
    assert!(cache.engine_ready(root));
    let html = cache.render("home/index.html", &JsonValue::Object(vec![])).unwrap();
    assert!(html.contains("color: red"));
}

#[test]
fn template_context_must_be_an_object() {
    let mut cache = TemplateCache::new();
    cache.install("/r", &vec![("a.html".to_string(), "{{ n }}".to_string())]).unwrap();
    let err = cache.render("a.html", &JsonValue::Array(vec![])).unwrap_err();
    assert!(err.starts_with("invalid template context: "));
    let ok = cache
        .render(
            "a.html",
            &JsonValue::Object(vec![("n".to_string(), JsonValue::Number(JsonNumber::PosInt(7)))]),
        )
        .unwrap();
    assert_eq!(ok, "7");
    let missing = cache.render("b.html", &JsonValue::Object(vec![])).unwrap_err();
    assert!(missing.starts_with("template render failed: "));
    let bad = cache.install("/r2", &vec![("c.html".to_string(), "{% if %}".to_string())]).unwrap_err();
    assert!(bad.starts_with("failed to load templates: "));
    assert!(cache.engine_ready("/r"));
    cache.clear_template_cache();
    assert!(!cache.engine_ready("/r"));
}

#[test]
fn builtin_component_list() {
    let c = builtin_components();
    assert_eq!(c.len(), 6);
    assert_eq!(c.get("link").copied(), Some("{{<fusion.link label=\"...\" href=\"...\" />}}"));
    assert!(c.get("table").unwrap().contains("page_size={10}"));
}

#[test]
fn cancel_before_run() {
    let mut reg = TaskRegistry::new();
    let id = reg.alloc_id();
    assert_eq!(id, "task-1");
    reg.register(id.clone());
    assert_eq!(reg.status(&id), Some(TaskStatus::Pending));
    assert!(reg.cancel(&id));
    assert!(!reg.begin_run(&id));
    assert_eq!(reg.status(&id), Some(TaskStatus::Cancelled));
}

#[test]
fn task_lifecycle() {
    let mut reg = TaskRegistry::new();
    let a = reg.alloc_id();
    let b = reg.alloc_id();
    assert_eq!(b, "task-2");
    reg.register(a.clone());
    reg.register(b.clone());
    assert!(reg.begin_run(&a));
    assert_eq!(reg.status(&a), Some(TaskStatus::Running));
    reg.finish(&a, true);
    assert_eq!(reg.status(&a), Some(TaskStatus::Done));
    assert!(reg.cancel(&a));
    assert_eq!(reg.status(&a), Some(TaskStatus::Done));
    assert!(reg.begin_run(&b));
    reg.finish(&b, false);
    assert_eq!(reg.status(&b), Some(TaskStatus::Failed));
    assert!(!reg.cancel("task-9"));
    assert_eq!(reg.status("task-9"), None);
    reg.reset_for_tests();
    assert_eq!(reg.status(&a), None);
}

#[test]
fn task_status_names() {
    for s in [TaskStatus::Pending, TaskStatus::Running, TaskStatus::Done, TaskStatus::Failed, TaskStatus::Cancelled] {
        assert_eq!(TaskStatus::parse(s.as_str()), Some(s));
        assert_eq!(TaskStatus::from_u8(s.as_u8()), s);
    }
    assert_eq!(TaskStatus::parse(" DONE "), Some(TaskStatus::Done));
    assert_eq!(TaskStatus::parse("later"), None);
}

#[test]
fn json_values_copy_and_read() {
    let v = JsonValue::Object(vec![
        ("a".to_string(), JsonValue::Number(JsonNumber::NegInt(-3))),
        ("b".to_string(), JsonValue::Array(vec![JsonValue::Null, JsonValue::Bool(true)])),
    ]);
    assert_eq!(v.clone(), v);
    assert_eq!(v.get("a").and_then(|x| x.as_i64()), Some(-3));
    assert_eq!(v.get("a").and_then(|x| x.as_u64()), None);
    assert_eq!(v.get("c"), None);
    assert_eq!(JsonValue::from_i64(5), JsonValue::Number(JsonNumber::PosInt(5)));
    assert!(JsonValue::Null.is_null());
}
