use fusion_core::json::{JsonNumber, JsonValue};
use fusion_core::monitor::{MonitorConfig, MonitorState};
use fusion_core::settings::{normalize_key, resolve_value, Settings};
use fusion_core::strmap::StrMap;

fn s(x: &str) -> JsonValue {
    JsonValue::String(x.to_string())
}

fn num(n: u64) -> JsonValue {
    JsonValue::Number(JsonNumber::PosInt(n))
}

fn obj(members: Vec<(&str, JsonValue)>) -> JsonValue {
    JsonValue::Object(members.into_iter().map(|(k, v)| (k.to_string(), v)).collect())
}

fn members(members: Vec<(&str, JsonValue)>) -> Vec<(String, JsonValue)> {
    members.into_iter().map(|(k, v)| (k.to_string(), v)).collect()
}

#[test]
fn loads_config_object() {
    let mut settings = Settings::new();
    settings
        .load_json_text(
            "fusion.dev.json",
            "/tmp/fusion.dev.json",
            r#"{"env":"dev","config":{"host":"0.0.0.0","port":8088,"debug":true}}"#,
        )
        .unwrap();
    assert_eq!(settings.host(), "0.0.0.0");
    assert_eq!(settings.port(), 8088);
    assert!(settings.debug());
}

#[test]
fn plain_object_is_json_data_not_envelope_confusion() {
    let mut settings = Settings::new();
    settings.merge_map(members(vec![("secret_key", s("abc"))]));
    assert_eq!(settings.get_str("secret_key").as_deref(), Some("abc"));
}

#[test]
fn prefers_top_level_monitor_settings() {
    let mut st = Settings::new();
    st.merge_map(members(vec![
        ("cache", obj(vec![("monitor", obj(vec![("enabled", JsonValue::Bool(false)), ("path", s("/old"))]))])),
        ("monitor", obj(vec![("enabled", JsonValue::Bool(true)), ("path", s("/ops"))])),
    ]));
    let cfg = MonitorConfig::from_settings(&st);
    assert!(cfg.enabled);
    assert_eq!(cfg.path, "/ops");
}

#[test]
fn falls_back_to_legacy_cache_monitor() {
    let mut st = Settings::new();
    st.merge_map(members(vec![(
        "cache",
        obj(vec![("monitor", obj(vec![("enabled", JsonValue::Bool(true)), ("path", s("/__fusion/cache"))]))]),
    )]));
    let cfg = MonitorConfig::from_settings(&st);
    assert!(cfg.enabled);
    assert_eq!(cfg.path, "/__fusion/cache");
}

#[test]
fn defaults_without_settings() {
    let st = Settings::new();
    assert_eq!(st.env(), "dev");
    assert_eq!(st.host(), "127.0.0.1");
    assert_eq!(st.port(), 3000);
    assert!(!st.debug());
    assert_eq!(st.templates_dir(), "templates");
    assert!(!st.is_loaded());
    let cfg = MonitorConfig::from_settings(&st);
    assert!(!cfg.enabled);
    assert_eq!(cfg.path, "/__fusion/monitor");
}

#[test]
fn keys_are_stored_as_given_and_normalised() {
    let mut st = Settings::new();
    st.merge_map(members(vec![("Max-Items", num(5)), (" Port ", s("9000"))]));
    assert_eq!(st.get("max_items"), Some(num(5)));
    assert_eq!(st.get("MAX-ITEMS"), Some(num(5)));
    assert_eq!(st.port(), 9000);
    assert_eq!(st.keys(), vec!["max_items".to_string(), "port".to_string()]);
    assert!(st.contains("Max-Items"));
    assert!(!st.contains("missing"));
    assert_eq!(normalize_key("  A-b-C "), "a_b_c");
}

#[test]
fn placeholders_resolve_from_the_environment() {
    let mut vars = StrMap::new();
    vars.insert("DB_URL".to_string(), "postgres://x".to_string());
    vars.insert("FUSION_ENV".to_string(), "prod".to_string());
    let mut st = Settings::from_environment(vars);
    assert_eq!(st.env(), "prod");
    st.merge_map(members(vec![
        ("db", s("DB_URL")),
        ("list", JsonValue::Array(vec![s("DB_URL"), s("Db_URL"), s("MISSING")])),
        ("one", s("A")),
    ]));
    assert_eq!(st.get_str("db").as_deref(), Some("postgres://x"));
    assert_eq!(st.get("list"), Some(JsonValue::Array(vec![s("postgres://x"), s("Db_URL"), s("MISSING")])));
    assert_eq!(st.get_str("one").as_deref(), Some("A"));
    let mut env = StrMap::new();
    env.insert("X_Y".to_string(), "1".to_string());
    assert_eq!(resolve_value(&obj(vec![("k", s("X_Y"))]), &env), obj(vec![("k", s("1"))]));
}

#[test]
fn dotted_keys_dig_into_raw_then_config() {
    let mut st = Settings::new();
    st.load_json_text(
        "f.json",
        "/abs/f.json",
        r#"{"cache":{"Max-Capacity":10,"monitor":{"enabled":"yes"}},"env":"test","commands":{"run":"x"}}"#,
    )
    .unwrap();
    assert_eq!(st.env(), "test");
    assert_eq!(st.get_u64("cache.max_capacity"), Some(10));
    assert_eq!(st.get_bool("cache.monitor.enabled"), Some(true));
    assert_eq!(st.get("cache.nothing"), None);
    assert_eq!(st.get("commands"), Some(obj(vec![("run", s("x"))])));
    assert_eq!(st.get("env"), None);
    assert_eq!(st.loaded_from().clone(), vec!["/abs/f.json".to_string()]);
    assert!(st.is_loaded());
}

#[test]
fn load_errors_leave_settings_alone() {
    let mut st = Settings::new();
    let e = st.load_json_text("bad.json", "/x/bad.json", "[1,2]").unwrap_err();
    assert_eq!(e, "settings json must be an object: bad.json");
    let e = st.load_json_text("bad.json", "/x/bad.json", "{oops").unwrap_err();
    assert!(e.starts_with("invalid settings json bad.json: "));
    assert!(st.loaded_from().is_empty());
    assert!(!st.is_loaded());
}

#[test]
fn typed_getters() {
    let mut st = Settings::new();
    st.merge_map(members(vec![
        ("a", JsonValue::Number(JsonNumber::NegInt(-1))),
        ("b", s("On")),
        ("c", num(0)),
        ("d", obj(vec![("x", num(1))])),
        ("e", JsonValue::Bool(true)),
    ]));
    assert_eq!(st.get_u64("a"), Some(u64::MAX));
    assert_eq!(st.get_bool("b"), Some(true));
    assert_eq!(st.get_bool("c"), Some(false));
    assert_eq!(st.get_bool("d"), None);
    assert_eq!(st.get_str("d").as_deref(), Some(r#"{"x":1}"#));
    assert_eq!(st.get_str("e").as_deref(), Some("true"));
    assert_eq!(st.get_or("zz", num(4)), num(4));
}

#[test]
fn clear_forgets_everything() {
    let mut st = Settings::new();
    st.merge_map(members(vec![("a", num(1))]));
    st.clear();
    assert!(!st.contains("a"));
    assert!(!st.is_loaded());
    assert_eq!(st.raw(), &obj(vec![]));
}

#[test]
fn monitor_state_round_trip() {
    let mut m = MonitorState::new();
    assert!(!m.enabled());
    m.configure(MonitorConfig { enabled: true, path: "/mon".to_string() });
    assert!(m.enabled());
    assert_eq!(m.path(), "/mon");
    m.reset();
    assert_eq!(m.current().path, "/__fusion/monitor");
}
