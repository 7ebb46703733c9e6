use fusion_core::cache::{display_cache_value, normalize_driver, Cache, CacheConfig, CacheSlot, MonitorConfig};
use fusion_core::json::{JsonNumber, JsonValue};
use fusion_core::settings::Settings;

fn s(x: &str) -> JsonValue {
    JsonValue::String(x.to_string())
}

fn num(n: u64) -> JsonValue {
    JsonValue::Number(JsonNumber::PosInt(n))
}

fn obj(members: Vec<(&str, JsonValue)>) -> JsonValue {
    JsonValue::Object(members.into_iter().map(|(k, v)| (k.to_string(), v)).collect())
}

fn wait_ms(ms: u128) {
    let start = std::time::Instant::now();
    while start.elapsed().as_millis() < ms {}
}

fn open_plain() -> Cache {
    Cache::open(CacheConfig { default_ttl_ms: None, ..CacheConfig::default() }).unwrap()
}

#[test]
fn moka_set_get_delete_exists() {
    let mut cache = open_plain();
    assert!(!cache.key_exists("a"));
    cache.set("a", obj(vec![("n", num(1))]), None);
    assert!(cache.key_exists("a"));
    assert_eq!(cache.get("a"), Some(obj(vec![("n", num(1))])));
    assert!(cache.delete("a"));
    assert!(!cache.key_exists("a"));
}

#[test]
fn get_or_set_and_exists_or_set() {
    let mut cache = open_plain();
    let v = cache.get_or_set("k", s("first"), None);
    assert_eq!(v, s("first"));
    let v2 = cache.get_or_set("k", s("second"), None);
    assert_eq!(v2, s("first"));
    assert!(cache.exists_or_set("k", s("third"), None));
    assert!(!cache.exists_or_set("missing", num(1), None));
    assert_eq!(cache.get("missing"), Some(num(1)));
}

#[test]
fn delete_or_set_replaces() {
    let mut cache = open_plain();
    cache.set("k", num(1), None);
    let out = cache.delete_or_set("k", num(2), None);
    assert_eq!(out, num(2));
    assert_eq!(cache.get("k"), Some(num(2)));
}

#[test]
fn ttl_expires() {
    let mut cache = open_plain();
    cache.set("t", JsonValue::Bool(true), Some(40));
    assert!(cache.key_exists("t"));
    wait_ms(60);
    assert!(!cache.key_exists("t"));
}

#[test]
fn omitted_ttl_is_infinite_when_default_ttl_is_null() {
    let mut cache = open_plain();
    cache.set("forever", num(1), None);
    wait_ms(40);
    assert!(cache.key_exists("forever"));
    assert_eq!(cache.get("forever"), Some(num(1)));
}

#[test]
fn omitted_ttl_uses_settings_default_ttl() {
    let mut cache = Cache::open(CacheConfig { default_ttl_ms: Some(40), ..CacheConfig::default() }).unwrap();
    cache.set("k", num(1), None);
    assert!(cache.key_exists("k"));
    wait_ms(60);
    assert!(!cache.key_exists("k"));
}

#[test]
fn explicit_ttl_overrides_default_ttl() {
    let mut cache = Cache::open(CacheConfig { default_ttl_ms: Some(40), ..CacheConfig::default() }).unwrap();
    cache.set("k", num(1), Some(60_000));
    wait_ms(60);
    assert!(cache.key_exists("k"));
}

#[test]
fn mako_alias_maps_to_moka() {
    let cfg = CacheConfig { driver: "mako".into(), default_ttl_ms: None, ..CacheConfig::default() };
    let cache = Cache::open(cfg).unwrap();
    assert_eq!(cache.driver(), "moka");
}

#[test]
fn clear_removes_all_keys() {
    let mut cache = open_plain();
    cache.set("a", num(1), None);
    cache.set("b", num(2), None);
    cache.clear();
    assert!(!cache.key_exists("a"));
    assert!(!cache.key_exists("b"));
}

#[test]
fn snapshot_lists_entries_and_events() {
    let mut cache = Cache::open(CacheConfig {
        default_ttl_ms: None,
        monitor_enabled: true,
        monitor_path: "/__fusion/cache".into(),
        monitor_max_events: 10,
        ..CacheConfig::default()
    })
    .unwrap();
    cache.set("a", num(1), None);
    cache.set("b", obj(vec![("x", JsonValue::Bool(true))]), None);
    let _ = cache.delete("a");
    let snap = cache.snapshot();
    assert_eq!(snap.get("driver"), Some(&s("moka")));
    assert_eq!(snap.get("entry_count"), Some(&num(1)));
    let monitor = snap.get("monitor").unwrap();
    assert_eq!(monitor.get("enabled"), Some(&JsonValue::Bool(true)));
    assert_eq!(monitor.get("path"), Some(&s("/__fusion/cache")));
    let entries = match snap.get("entries") {
        Some(JsonValue::Array(items)) => items,
        _ => panic!("entries"),
    };
    assert_eq!(entries.len(), 1);
    assert_eq!(entries[0].get("key"), Some(&s("b")));
    let events = match snap.get("events") {
        Some(JsonValue::Array(items)) => items,
        _ => panic!("events"),
    };
    assert!(events.len() >= 2);
    assert_eq!(events[0].get("op"), Some(&s("delete")));
}

#[test]
fn redis_not_implemented() {
    let result = Cache::open(CacheConfig { driver: "redis".into(), ..CacheConfig::default() });
    let err = match result {
        Ok(_) => panic!("expected redis to fail"),
        Err(e) => e,
    };
    assert!(err.contains("not implemented"));
}

#[test]
fn unknown_driver_is_named() {
    let err = match Cache::open(CacheConfig { driver: " Memcached ".into(), ..CacheConfig::default() }) {
        Ok(_) => panic!("expected failure"),
        Err(e) => e,
    };
    assert_eq!(err, "unknown cache driver \"memcached\"; supported: moka (default)");
    assert_eq!(normalize_driver(" MAKO "), "moka");
}

#[test]
fn events_keep_the_newest_up_to_the_limit() {
    let mut cache = Cache::open(CacheConfig { monitor_max_events: 2, ..CacheConfig::default() }).unwrap();
    cache.set("a", num(1), None);
    cache.set("b", num(2), None);
    cache.clear();
    let snap = cache.snapshot();
    let events = match snap.get("events") {
        Some(JsonValue::Array(items)) => items.clone(),
        _ => panic!("events"),
    };
    assert_eq!(events.len(), 2);
    assert_eq!(events[0].get("op"), Some(&s("clear")));
    assert_eq!(events[0].get("key"), Some(&JsonValue::Null));
    assert_eq!(events[1].get("key"), Some(&s("b")));
    assert_eq!(snap.get("event_count"), Some(&num(2)));
    assert_eq!(snap.get("entry_count"), Some(&num(0)));
}

#[test]
fn delete_of_a_missing_key_records_nothing() {
    let mut cache = open_plain();
    assert!(!cache.delete("nope"));
    let snap = cache.snapshot();
    assert_eq!(snap.get("event_count"), Some(&num(0)));
}

#[test]
fn panel_context_rows() {
    let mut cache = Cache::open(CacheConfig { monitor_path: "/ops/cache//".into(), ..CacheConfig::default() }).unwrap();
    cache.set("k", s("v"), None);
    cache.set("t", num(3), Some(60_000));
    let ctx = cache.panel_context();
    assert_eq!(ctx.get("title"), Some(&s("Cache Monitor")));
    assert_eq!(ctx.get("entry_badge"), Some(&s("2 keys")));
    assert_eq!(ctx.get("event_badge"), Some(&s("2 events")));
    assert_eq!(ctx.get("empty_entries"), Some(&JsonValue::Bool(false)));
    assert_eq!(ctx.get("path"), Some(&s("/ops/cache")));
    assert_eq!(ctx.get("json_path"), Some(&s("/ops/cache/json")));
    let rows = match ctx.get("entry_rows") {
        Some(JsonValue::Array(items)) => items.clone(),
        _ => panic!("rows"),
    };
    assert_eq!(rows[0], JsonValue::Array(vec![s("k"), s("\"v\""), s("∞")]));
    match &rows[1] {
        JsonValue::Array(cells) => {
            assert_eq!(cells[0], s("t"));
            assert_eq!(cells[1], s("3"));
            assert!(cells[2] == s("59") || cells[2] == s("60"));
        },
        _ => panic!("row"),
    }
    let erows = match ctx.get("event_rows") {
        Some(JsonValue::Array(items)) => items.clone(),
        _ => panic!("event rows"),
    };
    match &erows[0] {
        JsonValue::Array(cells) => {
            assert_eq!(cells[0], s("set"));
            assert_eq!(cells[1], s("t"));
        },
        _ => panic!("event row"),
    }
}

#[test]
fn long_values_are_cut_for_display() {
    let long = "x".repeat(200);
    let shown = display_cache_value(&s(&long));
    assert_eq!(shown.chars().count(), 160);
    assert!(shown.ends_with("..."));
    assert_eq!(display_cache_value(&num(12)), "12");
}

#[test]
fn config_from_settings() {
    let mut st = Settings::new();
    st.merge_map(vec![(
        "cache".to_string(),
        obj(vec![
            ("default_ttl", num(5)),
            ("driver", s("MAKO")),
            ("max_capacity", num(0)),
            ("monitor", obj(vec![("enabled", s("true")), ("max_events", num(99_999)), ("path", s(" panel "))])),
            ("port", num(6380)),
        ]),
    )]);
    let cfg = CacheConfig::from_settings(&st);
    assert_eq!(cfg.driver, "moka");
    assert_eq!(cfg.max_capacity, 1);
    assert_eq!(cfg.default_ttl_ms, Some(5000));
    assert_eq!(cfg.port, Some(6380));
    assert!(cfg.monitor_enabled);
    assert_eq!(cfg.monitor_path, "/panel");
    assert_eq!(cfg.monitor_max_events, 10_000);
    let m = MonitorConfig::from_settings(&st);
    assert_eq!(m.max_events, 10_000);
    let defaults = CacheConfig::from_settings(&Settings::new());
    assert_eq!(defaults.max_capacity, 10_000);
    assert_eq!(defaults.monitor_path, "/__fusion/cache");
    assert_eq!(defaults.default_ttl_ms, None);
}

#[test]
fn process_wide_cache() {
    let mut slot = CacheSlot::new();
    assert!(slot.ensure_configured().is_ok());
    assert_eq!(slot.driver().unwrap(), "moka");
    slot.set("g", num(1), None).unwrap();
    assert_eq!(slot.get("g").unwrap(), Some(num(1)));
    assert!(slot.key_exists("g").unwrap());
    assert!(slot.delete("g").unwrap());
    assert!(!slot.monitor_enabled().unwrap());
    assert_eq!(slot.monitor_path().unwrap(), "/__fusion/cache");
    slot.clear().unwrap();
    slot.reset_global();
    assert_eq!(slot.get("g").unwrap(), None);
}

#[test]
fn expiry_follows_clock_readings() {
    let mut cache = open_plain();
    cache.set_at("k", num(1), Some(100), 1_000);
    assert_eq!(cache.get_at("k", 1_099), Some(num(1)));
    assert_eq!(cache.get_at("k", 1_100), None);
    cache.set_at("forever", num(2), None, 5);
    assert_eq!(cache.get_at("forever", u64::MAX), Some(num(2)));
}

#[test]
fn panel_counts_what_snapshot_counts() {
    let mut cache = open_plain();
    cache.set_at("a", num(1), Some(50), 0);
    cache.set_at("b", num(2), None, 0);
    let snap = cache.snapshot_at(10);
    let panel = cache.panel_context_at(10);
    assert_eq!(snap.get("entry_count"), Some(&num(2)));
    assert_eq!(panel.get("entry_count"), snap.get("entry_count"));
    let later = cache.snapshot_at(60);
    assert_eq!(later.get("entry_count"), Some(&num(1)));
}

#[test]
fn clear_then_set_keeps_new_entry() {
    let mut cache = Cache::open(CacheConfig { default_ttl_ms: None, max_capacity: 1, ..CacheConfig::default() }).unwrap();
    cache.set("a", num(1), None);
    cache.clear();
    cache.set("c", num(3), None);
    wait_ms(5);
    assert_eq!(cache.get("c"), Some(num(3)));
    assert_eq!(cache.get("c"), Some(num(3)));
}
