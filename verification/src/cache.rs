//! Application cache with pluggable drivers.
//!
//! The default driver is moka (in-process); `redis` is reserved in settings
//! (`cache.driver = "redis"`) but not implemented. Settings live under
//! `cache.*`: `driver`, `max_capacity`, `default_ttl` (seconds; null means
//! entries never expire unless a TTL is given), connection fields, and
//! `monitor.{enabled, path, max_events}`. When `cache.monitor.enabled` is
//! false, bindings must not register the monitor routes.
//!
//! Times are milliseconds of the host clock; a TTL is a number of
//! milliseconds.

use vstd::prelude::*;

use moka::sync::Cache as MokaCache;

use crate::json::{Json, JsonValue};
use crate::strmap::{keys_unique, map_of};
use crate::pagination::sat_mul;
use crate::settings::{opt_json, setting, setting_bool, setting_str, setting_u64, Settings, SettingsView};
use crate::decimal::{decimal, format_u64};
use crate::json::{json_written, member, members_view, write_json};
use crate::order::{keyed, lemma_sorted_listing, listing, sort_by_key, sorted_keys};
use crate::text::{trim_end_char, trim_end_matches, ascii_lower_seq, ascii_lowercase, chars_eq, chars_of, to_string, trim, trim_ws};

verus! {

/// Canonical default driver name (in-process moka).
pub const DEFAULT_DRIVER: &'static str = "moka";

/// The driver a configured name stands for: trimmed, ASCII lowercase, with
/// `mako` read as `moka`.
pub open spec fn driver_named(name: Seq<char>) -> Seq<char> {
    let lower = ascii_lower_seq(trim_ws(name));
    if lower == "moka"@ || lower == "mako"@ {
        "moka"@
    } else {
        lower
    }
}

/// Normalise a driver name (`mako` is an alias of `moka`).
pub fn normalize_driver(name: &str) -> (r: String)
    ensures
        r@ == driver_named(name@),
{
    let lower = ascii_lowercase(&trim(&chars_of(name)));
    if chars_eq(&lower, &chars_of("moka")) || chars_eq(&lower, &chars_of("mako")) {
        DEFAULT_DRIVER.to_string()
    } else {
        to_string(&lower)
    }
}

/// The mathematical cache configuration.
pub struct CacheConfigView {
    pub driver: Seq<char>,
    pub max_capacity: u64,
    pub default_ttl_ms: Option<u64>,
    pub connection_string: Option<Seq<char>>,
    pub host: Option<Seq<char>>,
    pub port: Option<u16>,
    pub username: Option<Seq<char>>,
    pub password: Option<Seq<char>>,
    pub db: Option<u64>,
    pub monitor_enabled: bool,
    pub monitor_path: Seq<char>,
    pub monitor_max_events: usize,
}

/// Cache configuration parsed from settings.
#[derive(Debug)]
pub struct CacheConfig {
    pub driver: String,
    pub max_capacity: u64,
    /// Expiry for entries stored without a TTL, in milliseconds; `None` keeps them.
    pub default_ttl_ms: Option<u64>,
    pub connection_string: Option<String>,
    pub host: Option<String>,
    pub port: Option<u16>,
    pub username: Option<String>,
    pub password: Option<String>,
    pub db: Option<u64>,
    /// Built-in cache monitor panel (HTML + JSON). Off = no routes mounted.
    pub monitor_enabled: bool,
    /// URL path for the monitor UI (JSON at `{path}/json`).
    pub monitor_path: String,
    /// Ring-buffer size for recent set/delete/clear events.
    pub monitor_max_events: usize,
}

/// The text of an optional string.
pub open spec fn opt_text(o: Option<String>) -> Option<Seq<char>> {
    match o {
        Some(s) => Some(s@),
        None => None,
    }
}

impl CacheConfig {
    /// The mathematical configuration.
    pub open spec fn view(&self) -> CacheConfigView {
        CacheConfigView {
            driver: self.driver@,
            max_capacity: self.max_capacity,
            default_ttl_ms: self.default_ttl_ms,
            connection_string: opt_text(self.connection_string),
            host: opt_text(self.host),
            port: self.port,
            username: opt_text(self.username),
            password: opt_text(self.password),
            db: self.db,
            monitor_enabled: self.monitor_enabled,
            monitor_path: self.monitor_path@,
            monitor_max_events: self.monitor_max_events,
        }
    }
}

/// The default configuration.
pub open spec fn default_config() -> CacheConfigView {
    CacheConfigView {
        driver: "moka"@,
        max_capacity: 10_000,
        default_ttl_ms: None,
        connection_string: None,
        host: None,
        port: None,
        username: None,
        password: None,
        db: None,
        monitor_enabled: false,
        monitor_path: "/__fusion/cache"@,
        monitor_max_events: 50,
    }
}

impl Default for CacheConfig {
    fn default() -> (c: Self)
        ensures
            c@ == default_config(),
    {
        CacheConfig {
            driver: DEFAULT_DRIVER.to_string(),
            max_capacity: 10_000,
            default_ttl_ms: None,
            connection_string: None,
            host: None,
            port: None,
            username: None,
            password: None,
            db: None,
            monitor_enabled: false,
            monitor_path: "/__fusion/cache".to_string(),
            monitor_max_events: 50,
        }
    }
}

/// The monitor path a configured path gives: trimmed, with a leading `/`;
/// a blank path keeps the default.
pub open spec fn monitor_path_from(p: Option<Seq<char>>) -> Seq<char> {
    match p {
        Some(raw) => {
            let t = trim_ws(raw);
            if t.len() == 0 {
                "/__fusion/cache"@
            } else if t[0] == '/' {
                t
            } else {
                seq!['/'] + t
            }
        },
        None => "/__fusion/cache"@,
    }
}

/// `n` held to `1..=10_000`.
pub open spec fn clamp_events(n: usize) -> usize {
    if n < 1 {
        1
    } else if n > 10_000 {
        10_000
    } else {
        n
    }
}

/// The configuration that settings `v` give (`cache.*` keys).
pub open spec fn config_from(v: SettingsView) -> CacheConfigView {
    CacheConfigView {
        driver: match setting_str(v, "cache.driver"@) {
            Some(d) => driver_named(d),
            None => "moka"@,
        },
        max_capacity: match setting_u64(v, "cache.max_capacity"@) {
            Some(c) => if c < 1 {
                1
            } else {
                c
            },
            None => 10_000,
        },
        default_ttl_ms: match setting(v, "cache.default_ttl"@) {
            Some(Json::PosInt(n)) => Some(sat_mul(n, 1000)),
            _ => None,
        },
        connection_string: setting_str(v, "cache.connection_string"@),
        host: setting_str(v, "cache.host"@),
        port: match setting_u64(v, "cache.port"@) {
            Some(p) => Some(p as u16),
            None => None,
        },
        username: setting_str(v, "cache.username"@),
        password: setting_str(v, "cache.password"@),
        db: setting_u64(v, "cache.db"@),
        monitor_enabled: match setting_bool(v, "cache.monitor.enabled"@) {
            Some(b) => b,
            None => false,
        },
        monitor_path: monitor_path_from(setting_str(v, "cache.monitor.path"@)),
        monitor_max_events: match setting_u64(v, "cache.monitor.max_events"@) {
            Some(n) => clamp_events(n as usize),
            None => 50,
        },
    }
}

impl CacheConfig {
    /// Build config from Fusion settings (`cache.*` keys).
    pub fn from_settings(settings: &Settings) -> (c: CacheConfig)
        ensures
            c@ == config_from(settings@),
    {
        let mut cfg = CacheConfig::default();
        if let Some(driver) = settings.get_str("cache.driver") {
            cfg.driver = normalize_driver(driver.as_str());
        }
        if let Some(cap) = settings.get_u64("cache.max_capacity") {
            cfg.max_capacity = if cap < 1 {
                1
            } else {
                cap
            };
        }
        cfg.default_ttl_ms = match settings.get("cache.default_ttl") {
            Some(JsonValue::Number(crate::json::JsonNumber::PosInt(n))) => Some(
                match n.checked_mul(1000) {
                    Some(ms) => ms,
                    None => u64::MAX,
                },
            ),
            _ => None,
        };
        cfg.connection_string = settings.get_str("cache.connection_string");
        cfg.host = settings.get_str("cache.host");
        cfg.port = match settings.get_u64("cache.port") {
            Some(p) => Some(p as u16),
            None => None,
        };
        cfg.username = settings.get_str("cache.username");
        cfg.password = settings.get_str("cache.password");
        cfg.db = settings.get_u64("cache.db");
        cfg.monitor_enabled = match settings.get_bool("cache.monitor.enabled") {
            Some(b) => b,
            None => false,
        };
        if let Some(path) = settings.get_str("cache.monitor.path") {
            let t = trim(&chars_of(path.as_str()));
            if t.len() > 0 {
                cfg.monitor_path = if t[0] == '/' {
                    to_string(&t)
                } else {
                    let mut v: Vec<char> = Vec::new();
                    v.push('/');
                    crate::text::extend(&mut v, &t);
                    assert(v@ =~= seq!['/'] + t@);
                    to_string(&v)
                };
            }
        }
        if let Some(n) = settings.get_u64("cache.monitor.max_events") {
            let m = n as usize;
            cfg.monitor_max_events = if m < 1 {
                1
            } else if m > 10_000 {
                10_000
            } else {
                m
            };
        }
        cfg
    }
}

/// Monitor panel settings derived from `cache.monitor.*`.
pub struct MonitorConfig {
    pub enabled: bool,
    pub path: String,
    pub max_events: usize,
}

impl MonitorConfig {
    /// Read monitor settings (does not open a cache).
    pub fn from_settings(settings: &Settings) -> (c: MonitorConfig)
        ensures
            c.enabled == config_from(settings@).monitor_enabled,
            c.path@ == config_from(settings@).monitor_path,
            c.max_events == config_from(settings@).monitor_max_events,
    {
        let cfg = CacheConfig::from_settings(settings);
        MonitorConfig { enabled: cfg.monitor_enabled, path: cfg.monitor_path, max_events: cfg.monitor_max_events }
    }
}

// ─── The store ──────────────────────────────────────────────────────────────

/// A stored value and the time it expires at, if it does.
#[derive(Debug)]
pub struct CacheEntry {
    pub value: JsonValue,
    /// When the entry expires, in milliseconds on the cache's monotonic clock.
    pub expires_at_ms: Option<u64>,
}

impl CacheEntry {
    /// The value and its expiry.
    pub open spec fn view(&self) -> (Json, Option<u64>) {
        (self.value@, self.expires_at_ms)
    }
}

impl Clone for CacheEntry {
    fn clone(&self) -> (r: Self)
        ensures
            r@ == self@,
    {
        CacheEntry { value: self.value.clone(), expires_at_ms: self.expires_at_ms }
    }
}

#[verifier::external_type_specification]
#[verifier::external_body]
#[verifier::reject_recursive_types(K)]
#[verifier::reject_recursive_types(V)]
#[verifier::reject_recursive_types(S)]
pub struct ExMokaCache<K, V, S>(MokaCache<K, V, S>);

/// What a moka cache holds: for each key, the stored value and expiry that
/// a lookup of that key returns.
pub uninterp spec fn moka_contents(c: MokaCache<String, CacheEntry>) -> Map<Seq<char>, (Json, Option<u64>)>;

/// The capacity (in entries) that a moka cache was made with.
pub uninterp spec fn moka_capacity(c: MokaCache<String, CacheEntry>) -> u64;

/// The keys a moka cache holds in its table and counts against its
/// capacity: every key a lookup finds, and any entry that `invalidate_all`
/// marked but maintenance has not purged yet.
pub uninterp spec fn moka_table(c: MokaCache<String, CacheEntry>) -> Set<Seq<char>>;

/// The most keys the cache's table has held at one time since it was made.
/// While it stays within the capacity, moka's count never exceeds the
/// capacity, so admission never rejects and eviction never runs.
pub uninterp spec fn moka_peak(c: MokaCache<String, CacheEntry>) -> nat;

/// The larger of `peak` and the size of `table` with `k` added.
pub open spec fn peak_after(peak: nat, table: Set<Seq<char>>, k: Seq<char>) -> nat {
    if peak >= table.insert(k).len() {
        peak
    } else {
        table.insert(k).len()
    }
}

/// Room for a key stays when the table only shrank.
pub proof fn lemma_room_kept(b: CacheView, m: CacheView, k: Seq<char>)
    requires
        m.table.subset_of(b.table),
        b.table.finite(),
        m.peak == b.peak,
    ensures
        peak_after(m.peak, m.table, k) <= peak_after(b.peak, b.table, k),
{
    vstd::set_lib::lemma_len_subset(m.table.insert(k), b.table.insert(k));
}

/// A store holding nothing.
pub open spec fn empty_store() -> Map<Seq<char>, (Json, Option<u64>)> {
    Map::empty()
}

/// `MokaCache::new`: an empty cache bounded by `max_capacity` entries.
#[verifier::external_body]
fn moka_new(max_capacity: u64) -> (c: MokaCache<String, CacheEntry>)
    ensures
        moka_contents(c) == empty_store(),
        moka_table(c) == Set::<Seq<char>>::empty(),
        moka_peak(c) == 0,
        moka_capacity(c) == max_capacity,
{
    MokaCache::new(max_capacity)
}

/// `Cache::insert`: stores `entry` under `key`, replacing an earlier value;
/// the key joins the table at once. Moka rejects or evicts entries only when
/// its count exceeds the capacity, so what the cache holds afterwards is part
/// of what it held with `key` set to `entry`, and exactly that while the
/// table's peak stays within the capacity.
#[verifier::external_body]
fn moka_insert(c: &mut MokaCache<String, CacheEntry>, key: String, entry: CacheEntry)
    ensures
        moka_contents(*final(c)).submap_of(moka_contents(*old(c)).insert(key@, entry@)),
        moka_table(*final(c)).subset_of(moka_table(*old(c)).insert(key@)),
        moka_table(*final(c)).finite(),
        moka_contents(*final(c)).dom().subset_of(moka_table(*final(c))),
        moka_peak(*final(c)) <= peak_after(moka_peak(*old(c)), moka_table(*old(c)), key@),
        moka_peak(*final(c)) <= moka_capacity(*old(c)) ==> moka_contents(*final(c)) == moka_contents(*old(c)).insert(
            key@,
            entry@,
        ),
        moka_capacity(*final(c)) == moka_capacity(*old(c)),
{
    c.insert(key, entry)
}

/// `Cache::get`: a clone of the value stored under `key`, if any. The
/// maintenance that runs afterwards may purge or evict entries, but evicts
/// none while the table's peak is within the capacity.
#[verifier::external_body]
fn moka_get(c: &mut MokaCache<String, CacheEntry>, key: &str) -> (r: Option<CacheEntry>)
    ensures
        match r {
            Some(e) => moka_contents(*old(c)).contains_key(key@) && moka_contents(*old(c))[key@] == e@,
            None => !moka_contents(*old(c)).contains_key(key@),
        },
        moka_contents(*final(c)).submap_of(moka_contents(*old(c))),
        moka_table(*final(c)).subset_of(moka_table(*old(c))),
        moka_table(*final(c)).finite(),
        moka_contents(*final(c)).dom().subset_of(moka_table(*final(c))),
        moka_peak(*final(c)) == moka_peak(*old(c)),
        moka_peak(*old(c)) <= moka_capacity(*old(c)) ==> moka_contents(*final(c)) == moka_contents(*old(c)),
        moka_capacity(*final(c)) == moka_capacity(*old(c)),
{
    c.get(key)
}

/// `Cache::contains_key`: whether a value is stored under `key` (not a read:
/// it changes nothing).
#[verifier::external_body]
fn moka_contains(c: &MokaCache<String, CacheEntry>, key: &str) -> (b: bool)
    ensures
        b == moka_contents(*c).contains_key(key@),
{
    c.contains_key(key)
}

/// `Cache::invalidate`: takes `key` out of the table at once and discards
/// its value; other entries are dropped only by maintenance, and none are
/// evicted while the table's peak is within the capacity.
#[verifier::external_body]
fn moka_invalidate(c: &mut MokaCache<String, CacheEntry>, key: &str)
    ensures
        moka_contents(*final(c)).submap_of(moka_contents(*old(c)).remove(key@)),
        moka_table(*final(c)).subset_of(moka_table(*old(c)).remove(key@)),
        moka_table(*final(c)).finite(),
        moka_contents(*final(c)).dom().subset_of(moka_table(*final(c))),
        moka_peak(*final(c)) == moka_peak(*old(c)),
        moka_peak(*old(c)) <= moka_capacity(*old(c)) ==> moka_contents(*final(c)) == moka_contents(*old(c)).remove(
            key@,
        ),
        moka_capacity(*final(c)) == moka_capacity(*old(c)),
{
    c.invalidate(key)
}

/// The stored pairs of a map of entries.
pub open spec fn entries_map(ps: Seq<(String, CacheEntry)>) -> Map<Seq<char>, (Json, Option<u64>)> {
    map_of(ps).map_values(|e: CacheEntry| e@)
}

/// `Cache::iter`, collected: every stored pair once, in no set order.
#[verifier::external_body]
fn moka_entries(c: &MokaCache<String, CacheEntry>) -> (r: Vec<(String, CacheEntry)>)
    ensures
        keys_unique(r@),
        entries_map(r@) == moka_contents(*c),
{
    c.iter().map(|(k, v)| ((*k).clone(), v)).collect()
}

/// Milliseconds since the Unix epoch by the host clock (0 if the clock is
/// before the epoch).
#[verifier::external_body]
pub fn now_unix_ms() -> u64 {
    std::time::SystemTime::now().duration_since(std::time::UNIX_EPOCH).map(|d| d.as_millis() as u64).unwrap_or(0)
}

#[verifier::external_type_specification]
#[verifier::external_body]
pub struct ExInstant(std::time::Instant);

/// `Instant::now`: the current reading of the monotonic clock.
#[verifier::external_body]
fn instant_now() -> std::time::Instant {
    std::time::Instant::now()
}

/// `Instant::elapsed` in whole milliseconds (saturating at `u64::MAX`): the
/// time passed on the monotonic clock since `since`.
#[verifier::external_body]
fn elapsed_ms(since: &std::time::Instant) -> u64 {
    u64::try_from(since.elapsed().as_millis()).unwrap_or(u64::MAX)
}

// ─── The cache ──────────────────────────────────────────────────────────────

/// A recent `set`, `delete` or `clear`, for the monitor panel.
#[derive(Debug)]
pub struct CacheEvent {
    pub op: String,
    pub key: Option<String>,
    pub at_ms: u64,
}

/// An event as text: operation, key, time.
pub type EventView = (Seq<char>, Option<Seq<char>>, u64);

impl CacheEvent {
    pub open spec fn view(&self) -> EventView {
        (self.op@, opt_text(self.key), self.at_ms)
    }
}

/// The mathematical cache.
pub struct CacheView {
    /// What the store holds: value and expiry time per key.
    pub contents: Map<Seq<char>, (Json, Option<u64>)>,
    pub default_ttl_ms: Option<u64>,
    pub driver: Seq<char>,
    /// Recent events, newest first.
    pub events: Seq<EventView>,
    pub max_events: usize,
    pub monitor_enabled: bool,
    pub monitor_path: Seq<char>,
    /// The number of entries the store holds before it evicts.
    pub capacity: u64,
    /// The keys the store counts against its capacity.
    pub table: Set<Seq<char>>,
    /// The most keys the store has counted at one time.
    pub peak: nat,
}

/// The store has never counted more keys than its capacity: it has evicted
/// nothing, and evicts nothing on a read or a delete.
pub open spec fn never_full(v: CacheView) -> bool {
    v.peak <= v.capacity
}

/// Storing `k` keeps the store within its capacity: the write is kept
/// exactly, with nothing evicted.
pub open spec fn room_for(v: CacheView, k: Seq<char>) -> bool {
    v.table.finite() && peak_after(v.peak, v.table, k) <= v.capacity
}

/// `events` after recording `e`: newest first, at most `max` kept.
pub open spec fn pushed(events: Seq<EventView>, e: EventView, max: usize) -> Seq<EventView> {
    let s = seq![e] + events;
    if s.len() > max {
        s.take(max as int)
    } else {
        s
    }
}

/// The cache after recording the event `e`.
pub open spec fn after_event(v: CacheView, e: EventView) -> CacheView {
    CacheView { events: pushed(v.events, e, v.max_events), ..v }
}

/// The text of an optional `&str`.
pub open spec fn opt_str(o: Option<&str>) -> Option<Seq<char>> {
    match o {
        Some(s) => Some(s@),
        None => None,
    }
}

/// The expiry of an entry stored at `now` (milliseconds on the cache's
/// monotonic clock) with `ttl` (or else the default TTL).
pub open spec fn expiry(ttl: Option<u64>, default_ttl: Option<u64>, now: u64) -> Option<u64> {
    match (if ttl is Some {
        ttl
    } else {
        default_ttl
    }) {
        Some(d) => Some(crate::pagination::sat_add(now, d)),
        None => None,
    }
}

/// An entry has not expired at `now`.
pub open spec fn alive(e: (Json, Option<u64>), now: u64) -> bool {
    match e.1 {
        None => true,
        Some(at) => now < at,
    }
}

/// What a lookup of `k` gives at `now`: the stored value, unless expired.
pub open spec fn lookup(m: Map<Seq<char>, (Json, Option<u64>)>, k: Seq<char>, now: u64) -> Option<Json> {
    if m.contains_key(k) && alive(m[k], now) {
        Some(m[k].0)
    } else {
        None
    }
}

/// The error `Cache::open` reports for an unusable driver name.
pub open spec fn open_error(driver: Seq<char>) -> Seq<char> {
    if driver == "redis"@ {
        "cache driver \"redis\" is not implemented yet; use \"moka\""@
    } else {
        "unknown cache driver \""@ + driver + "\"; supported: moka (default)"@
    }
}

/// Recent events, newest first, at most a fixed number of them.
pub struct EventLog {
    events: Vec<CacheEvent>,
    max_events: usize,
}

impl EventLog {
    #[verifier::type_invariant]
    closed spec fn bounded(&self) -> bool {
        1 <= self.max_events && self.events@.len() <= self.max_events
    }

    /// The events, newest first.
    pub closed spec fn events(&self) -> Seq<EventView> {
        self.events@.map_values(|e: CacheEvent| e@)
    }

    /// How many events are kept.
    pub closed spec fn max(&self) -> usize {
        self.max_events
    }

    /// An empty log keeping up to `max_events` events (at least one).
    pub fn new(max_events: usize) -> (l: EventLog)
        ensures
            l.events() == Seq::<EventView>::empty(),
            l.max() == (if max_events < 1 {
                1
            } else {
                max_events
            }),
    {
        let l = EventLog {
            events: Vec::new(),
            max_events: if max_events < 1 {
                1
            } else {
                max_events
            },
        };
        assert(l.events() =~= Seq::<EventView>::empty());
        l
    }

    /// Records `ev` as the newest event, dropping the oldest beyond the limit.
    pub fn push(&mut self, ev: CacheEvent)
        ensures
            final(self).events() == pushed(old(self).events(), ev@, old(self).max()),
            final(self).max() == old(self).max(),
            final(self).events().len() <= final(self).max(),
    {
        proof {
            use_type_invariant(&*self);
        }
        let ghost ev_view = ev@;
        let ghost before = self.events();
        let mut events: Vec<CacheEvent> = Vec::new();
        std::mem::swap(&mut events, &mut self.events);
        events.insert(0, ev);
        if events.len() > self.max_events {
            events.truncate(self.max_events);
        }
        assert(events@.map_values(|e: CacheEvent| e@) =~= pushed(before, ev_view, self.max_events));
        self.events = events;
    }

    /// The events, newest first.
    pub fn entries(&self) -> (r: &Vec<CacheEvent>)
        ensures
            r@.map_values(|e: CacheEvent| e@) == self.events(),
    {
        &self.events
    }
}

/// `set`: the store keeps part of the store with `k` set to `v`, expiring
/// by `ttl` (or the default TTL) from `now`, and all of it when there is room
/// for `k`; a `set` event is recorded at `at`.
pub open spec fn set_post(b: CacheView, a: CacheView, k: Seq<char>, v: Json, ttl: Option<u64>, now: u64, at: u64) -> bool {
    let stored = b.contents.insert(k, (v, expiry(ttl, b.default_ttl_ms, now)));
    &&& a.contents.submap_of(stored)
    &&& a.table.subset_of(b.table.insert(k))
    &&& a.table.finite()
    &&& b.table.finite() ==> a.peak <= peak_after(b.peak, b.table, k)
    &&& room_for(b, k) ==> a.contents == stored
    &&& a == CacheView { contents: a.contents, table: a.table, peak: a.peak, ..after_event(b, ("set"@, Some(k), at)) }
}

/// The store after reading `k` at `now`: an expired entry of `k` is dropped.
pub open spec fn read_kept(m: Map<Seq<char>, (Json, Option<u64>)>, k: Seq<char>, now: u64) -> Map<
    Seq<char>,
    (Json, Option<u64>),
> {
    if m.contains_key(k) && !alive(m[k], now) {
        m.remove(k)
    } else {
        m
    }
}

/// `get`: the value stored under `k` unless it expired at `now`; the store
/// keeps part of what it held (all of it but an expired `k` while it has
/// never been full), nothing else changes.
pub open spec fn get_post(b: CacheView, a: CacheView, k: Seq<char>, r: Option<Json>, now: u64) -> bool {
    &&& r == lookup(b.contents, k, now)
    &&& a.contents.submap_of(b.contents)
    &&& never_full(b) ==> a.contents == read_kept(b.contents, k, now)
    &&& a.table.subset_of(b.table)
    &&& a.table.finite()
    &&& a == CacheView { contents: a.contents, table: a.table, ..b }
}

/// `delete`: whether `k` was stored (expired or not); the store keeps part
/// of what it held without `k`; a `delete` event is recorded at `at` when
/// `k` was stored.
pub open spec fn delete_post(b: CacheView, a: CacheView, k: Seq<char>, r: bool, at: u64) -> bool {
    &&& r == b.contents.contains_key(k)
    &&& a.contents.submap_of(b.contents.remove(k))
    &&& never_full(b) ==> a.contents == b.contents.remove(k)
    &&& a.table.subset_of(b.table)
    &&& a.table.finite()
    &&& a == CacheView {
        contents: a.contents,
        table: a.table,
        ..(if r {
            after_event(b, ("delete"@, Some(k), at))
        } else {
            b
        })
    }
}

/// `clear`: nothing is stored; a `clear` event is recorded at `at`.
pub open spec fn clear_post(b: CacheView, a: CacheView, at: u64) -> bool {
    &&& a.table.subset_of(b.table)
    &&& a == CacheView { contents: empty_store(), table: a.table, ..after_event(b, ("clear"@, None, at)) }
}

/// `get_or_set`: the live value of `k` at `now1`, with nothing but dropping
/// changed; else `d` stored (expiring from `now2`, recorded at `at`) and returned.
pub open spec fn get_or_set_post(
    b: CacheView,
    a: CacheView,
    k: Seq<char>,
    d: Json,
    ttl: Option<u64>,
    r: Json,
    now1: u64,
    now2: u64,
    at: u64,
) -> bool {
    match lookup(b.contents, k, now1) {
        Some(x) => r == x && a.contents.submap_of(b.contents) && (never_full(b) ==> a.contents == b.contents)
            && a.table.subset_of(b.table) && a.table.finite() && a == CacheView { contents: a.contents, table: a.table, ..b },
        None => r == d && set_post(b, a, k, d, ttl, now2, at),
    }
}

/// `exists_or_set`: `true` with nothing but dropping changed when `k` is
/// live at `now1`; else `v` is stored (expiring from `now2`, recorded at
/// `at`) and the result is `false`.
pub open spec fn exists_or_set_post(
    b: CacheView,
    a: CacheView,
    k: Seq<char>,
    v: Json,
    ttl: Option<u64>,
    r: bool,
    now1: u64,
    now2: u64,
    at: u64,
) -> bool {
    if lookup(b.contents, k, now1) is Some {
        r && a.contents.submap_of(b.contents) && (never_full(b) ==> a.contents == b.contents) && a.table.subset_of(
            b.table,
        ) && a.table.finite() && a == CacheView { contents: a.contents, table: a.table, ..b }
    } else {
        !r && set_post(b, a, k, v, ttl, now2, at)
    }
}

/// The cache once `k` is deleted (recording at `at` when it was stored).
pub open spec fn deleted(b: CacheView, k: Seq<char>, at: u64) -> CacheView {
    CacheView {
        contents: b.contents.remove(k),
        ..(if b.contents.contains_key(k) {
            after_event(b, ("delete"@, Some(k), at))
        } else {
            b
        })
    }
}

// ─── Monitor views ──────────────────────────────────────────────────────────

/// `m` with the entries of the keys in `done` that are expired at `now` dropped.
pub open spec fn pruned(m: Map<Seq<char>, (Json, Option<u64>)>, done: Set<Seq<char>>, now: u64) -> Map<
    Seq<char>,
    (Json, Option<u64>),
> {
    Map::new(|k: Seq<char>| m.contains_key(k) && (alive(m[k], now) || !done.contains(k)), |k: Seq<char>| m[k])
}

/// The entries of `m` that are live at `now`.
pub open spec fn alive_part(m: Map<Seq<char>, (Json, Option<u64>)>, now: u64) -> Map<Seq<char>, (Json, Option<u64>)> {
    Map::new(|k: Seq<char>| m.contains_key(k) && alive(m[k], now), |k: Seq<char>| m[k])
}

/// Whole seconds left before an entry expires (none for one that never does).
pub open spec fn ttl_json(exp: Option<u64>, now: u64) -> Json {
    match exp {
        None => Json::Null,
        Some(at) => Json::PosInt(if at > now {
            ((at - now) / 1000) as u64
        } else {
            0
        }),
    }
}

/// A live entry in the monitor snapshot.
pub open spec fn entry_json(p: (Seq<char>, (Json, Option<u64>)), now: u64) -> Json {
    Json::Obj(seq![("key"@, Json::Str(p.0)), ("ttl_remaining_secs"@, ttl_json(p.1.1, now)), ("value"@, p.1.0)])
}

/// An event in the monitor snapshot.
pub open spec fn event_json(e: EventView) -> Json {
    Json::Obj(
        seq![
            ("at_ms"@, Json::PosInt(e.2)),
            ("key"@, match e.1 {
                Some(k) => Json::Str(k),
                None => Json::Null,
            }),
            ("op"@, Json::Str(e.0)),
        ],
    )
}

/// The monitor snapshot: driver, live entries in key order with their
/// counts, recent events newest first, and the monitor settings.
pub open spec fn snapshot_json(
    driver: Seq<char>,
    entries: Seq<(Seq<char>, (Json, Option<u64>))>,
    events: Seq<EventView>,
    enabled: bool,
    path: Seq<char>,
    now: u64,
) -> Json {
    Json::Obj(
        seq![
            ("driver"@, Json::Str(driver)),
            ("entries"@, Json::Arr(entries.map_values(|p: (Seq<char>, (Json, Option<u64>))| entry_json(p, now)))),
            ("entry_count"@, Json::PosInt(entries.len() as u64)),
            ("event_count"@, Json::PosInt(events.len() as u64)),
            ("events"@, Json::Arr(events.map_values(|e: EventView| event_json(e)))),
            ("monitor"@, Json::Obj(seq![("enabled"@, Json::Bool(enabled)), ("path"@, Json::Str(path))])),
        ],
    )
}

/// A value as the panel shows it: its JSON text, cut to 157 characters and
/// `...` when longer than 160.
pub open spec fn shown_value(v: Json) -> Seq<char> {
    let raw = json_written(v);
    if raw.len() > 160 {
        raw.take(157) + "..."@
    } else {
        raw
    }
}

/// The TTL column: seconds left, or `∞`.
pub open spec fn ttl_text(exp: Option<u64>, now: u64) -> Seq<char> {
    match ttl_json(exp, now) {
        Json::PosInt(n) => decimal(n as nat),
        _ => "∞"@,
    }
}

/// A JSON array of strings.
pub open spec fn str_array(ss: Seq<Seq<char>>) -> Json {
    Json::Arr(ss.map_values(|x: Seq<char>| Json::Str(x)))
}

/// A row of the entries table: key, shown value, TTL.
pub open spec fn entry_row(p: (Seq<char>, (Json, Option<u64>)), now: u64) -> Json {
    str_array(seq![p.0, shown_value(p.1.0), ttl_text(p.1.1, now)])
}

/// The key column of an event: the key, or `—` for none.
pub open spec fn event_key_text(k: Option<Seq<char>>) -> Seq<char> {
    match k {
        Some(k) => k,
        None => "—"@,
    }
}

/// A row of the events table: operation, key, time.
pub open spec fn event_row(e: EventView) -> Json {
    str_array(seq![e.0, event_key_text(e.1), decimal(e.2 as nat)])
}

/// The panel's path: the monitor path without trailing `/`, or the default.
pub open spec fn panel_path(p: Seq<char>) -> Seq<char> {
    let t = trim_end_char(p, '/');
    if t.len() == 0 {
        "/__fusion/cache"@
    } else {
        t
    }
}

/// The template context of the cache monitor panel.
pub open spec fn panel_json(
    driver: Seq<char>,
    entries: Seq<(Seq<char>, (Json, Option<u64>))>,
    events: Seq<EventView>,
    path: Seq<char>,
    now: u64,
) -> Json {
    let n = entries.len();
    let m = events.len();
    let pp = panel_path(path);
    Json::Obj(
        seq![
            ("driver"@, Json::Str(driver)),
            ("driver_label"@, Json::Str(driver)),
            ("empty_entries"@, Json::Bool(n == 0)),
            ("empty_events"@, Json::Bool(m == 0)),
            ("entry_badge"@, Json::Str(decimal(n) + " keys"@)),
            ("entry_count"@, Json::PosInt(n as u64)),
            ("entry_headers"@, str_array(seq!["Key"@, "Value"@, "TTL (s)"@])),
            ("entry_rows"@, Json::Arr(entries.map_values(|p: (Seq<char>, (Json, Option<u64>))| entry_row(p, now)))),
            ("event_badge"@, Json::Str(decimal(m) + " events"@)),
            ("event_count"@, Json::PosInt(m as u64)),
            ("event_headers"@, str_array(seq!["Op"@, "Key"@, "Time (ms)"@])),
            ("event_rows"@, Json::Arr(events.map_values(|e: EventView| event_row(e)))),
            ("json_path"@, Json::Str(pp + "/json"@)),
            ("path"@, Json::Str(pp)),
            ("title"@, Json::Str("Cache Monitor"@)),
        ],
    )
}

/// Shared cache handle used by all language bindings.
pub struct Cache {
    store: MokaCache<String, CacheEntry>,
    default_ttl_ms: Option<u64>,
    driver: String,
    log: EventLog,
    monitor_enabled: bool,
    monitor_path: String,
    /// The monotonic clock reading that entry expiry times count from.
    clock_start: std::time::Instant,
}

impl Cache {
    /// The mathematical cache.
    pub closed spec fn view(&self) -> CacheView {
        CacheView {
            contents: moka_contents(self.store),
            default_ttl_ms: self.default_ttl_ms,
            driver: self.driver@,
            events: self.log.events(),
            max_events: self.log.max(),
            monitor_enabled: self.monitor_enabled,
            monitor_path: self.monitor_path@,
            capacity: moka_capacity(self.store),
            table: moka_table(self.store),
            peak: moka_peak(self.store),
        }
    }

    /// Create a cache for the given config (errors on unknown/unsupported drivers).
    pub fn open(config: CacheConfig) -> (r: Result<Cache, String>)
        ensures
            match r {
                Ok(c) => driver_named(config@.driver) == "moka"@ && c@ == (CacheView {
                    contents: empty_store(),
                    default_ttl_ms: config@.default_ttl_ms,
                    driver: "moka"@,
                    events: Seq::empty(),
                    max_events: if config@.monitor_max_events < 1 {
                        1
                    } else {
                        config@.monitor_max_events
                    },
                    monitor_enabled: config@.monitor_enabled,
                    monitor_path: config@.monitor_path,
                    capacity: config@.max_capacity,
                    table: Set::empty(),
                    peak: 0,
                }),
                Err(m) => driver_named(config@.driver) != "moka"@ && m@ == open_error(driver_named(config@.driver)),
            },
    {
        let driver = normalize_driver(config.driver.as_str());
        let dc = chars_of(driver.as_str());
        if !chars_eq(&dc, &chars_of("moka")) {
            if chars_eq(&dc, &chars_of("redis")) {
                return Err("cache driver \"redis\" is not implemented yet; use \"moka\"".to_string());
            }
            let mut m = chars_of("unknown cache driver \"");
            crate::text::extend(&mut m, &dc);
            crate::text::extend(&mut m, &chars_of("\"; supported: moka (default)"));
            assert(m@ =~= open_error(dc@));
            return Err(to_string(&m));
        }
        let c = Cache {
            store: moka_new(config.max_capacity),
            default_ttl_ms: config.default_ttl_ms,
            driver,
            log: EventLog::new(config.monitor_max_events),
            monitor_enabled: config.monitor_enabled,
            monitor_path: config.monitor_path,
            clock_start: instant_now(),
        };
        Ok(c)
    }

    fn record(&mut self, op: &str, key: Option<&str>)
        ensures
            exists|at: u64| final(self)@ == #[trigger] after_event(old(self)@, (op@, opt_str(key), at)),
    {
        let ghost start = self@;
        let at = now_unix_ms();
        let ev = CacheEvent {
            op: op.to_string(),
            key: match key {
                Some(k) => Some(k.to_string()),
                None => None,
            },
            at_ms: at,
        };
        self.log.push(ev);
        assert(self@ =~= after_event(start, (op@, opt_str(key), at)));
    }
}

impl Cache {
    /// Driver name currently in use (`moka`).
    pub fn driver(&self) -> (r: &str)
        ensures
            r@ == self@.driver,
    {
        self.driver.as_str()
    }

    /// Whether the built-in monitor should be mounted for this cache.
    pub fn monitor_enabled(&self) -> (b: bool)
        ensures
            b == self@.monitor_enabled,
    {
        self.monitor_enabled
    }

    /// Monitor UI path (JSON lives at `{path}/json`).
    pub fn monitor_path(&self) -> (r: &str)
        ensures
            r@ == self@.monitor_path,
    {
        self.monitor_path.as_str()
    }

    /// Store a JSON value under `key`; `ttl_ms` of `None` uses the default
    /// TTL, and with no default the entry never expires.
    pub fn set(&mut self, key: &str, value: JsonValue, ttl_ms: Option<u64>)
        ensures
            exists|now: u64, at: u64| #[trigger] set_post(old(self)@, final(self)@, key@, value@, ttl_ms, now, at),
    {
        let now = elapsed_ms(&self.clock_start);
        self.set_at(key, value, ttl_ms, now);
    }

    /// `set` with the clock reading `now` (milliseconds on the cache's
    /// monotonic clock) that the entry's expiry counts from.
    pub fn set_at(&mut self, key: &str, value: JsonValue, ttl_ms: Option<u64>, now: u64)
        ensures
            exists|at: u64| #[trigger] set_post(old(self)@, final(self)@, key@, value@, ttl_ms, now, at),
    {
        let ghost start = self@;
        let ghost v = value@;
        let ttl = match ttl_ms {
            Some(t) => Some(t),
            None => self.default_ttl_ms,
        };
        let expires_at_ms = match ttl {
            Some(d) => Some(
                match now.checked_add(d) {
                    Some(t) => t,
                    None => u64::MAX,
                },
            ),
            None => None,
        };
        moka_insert(&mut self.store, key.to_string(), CacheEntry { value, expires_at_ms });
        let ghost mid = self@;
        self.record("set", Some(key));
        proof {
            let at = choose|at: u64| self@ == #[trigger] after_event(mid, ("set"@, opt_str(Some(key)), at));
            assert(set_post(start, self@, key@, v, ttl_ms, now, at));
        }
    }

    /// Fetch a value if present and not expired (an expired entry is dropped).
    pub fn get(&mut self, key: &str) -> (r: Option<JsonValue>)
        ensures
            exists|now: u64| #[trigger] get_post(old(self)@, final(self)@, key@, opt_json(r), now),
    {
        let now = elapsed_ms(&self.clock_start);
        self.get_at(key, now)
    }

    /// `get` judging expiry at the clock reading `now`.
    pub fn get_at(&mut self, key: &str, now: u64) -> (r: Option<JsonValue>)
        ensures
            get_post(old(self)@, final(self)@, key@, opt_json(r), now),
    {
        let ghost start = self@;
        let r = match moka_get(&mut self.store, key) {
            Some(e) => {
                let live = match e.expires_at_ms {
                    None => true,
                    Some(at) => now < at,
                };
                if live {
                    Some(e.value)
                } else {
                    let ghost mid = moka_contents(self.store);
                    moka_invalidate(&mut self.store, key);
                    proof {
                        vstd::map_lib::lemma_submap_of_trans(moka_contents(self.store), mid.remove(key@), mid);
                        vstd::map_lib::lemma_submap_of_trans(moka_contents(self.store), mid, start.contents);
                    }
                    None
                }
            },
            None => None,
        };
        assert(get_post(start, self@, key@, opt_json(r), now));
        r
    }

    /// True when the key is present and not expired.
    pub fn key_exists(&mut self, key: &str) -> (b: bool)
        ensures
            exists|now: u64| #[trigger] get_post(old(self)@, final(self)@, key@, lookup(old(self)@.contents, key@, now), now)
                && b == lookup(old(self)@.contents, key@, now) is Some,
    {
        let ghost start = self@;
        let r = self.get(key);
        proof {
            let now = choose|now: u64| #[trigger] get_post(start, self@, key@, opt_json(r), now);
            assert(get_post(start, self@, key@, lookup(start.contents, key@, now), now));
        }
        r.is_some()
    }

    /// Remove a key; returns whether it existed.
    pub fn delete(&mut self, key: &str) -> (r: bool)
        ensures
            exists|at: u64| #[trigger] delete_post(old(self)@, final(self)@, key@, r, at),
    {
        let ghost start = self@;
        let existed = moka_contains(&self.store, key);
        moka_invalidate(&mut self.store, key);
        let ghost mid = self@;
        if existed {
            self.record("delete", Some(key));
            proof {
                let at = choose|at: u64| self@ == #[trigger] after_event(mid, ("delete"@, opt_str(Some(key)), at));
                assert(delete_post(start, self@, key@, existed, at));
            }
        } else {
            assert(delete_post(start, self@, key@, existed, 0));
        }
        existed
    }

    /// Drop all entries: each stored key is invalidated in turn, which moka
    /// applies in order, so the capacity count drops with them.
    pub fn clear(&mut self)
        ensures
            exists|at: u64| #[trigger] clear_post(old(self)@, final(self)@, at),
    {
        let ghost start = self@;
        let all = moka_entries(&self.store);
        let mut i: usize = 0;
        while i < all.len()
            invariant
                i <= all@.len(),
                entries_map(all@) == start.contents,
                forall|k: Seq<char>| #[trigger] moka_contents(self.store).contains_key(k) ==> exists|j: int|
                    i <= j < all@.len() && all@[j].0@ == k,
                moka_table(self.store).subset_of(start.table),
                self@ == (CacheView { contents: self@.contents, table: self@.table, ..start }),
            decreases all@.len() - i,
        {
            let ghost before = moka_contents(self.store);
            moka_invalidate(&mut self.store, all[i].0.as_str());
            assert forall|k: Seq<char>| #[trigger] moka_contents(self.store).contains_key(k) implies exists|j: int|
                i + 1 <= j < all@.len() && all@[j].0@ == k by {
                assert(before.remove(all@[i as int].0@).contains_key(k));
                let j = choose|j: int| i <= j < all@.len() && all@[j].0@ == k;
                assert(j != i);
            }
            i += 1;
        }
        assert(self@.contents =~= empty_store());
        let ghost mid = self@;
        self.record("clear", None);
        proof {
            let at = choose|at: u64| self@ == #[trigger] after_event(mid, ("clear"@, opt_str(None), at));
            assert(clear_post(start, self@, at));
        }
    }

    /// Return the cached value, or store `default` and return it.
    pub fn get_or_set(&mut self, key: &str, default: JsonValue, ttl_ms: Option<u64>) -> (r: JsonValue)
        ensures
            exists|now1: u64, now2: u64, at: u64| #[trigger] get_or_set_post(old(self)@, final(self)@, key@, default@, ttl_ms, r@, now1, now2, at),
    {
        let ghost start = self@;
        let ghost d = default@;
        match self.get(key) {
            Some(existing) => {
                proof {
                    let now1 = choose|now: u64| #[trigger] get_post(start, self@, key@, Some(existing@), now);
                    assert(get_or_set_post(start, self@, key@, d, ttl_ms, existing@, now1, 0, 0));
                }
                existing
            },
            None => {
                let ghost mid = self@;
                let ghost now1 = choose|now: u64| #[trigger] get_post(start, mid, key@, None, now);
                let kept = default.clone();
                self.set(key, default, ttl_ms);
                proof {
                    let (now2, at) = choose|now2: u64, at: u64| #[trigger] set_post(mid, self@, key@, d, ttl_ms, now2, at);
                    let e = (d, expiry(ttl_ms, mid.default_ttl_ms, now2));
                    assert(mid.contents.insert(key@, e).submap_of(start.contents.insert(key@, e)));
                    vstd::map_lib::lemma_submap_of_trans(self@.contents, mid.contents.insert(key@, e), start.contents.insert(key@, e));
                    if start.table.finite() {
                        lemma_room_kept(start, mid, key@);
                    }
                    if room_for(start, key@) {
                        assert(mid.contents.insert(key@, e) =~= start.contents.insert(key@, e));
                    }
                    assert(get_or_set_post(start, self@, key@, d, ttl_ms, kept@, now1, now2, at));
                }
                kept
            },
        }
    }

    /// Delete then set (force replace); returns the stored value.
    pub fn delete_or_set(&mut self, key: &str, value: JsonValue, ttl_ms: Option<u64>) -> (r: JsonValue)
        ensures
            r@ == value@,
            exists|at1: u64, now: u64, at2: u64| #[trigger] set_post(deleted(old(self)@, key@, at1), final(self)@, key@, value@, ttl_ms, now, at2),
    {
        let ghost start = self@;
        let ghost v = value@;
        let _ = self.delete(key);
        let ghost mid = self@;
        let ghost at1 = choose|at: u64| #[trigger] delete_post(start, mid, key@, start.contents.contains_key(key@), at);
        let kept = value.clone();
        self.set(key, value, ttl_ms);
        proof {
            let (now, at2) = choose|now: u64, at2: u64| #[trigger] set_post(mid, self@, key@, v, ttl_ms, now, at2);
            let dv = deleted(start, key@, at1);
            let e = (v, expiry(ttl_ms, mid.default_ttl_ms, now));
            assert(mid.contents.insert(key@, e).submap_of(dv.contents.insert(key@, e)));
            vstd::map_lib::lemma_submap_of_trans(self@.contents, mid.contents.insert(key@, e), dv.contents.insert(key@, e));
            if start.table.finite() {
                lemma_room_kept(start, mid, key@);
            }
            if room_for(dv, key@) {
                assert(mid.contents.insert(key@, e) =~= dv.contents.insert(key@, e));
            }
            assert(set_post(dv, self@, key@, v, ttl_ms, now, at2));
        }
        kept
    }

    /// If the key already exists, leave it and return `true`; otherwise set
    /// `value` and return `false`.
    pub fn exists_or_set(&mut self, key: &str, value: JsonValue, ttl_ms: Option<u64>) -> (r: bool)
        ensures
            exists|now1: u64, now2: u64, at: u64| #[trigger] exists_or_set_post(old(self)@, final(self)@, key@, value@, ttl_ms, r, now1, now2, at),
    {
        let ghost start = self@;
        let ghost v = value@;
        if self.key_exists(key) {
            proof {
                let now1 = choose|now: u64| #[trigger] get_post(start, self@, key@, lookup(start.contents, key@, now), now)
                    && lookup(start.contents, key@, now) is Some;
                assert(exists_or_set_post(start, self@, key@, v, ttl_ms, true, now1, 0, 0));
            }
            return true;
        }
        let ghost mid = self@;
        let ghost now1 = choose|now: u64| #[trigger] get_post(start, mid, key@, lookup(start.contents, key@, now), now)
            && !(lookup(start.contents, key@, now) is Some);
        self.set(key, value, ttl_ms);
        proof {
            let (now2, at) = choose|now2: u64, at: u64| #[trigger] set_post(mid, self@, key@, v, ttl_ms, now2, at);
            let e = (v, expiry(ttl_ms, mid.default_ttl_ms, now2));
            assert(mid.contents.insert(key@, e).submap_of(start.contents.insert(key@, e)));
            vstd::map_lib::lemma_submap_of_trans(self@.contents, mid.contents.insert(key@, e), start.contents.insert(key@, e));
            if start.table.finite() {
                lemma_room_kept(start, mid, key@);
            }
            if room_for(start, key@) {
                assert(mid.contents.insert(key@, e) =~= start.contents.insert(key@, e));
            }
            assert(exists_or_set_post(start, self@, key@, v, ttl_ms, false, now1, now2, at));
        }
        false
    }
}

// ─── Building the monitor values ────────────────────────────────────────────

/// Entries with their keys and entries as views.
pub open spec fn entry_views(ps: Seq<(String, CacheEntry)>) -> Seq<(Seq<char>, (Json, Option<u64>))> {
    ps.map_values(|p: (String, CacheEntry)| (p.0@, p.1@))
}

fn ttl_value(exp: Option<u64>, now: u64) -> (r: JsonValue)
    ensures
        r@ == ttl_json(exp, now),
{
    match exp {
        None => JsonValue::Null,
        Some(at) => JsonValue::from_u64(
            if at > now {
                (at - now) / 1000
            } else {
                0
            },
        ),
    }
}

fn entry_value(k: &String, e: &CacheEntry, now: u64) -> (r: JsonValue)
    ensures
        r@ == entry_json((k@, e@), now),
{
    let ms = vec![
        ("key".to_string(), JsonValue::from_str(k.as_str())),
        ("ttl_remaining_secs".to_string(), ttl_value(e.expires_at_ms, now)),
        ("value".to_string(), e.value.clone()),
    ];
    proof {
        crate::json::lemma_members_view(ms@);
    }
    assert(members_view(ms@) =~= entry_json((k@, e@), now)->Obj_0);
    JsonValue::Object(ms)
}

fn event_value(e: &CacheEvent) -> (r: JsonValue)
    ensures
        r@ == event_json(e@),
{
    let key = match &e.key {
        Some(k) => JsonValue::from_str(k.as_str()),
        None => JsonValue::Null,
    };
    let ms = vec![
        ("at_ms".to_string(), JsonValue::from_u64(e.at_ms)),
        ("key".to_string(), key),
        ("op".to_string(), JsonValue::from_str(e.op.as_str())),
    ];
    proof {
        crate::json::lemma_members_view(ms@);
    }
    assert(members_view(ms@) =~= event_json(e@)->Obj_0);
    JsonValue::Object(ms)
}

fn string_array(items: Vec<Vec<char>>) -> (r: JsonValue)
    ensures
        r@ == str_array(items@.map_values(|v: Vec<char>| v@)),
{
    let mut out: Vec<JsonValue> = Vec::new();
    let mut i: usize = 0;
    while i < items.len()
        invariant
            i <= items.len(),
            out@.len() == i,
            forall|j: int| 0 <= j < i ==> #[trigger] out@[j]@ == Json::Str(items@[j]@),
        decreases items.len() - i,
    {
        out.push(JsonValue::String(to_string(&items[i])));
        i += 1;
    }
    proof {
        crate::json::lemma_items_view(out@);
    }
    assert(crate::json::items_view(out@) =~= str_array(items@.map_values(|v: Vec<char>| v@))->Arr_0);
    JsonValue::Array(out)
}

/// A value as the monitor panel shows it (see `shown_value`).
pub fn display_cache_value(value: &JsonValue) -> (r: String)
    ensures
        r@ == shown_value(value@),
{
    let raw = chars_of(write_json(value).as_str());
    if raw.len() > 160 {
        let mut t = crate::text::subvec(&raw, 0, 157);
        crate::text::extend(&mut t, &chars_of("..."));
        assert(raw@.subrange(0, 157) =~= raw@.take(157));
        to_string(&t)
    } else {
        to_string(&raw)
    }
}

fn ttl_string(exp: Option<u64>, now: u64) -> (r: Vec<char>)
    ensures
        r@ == ttl_text(exp, now),
{
    match ttl_value(exp, now) {
        JsonValue::Number(crate::json::JsonNumber::PosInt(n)) => format_u64(n),
        _ => chars_of("∞"),
    }
}

fn entry_row_value(k: &String, e: &CacheEntry, now: u64) -> (r: JsonValue)
    ensures
        r@ == entry_row((k@, e@), now),
{
    let items = vec![chars_of(k.as_str()), chars_of(display_cache_value(&e.value).as_str()), ttl_string(e.expires_at_ms, now)];
    assert(items@.map_values(|v: Vec<char>| v@) =~= seq![k@, shown_value(e.value@), ttl_text(e.expires_at_ms, now)]);
    string_array(items)
}

fn event_row_value(e: &CacheEvent) -> (r: JsonValue)
    ensures
        r@ == event_row(e@),
{
    let ghost key_text = event_key_text(e@.1);
    let key = match &e.key {
        Some(k) => chars_of(k.as_str()),
        None => chars_of("—"),
    };
    assert(key@ == key_text);
    let items = vec![chars_of(e.op.as_str()), key, format_u64(e.at_ms)];
    assert(items@.map_values(|v: Vec<char>| v@) =~= seq![e@.0, key_text, decimal(e@.2 as nat)]);
    let r = string_array(items);
    r
}

impl Cache {
    /// The live entries in key order, with the time they were judged live at;
    /// expired entries are dropped from the store.
    fn live_entries(&mut self, now: u64) -> (r: (Vec<(String, CacheEntry)>, u64))
        ensures
            r.1 == now,
            sorted_keys(r.0@),
            keys_unique(r.0@),
            entries_map(r.0@) == alive_part(old(self)@.contents, r.1),
            final(self)@.contents.submap_of(old(self)@.contents),
            never_full(old(self)@) ==> final(self)@.contents == alive_part(old(self)@.contents, r.1),
            final(self)@.table.subset_of(old(self)@.table),
            final(self)@ == (CacheView { contents: final(self)@.contents, table: final(self)@.table, ..old(self)@ }),
    {
        let ghost start = self@;
        let all = moka_entries(&self.store);
        let mut live: Vec<(String, CacheEntry)> = Vec::new();
        let mut i: usize = 0;
        assert(all@.take(0) =~= Seq::<(String, CacheEntry)>::empty());
        assert(entries_map(live@) =~= alive_part(entries_map(all@.take(0)), now));
        assert(pruned(start.contents, entries_map(all@.take(0)).dom(), now) =~= start.contents);
        while i < all.len()
            invariant
                i <= all@.len(),
                keys_unique(all@),
                entries_map(all@) == start.contents,
                keys_unique(live@),
                forall|a: int| 0 <= a < live@.len() ==> exists|j: int| 0 <= j < i && #[trigger] live@[a].0@ == all@[j].0@,
                entries_map(live@) == alive_part(entries_map(all@.take(i as int)), now),
                moka_contents(self.store).submap_of(start.contents),
                self@ == (CacheView { contents: self@.contents, table: self@.table, ..start }),
                moka_table(self.store).subset_of(start.table),
                never_full(start) ==> moka_contents(self.store) == pruned(
                    start.contents,
                    entries_map(all@.take(i as int)).dom(),
                    now,
                ),
            decreases all@.len() - i,
        {
            let k = &all[i].0;
            let e = &all[i].1;
            let ghost t = all@.take(i as int);
            assert(all@.take(i + 1) =~= t.push(all@[i as int]));
            assert(!crate::strmap::has_key(t, k@)) by {
                if crate::strmap::has_key(t, k@) {
                    let j = choose|j: int| 0 <= j < t.len() && t[j].0@ == k@;
                    assert(all@[j].0@ == all@[i as int].0@);
                }
            }
            proof {
                crate::strmap::lemma_map_of_push(t, all@[i as int].0, all@[i as int].1);
                crate::strmap::lemma_map_of_at(all@, i as int);
                assert(start.contents[k@] == e@);
            }
            let live_now = match e.expires_at_ms {
                None => true,
                Some(at) => now < at,
            };
            if live_now {
                let ghost before = live@;
                assert(!crate::strmap::has_key(before, k@)) by {
                    if crate::strmap::has_key(before, k@) {
                        let a = choose|a: int| 0 <= a < before.len() && before[a].0@ == k@;
                        let j = choose|j: int| 0 <= j < i && #[trigger] before[a].0@ == all@[j].0@;
                        assert(all@[j].0@ == all@[i as int].0@);
                    }
                }
                let kk = k.clone();
                let ee = e.clone();
                proof {
                    crate::strmap::lemma_map_of_push(before, kk, ee);
                }
                live.push((kk, ee));
                assert(live@ == before.push((kk, ee)));
                assert(entries_map(live@) =~= entries_map(before).insert(k@, e@));
                assert(entries_map(all@.take(i + 1)) =~= entries_map(t).insert(k@, e@));
                assert(entries_map(live@) =~= alive_part(entries_map(all@.take(i + 1)), now));
                assert(pruned(start.contents, entries_map(all@.take(i + 1)).dom(), now) =~= pruned(
                    start.contents,
                    entries_map(t).dom(),
                    now,
                ));
                assert forall|a: int| 0 <= a < live@.len() implies exists|j: int| 0 <= j < i + 1 && #[trigger] live@[a].0@ == all@[j].0@ by {
                    if a < before.len() {
                        assert(live@[a] == before[a]);
                    } else {
                        assert(live@[a].0@ == all@[i as int].0@);
                    }
                }
            } else {
                let ghost mid = moka_contents(self.store);
                moka_invalidate(&mut self.store, k.as_str());
                proof {
                    vstd::map_lib::lemma_submap_of_trans(moka_contents(self.store), mid.remove(k@), mid);
                    vstd::map_lib::lemma_submap_of_trans(moka_contents(self.store), mid, start.contents);
                    assert(entries_map(all@.take(i + 1)) =~= entries_map(t).insert(k@, e@));
                    if never_full(start) {
                        assert(mid.remove(k@) =~= pruned(start.contents, entries_map(all@.take(i + 1)).dom(), now));
                    }
                }
                assert(entries_map(all@.take(i + 1)) =~= entries_map(t).insert(k@, e@));
                assert(entries_map(live@) =~= alive_part(entries_map(all@.take(i + 1)), now));
            }
            assert(self@ == CacheView { contents: self@.contents, table: self@.table, ..start });
            i += 1;
        }
        assert(all@.take(all@.len() as int) =~= all@);
        assert(pruned(start.contents, entries_map(all@).dom(), now) =~= alive_part(start.contents, now));
        let sorted = sort_by_key(live);
        assert(entries_map(sorted@) =~= entries_map(live@));
        (sorted, now)
    }

    fn snapshot_value(&self, live: &Vec<(String, CacheEntry)>, now: u64) -> (r: JsonValue)
        ensures
            r@ == snapshot_json(self@.driver, entry_views(live@), self@.events, self@.monitor_enabled, self@.monitor_path, now),
    {
        let mut entries: Vec<JsonValue> = Vec::new();
        let mut i: usize = 0;
        while i < live.len()
            invariant
                i <= live@.len(),
                entries@.len() == i,
                forall|j: int| 0 <= j < i ==> #[trigger] entries@[j]@ == entry_json((live@[j].0@, live@[j].1@), now),
            decreases live@.len() - i,
        {
            entries.push(entry_value(&live[i].0, &live[i].1, now));
            i += 1;
        }
        let evs = self.log.entries();
        let mut events: Vec<JsonValue> = Vec::new();
        let mut j: usize = 0;
        while j < evs.len()
            invariant
                j <= evs@.len(),
                events@.len() == j,
                forall|a: int| 0 <= a < j ==> #[trigger] events@[a]@ == event_json(evs@[a]@),
            decreases evs@.len() - j,
        {
            events.push(event_value(&evs[j]));
            j += 1;
        }
        let monitor = vec![
            ("enabled".to_string(), JsonValue::Bool(self.monitor_enabled)),
            ("path".to_string(), JsonValue::from_str(self.monitor_path.as_str())),
        ];
        let ms = vec![
            ("driver".to_string(), JsonValue::from_str(self.driver.as_str())),
            ("entries".to_string(), JsonValue::Array(entries)),
            ("entry_count".to_string(), JsonValue::from_u64(live.len() as u64)),
            ("event_count".to_string(), JsonValue::from_u64(evs.len() as u64)),
            ("events".to_string(), JsonValue::Array(events)),
            ("monitor".to_string(), JsonValue::Object(monitor)),
        ];
        proof {
            crate::json::lemma_items_view(entries@);
            crate::json::lemma_items_view(events@);
            crate::json::lemma_members_view(monitor@);
            crate::json::lemma_members_view(ms@);
            assert(crate::json::items_view(entries@) =~= entry_views(live@).map_values(|p: (Seq<char>, (Json, Option<u64>))| entry_json(p, now)));
            assert(crate::json::items_view(events@) =~= self@.events.map_values(|e: EventView| event_json(e)));
            assert(members_view(monitor@) =~= seq![("enabled"@, Json::Bool(self.monitor_enabled)), ("path"@, Json::Str(self.monitor_path@))]);
        }
        assert(members_view(ms@) =~= snapshot_json(self@.driver, entry_views(live@), self@.events, self@.monitor_enabled, self@.monitor_path, now)->Obj_0);
        JsonValue::Object(ms)
    }

    fn panel_value(&self, live: &Vec<(String, CacheEntry)>, now: u64) -> (r: JsonValue)
        ensures
            r@ == panel_json(self@.driver, entry_views(live@), self@.events, self@.monitor_path, now),
    {
        let mut rows: Vec<JsonValue> = Vec::new();
        let mut i: usize = 0;
        while i < live.len()
            invariant
                i <= live@.len(),
                rows@.len() == i,
                forall|j: int| 0 <= j < i ==> #[trigger] rows@[j]@ == entry_row((live@[j].0@, live@[j].1@), now),
            decreases live@.len() - i,
        {
            rows.push(entry_row_value(&live[i].0, &live[i].1, now));
            i += 1;
        }
        let evs = self.log.entries();
        let mut erows: Vec<JsonValue> = Vec::new();
        let mut j: usize = 0;
        while j < evs.len()
            invariant
                j <= evs@.len(),
                erows@.len() == j,
                forall|a: int| 0 <= a < j ==> #[trigger] erows@[a]@ == event_row(evs@[a]@),
            decreases evs@.len() - j,
        {
            erows.push(event_row_value(&evs[j]));
            j += 1;
        }
        let trimmed = trim_end_matches(&chars_of(self.monitor_path.as_str()), '/');
        let path = if trimmed.len() == 0 {
            chars_of("/__fusion/cache")
        } else {
            trimmed
        };
        let mut json_path = path.clone();
        crate::text::extend(&mut json_path, &chars_of("/json"));
        let n = live.len();
        let m = evs.len();
        let mut entry_badge = format_u64(n as u64);
        crate::text::extend(&mut entry_badge, &chars_of(" keys"));
        let mut event_badge = format_u64(m as u64);
        crate::text::extend(&mut event_badge, &chars_of(" events"));
        let hv = vec![chars_of("Key"), chars_of("Value"), chars_of("TTL (s)")];
        assert(hv@.map_values(|v: Vec<char>| v@) =~= seq!["Key"@, "Value"@, "TTL (s)"@]);
        let entry_headers = string_array(hv);
        let ev = vec![chars_of("Op"), chars_of("Key"), chars_of("Time (ms)")];
        assert(ev@.map_values(|v: Vec<char>| v@) =~= seq!["Op"@, "Key"@, "Time (ms)"@]);
        let event_headers = string_array(ev);
        let ghost eh = entry_headers@;
        let ghost evh = event_headers@;
        let ms = vec![
            ("driver".to_string(), JsonValue::from_str(self.driver.as_str())),
            ("driver_label".to_string(), JsonValue::from_str(self.driver.as_str())),
            ("empty_entries".to_string(), JsonValue::Bool(n == 0)),
            ("empty_events".to_string(), JsonValue::Bool(m == 0)),
            ("entry_badge".to_string(), JsonValue::String(to_string(&entry_badge))),
            ("entry_count".to_string(), JsonValue::from_u64(n as u64)),
            ("entry_headers".to_string(), entry_headers),
            ("entry_rows".to_string(), JsonValue::Array(rows)),
            ("event_badge".to_string(), JsonValue::String(to_string(&event_badge))),
            ("event_count".to_string(), JsonValue::from_u64(m as u64)),
            ("event_headers".to_string(), event_headers),
            ("event_rows".to_string(), JsonValue::Array(erows)),
            ("json_path".to_string(), JsonValue::String(to_string(&json_path))),
            ("path".to_string(), JsonValue::String(to_string(&path))),
            ("title".to_string(), JsonValue::from_str("Cache Monitor")),
        ];
        proof {
            crate::json::lemma_items_view(rows@);
            crate::json::lemma_items_view(erows@);
            crate::json::lemma_members_view(ms@);
            assert(crate::json::items_view(rows@) =~= entry_views(live@).map_values(|p: (Seq<char>, (Json, Option<u64>))| entry_row(p, now)));
            assert(crate::json::items_view(erows@) =~= self@.events.map_values(|e: EventView| event_row(e)));
            assert(path@ == panel_path(self@.monitor_path));
        }
        assert(eh == str_array(seq!["Key"@, "Value"@, "TTL (s)"@]));
        assert(evh == str_array(seq!["Op"@, "Key"@, "Time (ms)"@]));
        assert(members_view(ms@) =~= panel_json(self@.driver, entry_views(live@), self@.events, self@.monitor_path, now)->Obj_0);
        JsonValue::Object(ms)
    }

    /// JSON snapshot for the monitor panel (live entries + recent events);
    /// expired entries are dropped from the store.
    pub fn snapshot(&mut self) -> (r: JsonValue)
        ensures
            exists|now: u64| r@ == #[trigger] snapshot_json(
                old(self)@.driver,
                listing(alive_part(old(self)@.contents, now)),
                old(self)@.events,
                old(self)@.monitor_enabled,
                old(self)@.monitor_path,
                now,
            ) && (never_full(old(self)@) ==> final(self)@.contents == alive_part(
                old(self)@.contents,
                now,
            )),
            final(self)@.contents.submap_of(old(self)@.contents),
            final(self)@.table.subset_of(old(self)@.table),
            final(self)@ == (CacheView { contents: final(self)@.contents, table: final(self)@.table, ..old(self)@ }),
    {
        let now = elapsed_ms(&self.clock_start);
        self.snapshot_at(now)
    }

    /// `snapshot` judging expiry at the clock reading `now`.
    pub fn snapshot_at(&mut self, now: u64) -> (r: JsonValue)
        ensures
            r@ == snapshot_json(
                old(self)@.driver,
                listing(alive_part(old(self)@.contents, now)),
                old(self)@.events,
                old(self)@.monitor_enabled,
                old(self)@.monitor_path,
                now,
            ),
            never_full(old(self)@) ==> final(self)@.contents == alive_part(old(self)@.contents, now),
            final(self)@.contents.submap_of(old(self)@.contents),
            final(self)@.table.subset_of(old(self)@.table),
            final(self)@ == (CacheView { contents: final(self)@.contents, table: final(self)@.table, ..old(self)@ }),
    {
        let (live, t) = self.live_entries(now);
        proof {
            lemma_entry_views(live@);
        }
        self.snapshot_value(&live, t)
    }

    /// Template context for the built-in cache monitor panel.
    pub fn panel_context(&mut self) -> (r: JsonValue)
        ensures
            exists|now: u64| r@ == #[trigger] panel_json(
                old(self)@.driver,
                listing(alive_part(old(self)@.contents, now)),
                old(self)@.events,
                old(self)@.monitor_path,
                now,
            ) && (never_full(old(self)@) ==> final(self)@.contents == alive_part(
                old(self)@.contents,
                now,
            )),
            final(self)@.contents.submap_of(old(self)@.contents),
            final(self)@.table.subset_of(old(self)@.table),
            final(self)@ == (CacheView { contents: final(self)@.contents, table: final(self)@.table, ..old(self)@ }),
    {
        let now = elapsed_ms(&self.clock_start);
        self.panel_context_at(now)
    }

    /// `panel_context` judging expiry at the clock reading `now`.
    pub fn panel_context_at(&mut self, now: u64) -> (r: JsonValue)
        ensures
            r@ == panel_json(
                old(self)@.driver,
                listing(alive_part(old(self)@.contents, now)),
                old(self)@.events,
                old(self)@.monitor_path,
                now,
            ),
            never_full(old(self)@) ==> final(self)@.contents == alive_part(old(self)@.contents, now),
            final(self)@.contents.submap_of(old(self)@.contents),
            final(self)@.table.subset_of(old(self)@.table),
            final(self)@ == (CacheView { contents: final(self)@.contents, table: final(self)@.table, ..old(self)@ }),
    {
        let (live, t) = self.live_entries(now);
        proof {
            lemma_entry_views(live@);
        }
        self.panel_value(&live, t)
    }
}

/// Entries kept in key order list their map.
proof fn lemma_entry_views(ps: Seq<(String, CacheEntry)>)
    requires
        sorted_keys(ps),
        keys_unique(ps),
    ensures
        listing(entries_map(ps)) == entry_views(ps),
{
    let vs = ps.map_values(|p: (String, CacheEntry)| (p.0, p.1@));
    assert(keys_unique(vs));
    assert(sorted_keys(vs)) by {
        assert forall|i: int, j: int| 0 <= i < j < vs.len() implies crate::order::seq_lt(#[trigger] vs[i].0@, #[trigger] vs[j].0@) by {
            assert(crate::order::seq_lt(ps[i].0@, ps[j].0@));
        }
    }
    assert forall|k: Seq<char>| #[trigger] map_of(vs).contains_key(k) <==> entries_map(ps).contains_key(k) by {
        if map_of(vs).contains_key(k) {
            let i = choose|i: int| 0 <= i < vs.len() && vs[i].0@ == k;
            assert(ps[i].0@ == k);
        }
        if map_of(ps).contains_key(k) {
            let i = choose|i: int| 0 <= i < ps.len() && ps[i].0@ == k;
            assert(vs[i].0@ == k);
        }
    }
    assert forall|k: Seq<char>| #[trigger] map_of(vs).contains_key(k) implies map_of(vs)[k] == entries_map(ps)[k] by {
        let i = choose|i: int| 0 <= i < vs.len() && vs[i].0@ == k;
        crate::strmap::lemma_map_of_at(vs, i);
        crate::strmap::lemma_map_of_at(ps, i);
    }
    assert(map_of(vs) =~= entries_map(ps));
    lemma_sorted_listing(vs);
    assert(keyed(vs) =~= entry_views(ps));
}

// ─── The process-wide cache ─────────────────────────────────────────────────

/// The cache a default configuration opens.
pub open spec fn default_cache() -> CacheView {
    CacheView {
        contents: empty_store(),
        default_ttl_ms: None,
        driver: "moka"@,
        events: Seq::empty(),
        max_events: 50,
        monitor_enabled: false,
        monitor_path: "/__fusion/cache"@,
        capacity: 10_000,
        table: Set::empty(),
        peak: 0,
    }
}

/// The cache in use after `ensure_configured`: the installed one, else a default one.
pub open spec fn configured(slot: Option<CacheView>) -> CacheView {
    match slot {
        Some(c) => c,
        None => default_cache(),
    }
}

proof fn lemma_default_driver()
    ensures
        driver_named("moka"@) == "moka"@,
{
    reveal_strlit("moka");
    assert(crate::text::trim_end_ws("moka"@) =~= "moka"@);
    assert(crate::text::trim_start_ws("moka"@) =~= "moka"@);
    assert(ascii_lower_seq("moka"@) =~= "moka"@);
}

/// The process-wide cache as one value: what `configure`, `ensure_configured`
/// and the process-wide operations read and write.
pub struct CacheSlot {
    cache: Option<Cache>,
}

impl CacheSlot {
    /// The installed cache, if any.
    pub closed spec fn current(&self) -> Option<CacheView> {
        match self.cache {
            Some(c) => Some(c@),
            None => None,
        }
    }

    /// No cache installed.
    pub fn new() -> (s: CacheSlot)
        ensures
            s.current() is None,
    {
        CacheSlot { cache: None }
    }

    /// Install a concrete cache instance as the process-wide default.
    pub fn configure(&mut self, cache: Cache)
        ensures
            final(self).current() == Some(cache@),
    {
        self.cache = Some(cache);
    }

    /// Install (or replace) the process-wide cache from settings.
    pub fn configure_from_settings(&mut self, settings: &Settings) -> (r: Result<(), String>)
        ensures
            match r {
                Ok(()) => driver_named(config_from(settings@).driver) == "moka"@ && final(self).current() is Some,
                Err(m) => driver_named(config_from(settings@).driver) != "moka"@
                    && m@ == open_error(driver_named(config_from(settings@).driver))
                    && final(self).current() == old(self).current(),
            },
    {
        let cfg = CacheConfig::from_settings(settings);
        match Cache::open(cfg) {
            Ok(cache) => {
                self.cache = Some(cache);
                Ok(())
            },
            Err(e) => Err(e),
        }
    }

    /// Ensure a cache is installed (a default moka cache if none was).
    pub fn ensure_configured(&mut self) -> (r: Result<(), String>)
        ensures
            r is Ok,
            final(self).current() == Some(configured(old(self).current())),
    {
        if self.cache.is_some() {
            return Ok(());
        }
        proof {
            lemma_default_driver();
        }
        match Cache::open(CacheConfig::default()) {
            Ok(cache) => {
                self.cache = Some(cache);
                Ok(())
            },
            Err(e) => Err(e),
        }
    }

    fn take_configured(&mut self) -> (c: Cache)
        ensures
            c@ == configured(old(self).current()),
            final(self).current() is None,
    {
        proof {
            lemma_default_driver();
        }
        let mut slot: Option<Cache> = None;
        std::mem::swap(&mut slot, &mut self.cache);
        match slot {
            Some(c) => c,
            None => match Cache::open(CacheConfig::default()) {
                Ok(c) => c,
                Err(_) => {
                    proof {
                        assert(false);
                    }
                    vstd::pervasive::unreached()
                },
            },
        }
    }

    /// Remove every installed cache (tests).
    pub fn reset_global(&mut self)
        ensures
            final(self).current() is None,
    {
        self.cache = None;
    }

    /// Process-wide `set`.
    pub fn set(&mut self, key: &str, value: JsonValue, ttl_ms: Option<u64>) -> (r: Result<(), String>)
        ensures
            r is Ok,
            final(self).current() is Some,
            exists|now: u64, at: u64| #[trigger] set_post(configured(old(self).current()), final(self).current()->0, key@, value@, ttl_ms, now, at),
    {
        let mut c = self.take_configured();
        let ghost c0 = c@;
        let ghost v = value@;
        c.set(key, value, ttl_ms);
        self.cache = Some(c);
        proof {
            let (now, at) = choose|now: u64, at: u64| #[trigger] set_post(c0, c@, key@, v, ttl_ms, now, at);
            assert(set_post(c0, self.current()->0, key@, v, ttl_ms, now, at));
        }
        Ok(())
    }

    /// Process-wide `get`.
    pub fn get(&mut self, key: &str) -> (r: Result<Option<JsonValue>, String>)
        ensures
            r is Ok,
            final(self).current() is Some,
            exists|now: u64| #[trigger] get_post(configured(old(self).current()), final(self).current()->0, key@, opt_json(r->Ok_0), now),
    {
        let mut c = self.take_configured();
        let ghost c0 = c@;
        let v = c.get(key);
        self.cache = Some(c);
        proof {
            let now = choose|now: u64| #[trigger] get_post(c0, c@, key@, opt_json(v), now);
            assert(get_post(c0, self.current()->0, key@, opt_json(v), now));
        }
        Ok(v)
    }

    /// Process-wide `delete`.
    pub fn delete(&mut self, key: &str) -> (r: Result<bool, String>)
        ensures
            r is Ok,
            final(self).current() is Some,
            exists|at: u64| #[trigger] delete_post(configured(old(self).current()), final(self).current()->0, key@, r->Ok_0, at),
    {
        let ghost s0 = self.current();
        let mut c = self.take_configured();
        let ghost c0 = c@;
        let b = c.delete(key);
        self.cache = Some(c);
        let r: Result<bool, String> = Ok(b);
        proof {
            let at = choose|at: u64| #[trigger] delete_post(c0, c@, key@, b, at);
            assert(delete_post(configured(s0), self.current()->0, key@, r->Ok_0, at));
        }
        r
    }

    /// Process-wide existence check (true when present and not expired).
    pub fn key_exists(&mut self, key: &str) -> (r: Result<bool, String>)
        ensures
            r is Ok,
            final(self).current() is Some,
            exists|now: u64| #[trigger] get_post(configured(old(self).current()), final(self).current()->0, key@, lookup(configured(old(self).current()).contents, key@, now), now)
                && r->Ok_0 == lookup(configured(old(self).current()).contents, key@, now) is Some,
    {
        let mut c = self.take_configured();
        let ghost c0 = c@;
        let b = c.key_exists(key);
        self.cache = Some(c);
        proof {
            let now = choose|now: u64| #[trigger] get_post(c0, c@, key@, lookup(c0.contents, key@, now), now)
                && b == lookup(c0.contents, key@, now) is Some;
            assert(get_post(c0, self.current()->0, key@, lookup(c0.contents, key@, now), now));
        }
        Ok(b)
    }

    /// Process-wide `get_or_set`.
    pub fn get_or_set(&mut self, key: &str, default: JsonValue, ttl_ms: Option<u64>) -> (r: Result<JsonValue, String>)
        ensures
            r is Ok,
            final(self).current() is Some,
            exists|now1: u64, now2: u64, at: u64| #[trigger] get_or_set_post(configured(old(self).current()), final(self).current()->0, key@, default@, ttl_ms, r->Ok_0@, now1, now2, at),
    {
        let ghost s0 = self.current();
        let ghost d = default@;
        let mut c = self.take_configured();
        let ghost c0 = c@;
        let v = c.get_or_set(key, default, ttl_ms);
        self.cache = Some(c);
        let r: Result<JsonValue, String> = Ok(v);
        proof {
            let (now1, now2, at) = choose|now1: u64, now2: u64, at: u64| #[trigger] get_or_set_post(c0, c@, key@, d, ttl_ms, v@, now1, now2, at);
            assert(get_or_set_post(configured(s0), self.current()->0, key@, d, ttl_ms, r->Ok_0@, now1, now2, at));
        }
        r
    }

    /// Process-wide `delete_or_set`.
    pub fn delete_or_set(&mut self, key: &str, value: JsonValue, ttl_ms: Option<u64>) -> (r: Result<JsonValue, String>)
        ensures
            r is Ok,
            r->Ok_0@ == value@,
            final(self).current() is Some,
            exists|at1: u64, now: u64, at2: u64| #[trigger] set_post(deleted(configured(old(self).current()), key@, at1), final(self).current()->0, key@, value@, ttl_ms, now, at2),
    {
        let ghost s0 = self.current();
        let ghost vv = value@;
        let mut c = self.take_configured();
        let ghost c0 = c@;
        let v = c.delete_or_set(key, value, ttl_ms);
        self.cache = Some(c);
        proof {
            let (at1, now, at2) = choose|at1: u64, now: u64, at2: u64| #[trigger] set_post(deleted(c0, key@, at1), c@, key@, vv, ttl_ms, now, at2);
            assert(set_post(deleted(configured(s0), key@, at1), self.current()->0, key@, vv, ttl_ms, now, at2));
        }
        Ok(v)
    }

    /// Process-wide `exists_or_set`.
    pub fn exists_or_set(&mut self, key: &str, value: JsonValue, ttl_ms: Option<u64>) -> (r: Result<bool, String>)
        ensures
            r is Ok,
            final(self).current() is Some,
            exists|now1: u64, now2: u64, at: u64| #[trigger] exists_or_set_post(configured(old(self).current()), final(self).current()->0, key@, value@, ttl_ms, r->Ok_0, now1, now2, at),
    {
        let ghost s0 = self.current();
        let mut c = self.take_configured();
        let ghost c0 = c@;
        let ghost v = value@;
        let b = c.exists_or_set(key, value, ttl_ms);
        self.cache = Some(c);
        let r: Result<bool, String> = Ok(b);
        proof {
            let (now1, now2, at) = choose|now1: u64, now2: u64, at: u64| #[trigger] exists_or_set_post(c0, c@, key@, v, ttl_ms, b, now1, now2, at);
            assert(exists_or_set_post(configured(s0), self.current()->0, key@, v, ttl_ms, r->Ok_0, now1, now2, at));
        }
        r
    }

    /// Remove every entry from the process-wide cache.
    pub fn clear(&mut self) -> (r: Result<(), String>)
        ensures
            r is Ok,
            final(self).current() is Some,
            exists|at: u64| #[trigger] clear_post(configured(old(self).current()), final(self).current()->0, at),
    {
        let mut c = self.take_configured();
        let ghost c0 = c@;
        c.clear();
        self.cache = Some(c);
        proof {
            let at = choose|at: u64| #[trigger] clear_post(c0, c@, at);
            assert(clear_post(c0, self.current()->0, at));
        }
        Ok(())
    }

    /// Active driver name (`moka`).
    pub fn driver(&mut self) -> (r: Result<String, String>)
        ensures
            r is Ok,
            r->Ok_0@ == configured(old(self).current()).driver,
            final(self).current() == Some(configured(old(self).current())),
    {
        let c = self.take_configured();
        let d = c.driver().to_string();
        self.cache = Some(c);
        Ok(d)
    }

    /// Whether the process-wide cache wants the monitor mounted.
    pub fn monitor_enabled(&mut self) -> (r: Result<bool, String>)
        ensures
            r is Ok,
            r->Ok_0 == configured(old(self).current()).monitor_enabled,
            final(self).current() == Some(configured(old(self).current())),
    {
        let c = self.take_configured();
        let b = c.monitor_enabled();
        self.cache = Some(c);
        Ok(b)
    }

    /// Monitor path from the process-wide cache config.
    pub fn monitor_path(&mut self) -> (r: Result<String, String>)
        ensures
            r is Ok,
            r->Ok_0@ == configured(old(self).current()).monitor_path,
            final(self).current() == Some(configured(old(self).current())),
    {
        let c = self.take_configured();
        let p = c.monitor_path().to_string();
        self.cache = Some(c);
        Ok(p)
    }

    /// Process-wide monitor snapshot (entries + events).
    pub fn snapshot(&mut self) -> (r: Result<JsonValue, String>)
        ensures
            r is Ok,
            final(self).current() is Some,
            exists|now: u64| r->Ok_0@ == #[trigger] snapshot_json(
                configured(old(self).current()).driver,
                listing(alive_part(configured(old(self).current()).contents, now)),
                configured(old(self).current()).events,
                configured(old(self).current()).monitor_enabled,
                configured(old(self).current()).monitor_path,
                now,
            ) && (never_full(configured(old(self).current()))
                ==> final(self).current()->0.contents == alive_part(configured(old(self).current()).contents, now)),
            final(self).current()->0.contents.submap_of(configured(old(self).current()).contents),
            final(self).current()->0.table.subset_of(configured(old(self).current()).table),
            final(self).current()->0 == (CacheView {
                contents: final(self).current()->0.contents,
                table: final(self).current()->0.table,
                ..configured(old(self).current())
            }),
    {
        let mut c = self.take_configured();
        let v = c.snapshot();
        self.cache = Some(c);
        Ok(v)
    }

    /// Template context for the monitor HTML panel.
    pub fn panel_context(&mut self) -> (r: Result<JsonValue, String>)
        ensures
            r is Ok,
            final(self).current() is Some,
            exists|now: u64| r->Ok_0@ == #[trigger] panel_json(
                configured(old(self).current()).driver,
                listing(alive_part(configured(old(self).current()).contents, now)),
                configured(old(self).current()).events,
                configured(old(self).current()).monitor_path,
                now,
            ) && (never_full(configured(old(self).current()))
                ==> final(self).current()->0.contents == alive_part(configured(old(self).current()).contents, now)),
            final(self).current()->0.contents.submap_of(configured(old(self).current()).contents),
            final(self).current()->0.table.subset_of(configured(old(self).current()).table),
            final(self).current()->0 == (CacheView {
                contents: final(self).current()->0.contents,
                table: final(self).current()->0.table,
                ..configured(old(self).current())
            }),
    {
        let mut c = self.take_configured();
        let v = c.panel_context();
        self.cache = Some(c);
        Ok(v)
    }
}

// ─── Laws ───────────────────────────────────────────────────────────────────

/// A read after a write gives the written value or nothing, never some
/// other value; and it gives the written value when there was room for the
/// key and the entry has not expired at the read.
pub proof fn law_read_after_write(
    b: CacheView,
    a: CacheView,
    c: CacheView,
    k: Seq<char>,
    v: Json,
    ttl: Option<u64>,
    now1: u64,
    at: u64,
    r: Option<Json>,
    now2: u64,
)
    requires
        set_post(b, a, k, v, ttl, now1, at),
        get_post(a, c, k, r, now2),
    ensures
        r == Some(v) || r is None,
        r is None && ttl is None && b.default_ttl_ms is None ==> !a.contents.contains_key(k),
        room_for(b, k) && alive(
            (v, expiry(ttl, b.default_ttl_ms, now1)),
            now2,
        ) ==> r == Some(v),
{
    let e = (v, expiry(ttl, b.default_ttl_ms, now1));
    if a.contents.contains_key(k) {
        assert(b.contents.insert(k, e).contains_key(k));
        assert(a.contents[k] == e);
    }
    if room_for(b, k) {
        assert(a.contents.contains_key(k));
        assert(a.peak <= a.capacity);
    }
}

/// An entry expires when its time to live has passed: a read at or after
/// the expiry that the `set` gave it (its TTL, or else the default TTL,
/// counted from the `set`'s clock reading) finds nothing; before then, with
/// room for the key, it finds the value. Without either TTL it never expires.
pub proof fn law_entry_expires(
    b: CacheView,
    a: CacheView,
    c: CacheView,
    k: Seq<char>,
    v: Json,
    ttl: Option<u64>,
    now1: u64,
    at: u64,
    r: Option<Json>,
    now2: u64,
)
    requires
        set_post(b, a, k, v, ttl, now1, at),
        get_post(a, c, k, r, now2),
    ensures
        match expiry(ttl, b.default_ttl_ms, now1) {
            Some(t) => (now2 >= t ==> r is None) && (now2 < t && room_for(b, k) ==> r == Some(v)),
            None => room_for(b, k) ==> r == Some(v),
        },
{
    law_read_after_write(b, a, c, k, v, ttl, now1, at, r, now2);
    let e = (v, expiry(ttl, b.default_ttl_ms, now1));
    if a.contents.contains_key(k) {
        assert(b.contents.insert(k, e).contains_key(k));
        assert(a.contents[k] == e);
    }
}

/// A panel built right after a snapshot, with no entry expiring between
/// the two clock readings, lists the same entries as the snapshot, so its
/// `entry_count` is the snapshot's.
pub proof fn law_panel_agrees_with_snapshot(b: CacheView, a: CacheView, now1: u64, now2: u64)
    requires
        a.contents == alive_part(b.contents, now1),
        now1 <= now2,
        forall|k: Seq<char>| #[trigger] alive_part(b.contents, now1).contains_key(k) ==> alive(b.contents[k], now2),
    ensures
        listing(alive_part(a.contents, now2)) == listing(alive_part(b.contents, now1)),
        member(panel_json(b.driver, listing(alive_part(a.contents, now2)), b.events, b.monitor_path, now2)->Obj_0, "entry_count"@)
            == member(
            snapshot_json(b.driver, listing(alive_part(b.contents, now1)), b.events, b.monitor_enabled, b.monitor_path, now1)->Obj_0,
            "entry_count"@,
        ),
{
    assert(alive_part(a.contents, now2) =~= alive_part(b.contents, now1));
    let n = listing(alive_part(b.contents, now1)).len();
    reveal_strlit("entry_count");
    reveal_strlit("driver");
    reveal_strlit("driver_label");
    reveal_strlit("empty_entries");
    reveal_strlit("empty_events");
    reveal_strlit("entry_badge");
    reveal_strlit("entries");
    let pj = panel_json(b.driver, listing(alive_part(a.contents, now2)), b.events, b.monitor_path, now2)->Obj_0;
    let sj = snapshot_json(b.driver, listing(alive_part(b.contents, now1)), b.events, b.monitor_enabled, b.monitor_path, now1)->Obj_0;
    assert(pj[0].0 == "driver"@);
    assert(pj[1].0 == "driver_label"@);
    assert("driver"@[0] != "entry_count"@[0]);
    assert("driver_label"@[0] != "entry_count"@[0]);
    assert(pj[0].0 != "entry_count"@);
    assert(pj[1].0 != "entry_count"@);
    assert(pj[2].0 == "empty_entries"@);
    assert(pj[3].0 == "empty_events"@);
    assert(pj[4].0 == "entry_badge"@);
    assert("empty_entries"@[1] != "entry_count"@[1]);
    assert("empty_events"@[1] != "entry_count"@[1]);
    assert("entry_badge"@[6] != "entry_count"@[6]);
    assert(pj[2].0 != "entry_count"@);
    assert(pj[3].0 != "entry_count"@);
    assert(pj[4].0 != "entry_count"@);
    assert(member(pj, "entry_count"@) == Some(Json::PosInt(n as u64))) by {
        reveal_with_fuel(member, 7);
    }
    assert(sj[0].0 == "driver"@);
    assert(sj[1].0 == "entries"@);
    assert("entries"@[4] != "entry_count"@[4]);
    assert(sj[0].0 != "entry_count"@);
    assert(sj[1].0 != "entry_count"@);
    assert(member(sj, "entry_count"@) == Some(Json::PosInt(n as u64))) by {
        reveal_with_fuel(member, 4);
    }
}

/// `get_or_set` on a key that is live returns its value and, while the
/// store has never been full, leaves it as it was.
pub proof fn law_get_or_set_keeps_live(
    b: CacheView,
    a: CacheView,
    k: Seq<char>,
    d: Json,
    ttl: Option<u64>,
    r: Json,
    now1: u64,
    now2: u64,
    at: u64,
)
    requires
        get_or_set_post(b, a, k, d, ttl, r, now1, now2, at),
        lookup(b.contents, k, now1) is Some,
    ensures
        r == lookup(b.contents, k, now1)->0,
        never_full(b) ==> a.contents == b.contents,
{
}

/// After a read that found `k`, in a store that has never been full, a delete of `k` reports it
/// was stored; a second delete reports it was not.
pub proof fn law_delete_after_read(
    b: CacheView,
    a: CacheView,
    c: CacheView,
    d: CacheView,
    k: Seq<char>,
    x: Json,
    now: u64,
    r1: bool,
    r2: bool,
    at1: u64,
    at2: u64,
)
    requires
        get_post(b, a, k, Some(x), now),
        never_full(b),
        delete_post(a, c, k, r1, at1),
        delete_post(c, d, k, r2, at2),
    ensures
        r1,
        !r2,
{
    assert(a.contents.contains_key(k));
    assert(!c.contents.contains_key(k)) by {
        if c.contents.contains_key(k) {
            assert(a.contents.remove(k).contains_key(k));
        }
    }
}

/// Once a key is deleted, reading it gives nothing.
pub proof fn law_deleted_key_reads_nothing(
    b: CacheView,
    a: CacheView,
    c: CacheView,
    k: Seq<char>,
    existed: bool,
    at: u64,
    r: Option<Json>,
    now: u64,
)
    requires
        delete_post(b, a, k, existed, at),
        get_post(a, c, k, r, now),
    ensures
        r is None,
{
    if a.contents.contains_key(k) {
        assert(b.contents.remove(k).contains_key(k));
    }
}

/// Once the cache is cleared, reading any key gives nothing.
pub proof fn law_cleared_cache_reads_nothing(b: CacheView, a: CacheView, c: CacheView, at: u64, k: Seq<char>, r: Option<Json>, now: u64)
    requires
        clear_post(b, a, at),
        get_post(a, c, k, r, now),
    ensures
        r is None,
{
}

/// Recording an event puts it first and keeps at most `max_events` events.
pub proof fn law_event_log_bounded(v: CacheView, e: EventView)
    requires
        1 <= v.max_events,
        v.events.len() <= v.max_events,
    ensures
        after_event(v, e).events.len() <= v.max_events,
        after_event(v, e).events[0] == e,
        after_event(v, e).events.len() == if v.events.len() < v.max_events {
            v.events.len() + 1
        } else {
            v.max_events as nat
        },
{
}

/// Reading never changes what is stored but by dropping entries, and never
/// records an event.
pub proof fn law_reads_only_drop(b: CacheView, a: CacheView, k: Seq<char>, r: Option<Json>, now: u64)
    requires
        get_post(b, a, k, r, now),
    ensures
        a.contents.submap_of(b.contents),
        a.events == b.events,
{
}

/// A normalised driver name normalises to itself.
pub proof fn law_driver_name_idempotent(name: Seq<char>)
    ensures
        driver_named(driver_named(name)) == driver_named(name),
{
    let lower = ascii_lower_seq(trim_ws(name));
    crate::text::lemma_trim_ws_ends(name);
    crate::text::lemma_ascii_lower_seq(trim_ws(name));
    if lower == "moka"@ || lower == "mako"@ {
        lemma_default_driver();
    } else {
        crate::text::lemma_trim_ws_noop(lower);
    }
}

} // verus!
