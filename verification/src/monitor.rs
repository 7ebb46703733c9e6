//! Fusion monitor panel settings (cache + background tasks UI).
//!
//! Top-level settings are preferred:
//! `"monitor": { "enabled": true, "path": "/__fusion/monitor" }`;
//! the legacy fallback is `cache.monitor.enabled` / `cache.monitor.path`.

use vstd::prelude::*;

use crate::settings::{setting_bool, setting_str, Settings, SettingsView};
use crate::text::{
    chars_of, has_prefix, is_whitespace, to_string, trim, trim_end_char, trim_end_matches, trim_ws,
};

verus! {

/// Default URL for the built-in HTML + JSON monitor.
pub const DEFAULT_PATH: &'static str = "/__fusion/monitor";

/// Gate + path for the Fusion monitor panel (independent of `cache.*`).
#[derive(Debug)]
pub struct MonitorConfig {
    pub enabled: bool,
    pub path: String,
}

impl Clone for MonitorConfig {
    fn clone(&self) -> (r: Self)
        ensures
            r.enabled == self.enabled,
            r.path@ == self.path@,
    {
        MonitorConfig { enabled: self.enabled, path: self.path.clone() }
    }
}

impl MonitorConfig {
    /// Read `monitor.*`, falling back to legacy `cache.monitor.*`.
    pub fn from_settings(settings: &Settings) -> (c: MonitorConfig)
        ensures
            (c.enabled, c.path@) == monitor_from(settings@),
    {
        let enabled = match settings.get_bool("monitor.enabled") {
            Some(b) => b,
            None => match settings.get_bool("cache.monitor.enabled") {
                Some(b) => b,
                None => false,
            },
        };
        let path = match settings.get_str("monitor.path") {
            Some(p) => Some(p),
            None => settings.get_str("cache.monitor.path"),
        };
        let path = match path {
            Some(p) => {
                let t = trim(&chars_of(p.as_str()));
                if t.len() > 0 {
                    normalize_path(to_string(&t).as_str())
                } else {
                    DEFAULT_PATH.to_string()
                }
            },
            None => DEFAULT_PATH.to_string(),
        };
        MonitorConfig { enabled, path }
    }
}

impl Default for MonitorConfig {
    fn default() -> (c: Self)
        ensures
            !c.enabled,
            c.path@ == DEFAULT_PATH@,
    {
        MonitorConfig { enabled: false, path: DEFAULT_PATH.to_string() }
    }
}

/// The monitor configuration that settings `v` give: `monitor.*`, falling
/// back to `cache.monitor.*`; a path that is blank after trimming is ignored.
pub open spec fn monitor_from(v: SettingsView) -> (bool, Seq<char>) {
    let enabled = match setting_bool(v, "monitor.enabled"@) {
        Some(b) => b,
        None => match setting_bool(v, "cache.monitor.enabled"@) {
            Some(b) => b,
            None => false,
        },
    };
    let path = match setting_str(v, "monitor.path"@) {
        Some(p) => Some(p),
        None => setting_str(v, "cache.monitor.path"@),
    };
    (enabled, match path {
        Some(p) => if trim_ws(p).len() > 0 {
            normalized_path(trim_ws(p))
        } else {
            DEFAULT_PATH@
        },
        None => DEFAULT_PATH@,
    })
}

/// `raw` trimmed and given a leading slash (the default path when empty).
pub open spec fn slashed_path(raw: Seq<char>) -> Seq<char> {
    let t = trim_ws(raw);
    if t.len() == 0 {
        DEFAULT_PATH@
    } else if has_prefix(t, seq!['/']) {
        t
    } else {
        seq!['/'] + t
    }
}

/// Monitor URL path: leading slash, no trailing slash, default when nothing is left.
pub open spec fn normalized_path(raw: Seq<char>) -> Seq<char> {
    let stripped = trim_end_char(slashed_path(raw), '/');
    if stripped.len() == 0 {
        DEFAULT_PATH@
    } else {
        stripped
    }
}

/// Normalize monitor URL path (leading slash, no trailing slash).
pub fn normalize_path(raw: &str) -> (r: String)
    ensures
        r@ == normalized_path(raw@),
{
    let rc = chars_of(raw);
    let t = trim(&rc);
    let with_slash: Vec<char> = if t.len() == 0 {
        chars_of(DEFAULT_PATH)
    } else if t[0] == '/' {
        assert(has_prefix(t@, seq!['/'])) by {
            assert(t@.take(1) =~= seq!['/']);
        }
        t
    } else {
        assert(!has_prefix(t@, seq!['/'])) by {
            if has_prefix(t@, seq!['/']) {
                assert(t@.take(1)[0] == t@[0]);
            }
        }
        let mut v: Vec<char> = Vec::new();
        v.push('/');
        crate::text::extend(&mut v, &t);
        assert(v@ =~= seq!['/'] + t@);
        v
    };
    let stripped = trim_end_matches(&with_slash, '/');
    if stripped.len() == 0 {
        DEFAULT_PATH.to_string()
    } else {
        to_string(&stripped)
    }
}

/// The normalized path starts with `/` and does not end with `/`.
pub proof fn law_normalized_path_shape(raw: Seq<char>)
    ensures
        normalized_path(raw).len() > 0,
        normalized_path(raw)[0] == '/',
        normalized_path(raw).last() != '/',
{
    reveal_strlit("/__fusion/monitor");
    let w = slashed_path(raw);
    crate::naming::lemma_trim_end_char(w, '/');
    let st = trim_end_char(w, '/');
    if st.len() > 0 {
        assert(w[0] == '/') by {
            let t = trim_ws(raw);
            if t.len() > 0 && has_prefix(t, seq!['/']) {
                assert(t.take(1)[0] == t[0]);
            }
        }
        assert(st[0] == w.take(st.len() as int)[0]);
    }
}

/// Normalizing twice gives the same path as normalizing once, unless the
/// once-normalized path ends in whitespace (which a second pass trims).
pub proof fn law_normalize_path_idempotent(raw: Seq<char>)
    requires
        !is_whitespace(normalized_path(raw).last()),
    ensures
        normalized_path(normalized_path(raw)) == normalized_path(raw),
{
    let r = normalized_path(raw);
    law_normalized_path_shape(raw);
    assert(trim_ws(r) == r) by {
        assert(crate::text::trim_end_ws(r) == r);
        assert(!is_whitespace(r[0]));
    }
    assert(has_prefix(r, seq!['/'])) by {
        assert(r.take(1) =~= seq!['/']);
    }
    assert(slashed_path(r) == r);
    crate::naming::lemma_trim_end_char_noop(r, '/');
}

/// The process-wide monitor setting as one value: what `configure`, `current`,
/// `enabled`, `path` and `reset` read and write.
pub struct MonitorState {
    cfg: MonitorConfig,
}

impl MonitorState {
    /// The configuration in force.
    pub closed spec fn config(&self) -> (bool, Seq<char>) {
        (self.cfg.enabled, self.cfg.path@)
    }

    /// State holding the defaults (monitor off, default path).
    pub fn new() -> (s: Self)
        ensures
            s.config() == (false, DEFAULT_PATH@),
    {
        MonitorState { cfg: MonitorConfig::default() }
    }

    /// Replace the monitor config.
    pub fn configure(&mut self, cfg: MonitorConfig)
        ensures
            final(self).config() == (cfg.enabled, cfg.path@),
    {
        self.cfg = cfg;
    }

    /// Install monitor settings from Fusion settings.
    pub fn configure_from_settings(&mut self, settings: &Settings)
        ensures
            final(self).config() == monitor_from(settings@),
    {
        self.configure(MonitorConfig::from_settings(settings));
    }

    /// Current monitor config (defaults if never configured).
    pub fn current(&self) -> (c: MonitorConfig)
        ensures
            (c.enabled, c.path@) == self.config(),
    {
        self.cfg.clone()
    }

    /// Whether the monitor should be mounted.
    pub fn enabled(&self) -> (b: bool)
        ensures
            b == self.config().0,
    {
        self.cfg.enabled
    }

    /// Monitor UI path (JSON at `{path}/json`).
    pub fn path(&self) -> (p: String)
        ensures
            p@ == self.config().1,
    {
        self.cfg.path.clone()
    }

    /// Reset monitor config to the defaults.
    pub fn reset(&mut self)
        ensures
            final(self).config() == (false, DEFAULT_PATH@),
    {
        self.cfg = MonitorConfig::default();
    }
}

} // verus!
