//! Runtime settings shared by every language binding, loaded from
//! `fusion.<env>.json`: key normalisation, `${ENV}`-style placeholders
//! (a value that is an upper-case name is replaced by that environment
//! variable), plain and dotted lookups, and merging.
//!
//! Finding and reading the file, and reading the process environment, are
//! the host's part: `Settings` holds a snapshot of the environment it was
//! given, and `load_json_text` takes the file's text.

use vstd::prelude::*;

use crate::decimal::{parse_u64, parse_u64_exec};
use crate::http_error::text_map;
use crate::json::{
    items_view, json_error, json_read, lemma_items_view, lemma_members_view, member,
    members_view, read_json, write_json, Json, JsonValue,
};
use crate::order::{lemma_sorted_listing, lemma_sorted_unique, listing, seq_lt, sorted_insert, sorted_keys};
use crate::serialize::header_text;
use crate::strmap::{keys_unique, lemma_map_of_at, map_of, StrMap};
use crate::text::{
    ascii_lower_seq, ascii_lowercase, chars_eq, chars_of, extend, replace, replace_all, split_char,
    to_string, trim, trim_ws,
};

verus! {

// ─── Keys and placeholders ──────────────────────────────────────────────────

/// `key` trimmed, with `-` as `_`, in ASCII lowercase.
pub open spec fn normalized_key(key: Seq<char>) -> Seq<char> {
    ascii_lower_seq(replace_all(trim_ws(key), seq!['-'], seq!['_']))
}

/// Normalise a settings key: trimmed, `-` as `_`, ASCII lowercase.
pub fn normalize_key(key: &str) -> (r: String)
    ensures
        r@ == normalized_key(key@),
{
    let t = trim(&chars_of(key));
    let dash = vec!['-'];
    let underscore = vec!['_'];
    let replaced = replace(&t, &dash, &underscore);
    assert(dash@ =~= seq!['-']);
    assert(underscore@ =~= seq!['_']);
    to_string(&ascii_lowercase(&replaced))
}

/// `-` read as `_`.
pub open spec fn dash_to_underscore(c: char) -> char {
    if c == '-' {
        '_'
    } else {
        c
    }
}

proof fn lemma_replace_dash(s: Seq<char>)
    ensures
        replace_all(s, seq!['-'], seq!['_']) == s.map_values(|c: char| dash_to_underscore(c)),
    decreases s.len(),
{
    if s.len() > 0 {
        lemma_replace_dash(s.skip(1));
        assert(s.take(1) =~= seq![s[0]]);
        assert(s.map_values(|c: char| dash_to_underscore(c)) =~= seq![dash_to_underscore(s[0])] + s.skip(1).map_values(
            |c: char| dash_to_underscore(c),
        ));
    } else {
        assert(s.map_values(|c: char| dash_to_underscore(c)) =~= Seq::<char>::empty());
    }
}

/// A normalised settings key normalises to itself, so the keys listed by
/// `Settings::keys` are already in normal form.
pub proof fn law_normalized_key_idempotent(key: Seq<char>)
    ensures
        normalized_key(normalized_key(key)) == normalized_key(key),
{
    let t = trim_ws(key);
    let m = t.map_values(|c: char| dash_to_underscore(c));
    let y = ascii_lower_seq(m);
    lemma_replace_dash(t);
    crate::text::lemma_trim_ws_ends(key);
    assert(crate::text::ws_free_ends(m));
    crate::text::lemma_ascii_lower_seq(m);
    crate::text::lemma_trim_ws_noop(y);
    lemma_replace_dash(y);
    let z = y.map_values(|c: char| dash_to_underscore(c));
    assert forall|i: int| 0 <= i < y.len() implies #[trigger] z[i] == y[i] by {
        crate::text::lemma_ascii_lower_char(m[i]);
    }
    assert(z =~= y);
}

/// A string naming an environment variable: at least two characters, each
/// an ASCII upper-case letter or `_`.
pub open spec fn is_placeholder(s: Seq<char>) -> bool {
    s.len() > 1 && forall|i: int| 0 <= i < s.len() ==> ('A' <= #[trigger] s[i] && s[i] <= 'Z') || s[i] == '_'
}

fn placeholder(s: &str) -> (b: bool)
    ensures
        b == is_placeholder(s@),
{
    let c = chars_of(s);
    if c.len() <= 1 {
        return false;
    }
    let mut i: usize = 0;
    while i < c.len()
        invariant
            i <= c.len(),
            c@ == s@,
            forall|j: int| 0 <= j < i ==> ('A' <= #[trigger] c@[j] && c@[j] <= 'Z') || c@[j] == '_',
        decreases c.len() - i,
    {
        if !(('A' <= c[i] && c[i] <= 'Z') || c[i] == '_') {
            assert(!(('A' <= s@[i as int] && s@[i as int] <= 'Z') || s@[i as int] == '_'));
            return false;
        }
        i += 1;
    }
    true
}

/// `v` with every placeholder string that names a variable of `env`
/// replaced by the variable's value, inside arrays and objects too.
pub open spec fn resolved(v: Json, env: Map<Seq<char>, Seq<char>>) -> Json
    decreases v, 1nat,
{
    match v {
        Json::Str(s) => if is_placeholder(s) && env.contains_key(s) {
            Json::Str(env[s])
        } else {
            v
        },
        Json::Arr(items) => Json::Arr(resolved_items(items, env)),
        Json::Obj(ms) => Json::Obj(resolved_members(ms, env)),
        _ => v,
    }
}

/// `resolved` on each item.
pub open spec fn resolved_items(items: Seq<Json>, env: Map<Seq<char>, Seq<char>>) -> Seq<Json>
    decreases items, 0nat,
{
    if items.len() == 0 {
        Seq::empty()
    } else {
        resolved_items(items.drop_last(), env).push(resolved(items.last(), env))
    }
}

/// `resolved` on each member's value.
pub open spec fn resolved_members(ms: Seq<(Seq<char>, Json)>, env: Map<Seq<char>, Seq<char>>) -> Seq<(Seq<char>, Json)>
    decreases ms, 0nat,
{
    if ms.len() == 0 {
        Seq::empty()
    } else {
        resolved_members(ms.drop_last(), env).push((ms.last().0, resolved(ms.last().1, env)))
    }
}

proof fn lemma_resolved_items(items: Seq<Json>, env: Map<Seq<char>, Seq<char>>)
    ensures
        resolved_items(items, env).len() == items.len(),
        forall|i: int| 0 <= i < items.len() ==> #[trigger] resolved_items(items, env)[i] == resolved(items[i], env),
    decreases items.len(),
{
    if items.len() > 0 {
        lemma_resolved_items(items.drop_last(), env);
    }
}

proof fn lemma_resolved_members(ms: Seq<(Seq<char>, Json)>, env: Map<Seq<char>, Seq<char>>)
    ensures
        resolved_members(ms, env).len() == ms.len(),
        forall|i: int| 0 <= i < ms.len() ==> #[trigger] resolved_members(ms, env)[i] == (ms[i].0, resolved(ms[i].1, env)),
    decreases ms.len(),
{
    if ms.len() > 0 {
        lemma_resolved_members(ms.drop_last(), env);
    }
}

/// `value` with environment placeholders resolved against `env`.
pub fn resolve_value(value: &JsonValue, env: &StrMap<String>) -> (r: JsonValue)
    ensures
        r@ == resolved(value@, text_map(env@)),
    decreases value,
{
    let ghost e = text_map(env@);
    match value {
        JsonValue::String(s) => {
            if placeholder(s.as_str()) {
                if let Some(x) = env.get(s.as_str()) {
                    return JsonValue::String(x.clone());
                }
            }
            JsonValue::String(s.clone())
        },
        JsonValue::Array(items) => {
            let mut out: Vec<JsonValue> = Vec::new();
            let mut i: usize = 0;
            while i < items.len()
                invariant
                    i <= items.len(),
                    *value == JsonValue::Array(*items),
                    e == text_map(env@),
                    out@.len() == i,
                    forall|j: int| 0 <= j < i ==> #[trigger] out@[j]@ == resolved(items@[j]@, e),
                decreases items.len() - i,
            {
                proof {
                    broadcast use vstd::std_specs::vec::axiom_vec_index_decreases;
                    assert(decreases_to!(*value => (*value)->Array_0));
                    assert(decreases_to!(items => items[i as int]));
                }
                out.push(resolve_value(&items[i], env));
                i += 1;
            }
            proof {
                lemma_items_view(out@);
                lemma_items_view(items@);
                lemma_resolved_items(items_view(items@), e);
                assert(items_view(out@) =~= resolved_items(items_view(items@), e));
            }
            JsonValue::Array(out)
        },
        JsonValue::Object(ms) => {
            let mut out: Vec<(String, JsonValue)> = Vec::new();
            let mut i: usize = 0;
            while i < ms.len()
                invariant
                    i <= ms.len(),
                    *value == JsonValue::Object(*ms),
                    e == text_map(env@),
                    out@.len() == i,
                    forall|j: int| 0 <= j < i ==> #[trigger] out@[j].0@ == ms@[j].0@ && out@[j].1@ == resolved(ms@[j].1@, e),
                decreases ms.len() - i,
            {
                proof {
                    broadcast use vstd::std_specs::vec::axiom_vec_index_decreases;
                    assert(decreases_to!(*value => (*value)->Object_0));
                    assert(decreases_to!(ms => ms[i as int]));
                    assert(decreases_to!(ms[i as int] => ms[i as int].1));
                }
                out.push((ms[i].0.clone(), resolve_value(&ms[i].1, env)));
                i += 1;
            }
            proof {
                lemma_members_view(out@);
                lemma_members_view(ms@);
                lemma_resolved_members(members_view(ms@), e);
                assert(members_view(out@) =~= resolved_members(members_view(ms@), e));
            }
            JsonValue::Object(out)
        },
        _ => value.clone(),
    }
}

// ─── Lookups ────────────────────────────────────────────────────────────────

/// The value of the first member whose key normalises to `n`.
pub open spec fn first_normalized(ms: Seq<(Seq<char>, Json)>, n: Seq<char>) -> Option<Json>
    decreases ms.len(),
{
    if ms.len() == 0 {
        None
    } else if normalized_key(ms[0].0) == n {
        Some(ms[0].1)
    } else {
        first_normalized(ms.drop_first(), n)
    }
}

/// One step of a dotted lookup: member `part` of an object, else its first
/// member whose key normalises like `part`.
pub open spec fn child(cursor: Json, part: Seq<char>) -> Option<Json> {
    match cursor {
        Json::Obj(ms) => match member(ms, part) {
            Some(v) => Some(v),
            None => first_normalized(ms, normalized_key(part)),
        },
        _ => None,
    }
}

/// The value reached from `cursor` along `parts`.
pub open spec fn dig(cursor: Json, parts: Seq<Seq<char>>) -> Option<Json>
    decreases parts.len(),
{
    if parts.len() == 0 {
        Some(cursor)
    } else {
        match child(cursor, parts[0]) {
            Some(next) => dig(next, parts.drop_first()),
            None => None,
        }
    }
}

/// `s` holds the character `c`.
pub open spec fn has_char(s: Seq<char>, c: char) -> bool {
    exists|i: int| 0 <= i < s.len() && s[i] == c
}

fn contains_char(s: &str, c: char) -> (b: bool)
    ensures
        b == has_char(s@, c),
{
    let v = chars_of(s);
    let mut i: usize = 0;
    while i < v.len()
        invariant
            i <= v.len(),
            v@ == s@,
            forall|j: int| 0 <= j < i ==> v@[j] != c,
        decreases v.len() - i,
    {
        if v[i] == c {
            return true;
        }
        i += 1;
    }
    false
}

fn first_normalized_exec<'a>(ms: &'a Vec<(String, JsonValue)>, n: &str) -> (r: Option<&'a JsonValue>)
    ensures
        match r {
            Some(v) => first_normalized(members_view(ms@), n@) == Some(v@),
            None => first_normalized(members_view(ms@), n@) is None,
        },
{
    let nc = chars_of(n);
    let ghost view_ms = members_view(ms@);
    proof {
        lemma_members_view(ms@);
    }
    let mut i: usize = 0;
    assert(view_ms.skip(0) =~= view_ms);
    while i < ms.len()
        invariant
            i <= ms.len(),
            nc@ == n@,
            view_ms == members_view(ms@),
            view_ms.len() == ms@.len(),
            forall|j: int| 0 <= j < ms@.len() ==> #[trigger] view_ms[j] == (ms@[j].0@, ms@[j].1@),
            first_normalized(view_ms, n@) == first_normalized(view_ms.skip(i as int), n@),
        decreases ms.len() - i,
    {
        let k = normalize_key(ms[i].0.as_str());
        assert(view_ms.skip(i as int)[0] == view_ms[i as int]);
        assert(view_ms.skip(i as int).len() > 0);
        if chars_eq(&chars_of(k.as_str()), &nc) {
            return Some(&ms[i].1);
        }
        assert(view_ms.skip(i as int).drop_first() =~= view_ms.skip(i + 1));
        i += 1;
    }
    assert(view_ms.skip(i as int) =~= Seq::<(Seq<char>, Json)>::empty());
    None
}

fn child_exec<'a>(cursor: &'a JsonValue, part: &str) -> (r: Option<&'a JsonValue>)
    ensures
        match r {
            Some(v) => child(cursor@, part@) == Some(v@),
            None => child(cursor@, part@) is None,
        },
{
    match cursor {
        JsonValue::Object(ms) => match crate::json::find_member(ms, part) {
            Some(v) => Some(v),
            None => {
                let n = normalize_key(part);
                first_normalized_exec(ms, n.as_str())
            },
        },
        _ => None,
    }
}

fn dig_exec<'a>(root: &'a JsonValue, parts: &Vec<String>) -> (r: Option<&'a JsonValue>)
    ensures
        match r {
            Some(v) => dig(root@, parts@.map_values(|p: String| p@)) == Some(v@),
            None => dig(root@, parts@.map_values(|p: String| p@)) is None,
        },
{
    let ghost ps = parts@.map_values(|p: String| p@);
    let mut cursor = root;
    let mut i: usize = 0;
    assert(ps.skip(0) =~= ps);
    while i < parts.len()
        invariant
            i <= parts.len(),
            ps == parts@.map_values(|p: String| p@),
            dig(root@, ps) == dig(cursor@, ps.skip(i as int)),
        decreases parts.len() - i,
    {
        assert(ps.skip(i as int)[0] == parts@[i as int]@);
        assert(ps.skip(i as int).drop_first() =~= ps.skip(i + 1));
        match child_exec(cursor, parts[i].as_str()) {
            Some(next) => {
                cursor = next;
            },
            None => {
                return None;
            },
        }
        i += 1;
    }
    assert(ps.skip(i as int) =~= Seq::<Seq<char>>::empty());
    Some(cursor)
}

// ─── Settings ───────────────────────────────────────────────────────────────

/// The mathematical settings.
pub struct SettingsView {
    /// Stored keys (as given and normalised) and their values.
    pub config: Map<Seq<char>, Json>,
    /// The whole JSON object last loaded.
    pub raw: Json,
    /// The environment name (`dev` unless set).
    pub env_name: Seq<char>,
    /// The files loaded, in order.
    pub loaded_from: Seq<Seq<char>>,
    /// Settings are loaded (or were merged into).
    pub loaded: bool,
    /// The environment snapshot that placeholders are resolved against.
    pub environment: Map<Seq<char>, Seq<char>>,
}

/// What `get` returns for `key`: a dotted key is dug out of the raw JSON,
/// then out of the stored keys; a plain key is looked up as given, then
/// normalised, then against normalised stored keys in key order.
/// Placeholders in the result are resolved.
pub open spec fn setting(v: SettingsView, key: Seq<char>) -> Option<Json> {
    let ms = listing(v.config);
    let found = if has_char(key, '.') {
        let parts = split_char(key, '.');
        match dig(v.raw, parts) {
            Some(x) => Some(x),
            None => dig(Json::Obj(ms), parts),
        }
    } else {
        let n = normalized_key(key);
        match member(ms, key) {
            Some(x) => Some(x),
            None => match member(ms, n) {
                Some(x) => Some(x),
                None => first_normalized(ms, n),
            },
        }
    };
    match found {
        Some(x) => Some(resolved(x, v.environment)),
        None => None,
    }
}

/// The text of an optional JSON value.
pub open spec fn opt_json(r: Option<JsonValue>) -> Option<Json> {
    match r {
        Some(x) => Some(x@),
        None => None,
    }
}

/// `get_str`: a string as is, anything else as its JSON text.
pub open spec fn setting_str(v: SettingsView, key: Seq<char>) -> Option<Seq<char>> {
    match setting(v, key) {
        Some(x) => Some(header_text(x)),
        None => None,
    }
}

/// `get_u64`: an integer (a negative one wraps), or a string that parses as `u64`.
pub open spec fn setting_u64(v: SettingsView, key: Seq<char>) -> Option<u64> {
    match setting(v, key) {
        Some(Json::PosInt(n)) => Some(n),
        Some(Json::NegInt(i)) => Some(i as u64),
        Some(Json::Str(s)) => parse_u64(s),
        _ => None,
    }
}

/// `get_bool`: a boolean; a string is `true` for `1`, `true`, `yes`, `on`
/// (any ASCII case); a number is `true` when it is a non-zero unsigned integer.
pub open spec fn setting_bool(v: SettingsView, key: Seq<char>) -> Option<bool> {
    match setting(v, key) {
        Some(Json::Bool(b)) => Some(b),
        Some(Json::Str(s)) => Some(crate::coerce::truthy(ascii_lower_seq(s))),
        Some(Json::PosInt(n)) => Some(n != 0),
        Some(Json::NegInt(_)) => Some(false),
        Some(Json::Float(_)) => Some(false),
        _ => None,
    }
}

/// JSON view of a map of stored values.
pub open spec fn json_values(m: Map<Seq<char>, JsonValue>) -> Map<Seq<char>, Json> {
    m.map_values(|x: JsonValue| x@)
}

/// Sorted members list their map.
pub proof fn lemma_members_listing(ps: Seq<(String, JsonValue)>)
    requires
        sorted_keys(ps),
    ensures
        listing(json_values(map_of(ps))) == members_view(ps),
{
    lemma_sorted_unique(ps);
    let jps = ps.map_values(|p: (String, JsonValue)| (p.0, p.1@));
    assert(keys_unique(jps));
    assert(sorted_keys(jps)) by {
        assert forall|i: int, j: int| 0 <= i < j < jps.len() implies seq_lt(#[trigger] jps[i].0@, #[trigger] jps[j].0@) by {
            assert(seq_lt(ps[i].0@, ps[j].0@));
        }
    }
    assert forall|k: Seq<char>| #[trigger] map_of(jps).contains_key(k) <==> json_values(map_of(ps)).contains_key(k) by {
        if map_of(jps).contains_key(k) {
            let i = choose|i: int| 0 <= i < jps.len() && jps[i].0@ == k;
            assert(ps[i].0@ == k);
        }
        if map_of(ps).contains_key(k) {
            let i = choose|i: int| 0 <= i < ps.len() && ps[i].0@ == k;
            assert(jps[i].0@ == k);
        }
    }
    assert forall|k: Seq<char>| #[trigger] map_of(jps).contains_key(k) implies map_of(jps)[k] == json_values(map_of(ps))[k] by {
        let i = choose|i: int| 0 <= i < jps.len() && jps[i].0@ == k;
        lemma_map_of_at(jps, i);
        lemma_map_of_at(ps, i);
    }
    assert(map_of(jps) =~= json_values(map_of(ps)));
    lemma_sorted_listing(jps);
    lemma_members_view(ps);
    assert(crate::order::keyed(jps) =~= members_view(ps));
}

/// The stored map after merging the first `n` of `values` in order: each
/// key is stored as given and under its normalised form.
pub open spec fn merged(m: Map<Seq<char>, Json>, values: Seq<(Seq<char>, Json)>, n: nat) -> Map<Seq<char>, Json>
    decreases n,
{
    if n == 0 {
        m
    } else {
        let p = values[n - 1];
        merged(m, values, (n - 1) as nat).insert(p.0, p.1).insert(normalized_key(p.0), p.1)
    }
}

/// The members other than `env` and `commands`, in order.
pub open spec fn without_env_commands(ms: Seq<(Seq<char>, Json)>) -> Seq<(Seq<char>, Json)>
    decreases ms.len(),
{
    if ms.len() == 0 {
        Seq::empty()
    } else {
        let rest = without_env_commands(ms.drop_last());
        if ms.last().0 == "env"@ || ms.last().0 == "commands"@ {
            rest
        } else {
            rest.push(ms.last())
        }
    }
}

/// What a settings file's object merges into the stored keys: its `config`
/// object, or else all its members but `env` and `commands`.
pub open spec fn merge_source(ms: Seq<(Seq<char>, Json)>) -> Seq<(Seq<char>, Json)> {
    match member(ms, "config"@) {
        Some(Json::Obj(c)) => c,
        _ => without_env_commands(ms),
    }
}

/// The error `load_json_text` reports for the file `path` holding `text`, if any.
pub open spec fn load_error(path: Seq<char>, text: Seq<char>) -> Option<Seq<char>> {
    match json_read(text) {
        None => Some("invalid settings json "@ + path + ": "@ + json_error(text)),
        Some(Json::Obj(_)) => None,
        Some(_) => Some("settings json must be an object: "@ + path),
    }
}

/// The settings after loading the object `ms` from the file `resolved_path`.
pub open spec fn loaded_settings(v: SettingsView, ms: Seq<(Seq<char>, Json)>, resolved_path: Seq<char>) -> SettingsView {
    let src = merge_source(ms);
    let c = merged(v.config, src, src.len());
    SettingsView {
        config: match member(ms, "commands"@) {
            Some(Json::Obj(cmds)) => if c.contains_key("commands"@) {
                c
            } else {
                c.insert("commands"@, Json::Obj(cmds))
            },
            _ => c,
        },
        raw: Json::Obj(ms),
        env_name: match member(ms, "env"@) {
            Some(Json::Str(e)) => e,
            _ => v.env_name,
        },
        loaded_from: v.loaded_from.push(resolved_path),
        loaded: true,
        environment: v.environment,
    }
}

proof fn lemma_insert_view(ps: Seq<(String, JsonValue)>, qs: Seq<(String, JsonValue)>, k: String, x: JsonValue)
    requires
        map_of(qs) == map_of(ps).insert(k@, x),
    ensures
        json_values(map_of(qs)) == json_values(map_of(ps)).insert(k@, x@),
{
    assert(json_values(map_of(qs)) =~= json_values(map_of(ps)).insert(k@, x@));
}

/// `n` is the normalised form of some stored key.
pub open spec fn key_listed(config: Map<Seq<char>, Json>, n: Seq<char>) -> bool {
    exists|k: Seq<char>| #[trigger] config.contains_key(k) && normalized_key(k) == n
}

/// Runtime settings shared by every language binding.
#[derive(Debug)]
pub struct Settings {
    config: Vec<(String, JsonValue)>,
    raw: JsonValue,
    env_name: String,
    loaded_from: Vec<String>,
    auto_loaded: bool,
    environment: StrMap<String>,
}

impl Settings {
    #[verifier::type_invariant]
    closed spec fn keys_in_order(&self) -> bool {
        sorted_keys(self.config@)
    }

    /// The mathematical settings.
    pub closed spec fn view(&self) -> SettingsView {
        SettingsView {
            config: json_values(map_of(self.config@)),
            raw: self.raw@,
            env_name: self.env_name@,
            loaded_from: self.loaded_from@.map_values(|p: String| p@),
            loaded: self.auto_loaded,
            environment: text_map(self.environment@),
        }
    }

    /// Empty settings for the environment `vars`: the environment name is
    /// `FUSION_ENV` there, else `dev`.
    pub fn from_environment(vars: StrMap<String>) -> (s: Settings)
        ensures
            s@.config == Map::<Seq<char>, Json>::empty(),
            s@.raw == Json::Obj(Seq::empty()),
            s@.env_name == (if vars@.contains_key("FUSION_ENV"@) {
                vars@["FUSION_ENV"@]@
            } else {
                "dev"@
            }),
            s@.loaded_from == Seq::<Seq<char>>::empty(),
            !s@.loaded,
            s@.environment == text_map(vars@),
    {
        let env_name = match vars.get("FUSION_ENV") {
            Some(e) => e.clone(),
            None => "dev".to_string(),
        };
        let s = Settings {
            config: Vec::new(),
            raw: JsonValue::Object(Vec::new()),
            env_name,
            loaded_from: Vec::new(),
            auto_loaded: false,
            environment: vars,
        };
        proof {
            lemma_members_view(Seq::<(String, JsonValue)>::empty());
        }
        assert(s@.config =~= Map::<Seq<char>, Json>::empty());
        assert(s@.raw == Json::Obj(Seq::empty()));
        assert(s@.loaded_from =~= Seq::<Seq<char>>::empty());
        s
    }

    /// Empty settings with an empty environment (environment name `dev`).
    pub fn new() -> (s: Settings)
        ensures
            s@.config == Map::<Seq<char>, Json>::empty(),
            s@.raw == Json::Obj(Seq::empty()),
            s@.env_name == "dev"@,
            s@.loaded_from == Seq::<Seq<char>>::empty(),
            !s@.loaded,
            s@.environment == Map::<Seq<char>, Seq<char>>::empty(),
    {
        let s = Self::from_environment(StrMap::new());
        assert(s@.environment =~= Map::<Seq<char>, Seq<char>>::empty());
        s
    }

    /// The environment name.
    pub fn env(&self) -> (r: &str)
        ensures
            r@ == self@.env_name,
    {
        self.env_name.as_str()
    }

    /// The files loaded, in order.
    pub fn loaded_from(&self) -> (r: &Vec<String>)
        ensures
            r@.map_values(|p: String| p@) == self@.loaded_from,
    {
        &self.loaded_from
    }

    /// The whole JSON object last loaded.
    pub fn raw(&self) -> (r: &JsonValue)
        ensures
            r@ == self@.raw,
    {
        &self.raw
    }

    /// The stored keys and values, in key order.
    pub fn config(&self) -> (r: &Vec<(String, JsonValue)>)
        ensures
            members_view(r@) == listing(self@.config),
    {
        proof {
            use_type_invariant(self);
            lemma_members_listing(self.config@);
        }
        &self.config
    }

    /// Whether settings are loaded (or were merged into).
    pub fn is_loaded(&self) -> (b: bool)
        ensures
            b == self@.loaded,
    {
        self.auto_loaded
    }

    fn get_dotted(&self, key: &str) -> (r: Option<JsonValue>)
        requires
            has_char(key@, '.'),
        ensures
            opt_json(r) == setting(self@, key@),
    {
        proof {
            use_type_invariant(self);
            lemma_members_listing(self.config@);
        }
        let pieces = crate::request::split_on(&chars_of(key), '.');
        let mut parts: Vec<String> = Vec::new();
        let mut i: usize = 0;
        while i < pieces.len()
            invariant
                i <= pieces.len(),
                parts@.len() == i,
                forall|j: int| 0 <= j < i ==> #[trigger] parts@[j]@ == pieces@[j]@,
            decreases pieces.len() - i,
        {
            parts.push(to_string(&pieces[i]));
            i += 1;
        }
        assert(parts@.map_values(|p: String| p@) =~= pieces@.map_values(|v: Vec<char>| v@));
        if let Some(v) = dig_exec(&self.raw, &parts) {
            return Some(resolve_value(v, &self.environment));
        }
        let cfg = JsonValue::Object(crate::json::clone_members(&self.config));
        match dig_exec(&cfg, &parts) {
            Some(v) => Some(resolve_value(v, &self.environment)),
            None => None,
        }
    }

    /// The setting `key` (see `setting`).
    pub fn get(&self, key: &str) -> (r: Option<JsonValue>)
        ensures
            opt_json(r) == setting(self@, key@),
    {
        proof {
            use_type_invariant(self);
            lemma_members_listing(self.config@);
        }
        if contains_char(key, '.') {
            return self.get_dotted(key);
        }
        let n = normalize_key(key);
        let found = match crate::json::find_member(&self.config, key) {
            Some(v) => Some(v),
            None => match crate::json::find_member(&self.config, n.as_str()) {
                Some(v) => Some(v),
                None => first_normalized_exec(&self.config, n.as_str()),
            },
        };
        match found {
            Some(v) => Some(resolve_value(v, &self.environment)),
            None => None,
        }
    }

    /// The setting `key`, or `default`.
    pub fn get_or(&self, key: &str, default: JsonValue) -> (r: JsonValue)
        ensures
            r@ == match setting(self@, key@) {
                Some(x) => x,
                None => default@,
            },
    {
        match self.get(key) {
            Some(v) => v,
            None => default,
        }
    }

    /// The setting `key` as text.
    pub fn get_str(&self, key: &str) -> (r: Option<String>)
        ensures
            match r {
                Some(t) => setting_str(self@, key@) == Some(t@),
                None => setting_str(self@, key@) is None,
            },
    {
        match self.get(key) {
            Some(JsonValue::String(s)) => Some(s),
            Some(other) => Some(write_json(&other)),
            None => None,
        }
    }

    /// The setting `key` as an unsigned integer.
    pub fn get_u64(&self, key: &str) -> (r: Option<u64>)
        ensures
            r == setting_u64(self@, key@),
    {
        match self.get(key) {
            Some(v) => match v.as_u64() {
                Some(n) => Some(n),
                None => match &v {
                    JsonValue::Number(crate::json::JsonNumber::NegInt(i)) => Some(*i as u64),
                    JsonValue::String(s) => parse_u64_exec(&chars_of(s.as_str())),
                    _ => None,
                },
            },
            None => None,
        }
    }

    /// The setting `key` as a boolean.
    pub fn get_bool(&self, key: &str) -> (r: Option<bool>)
        ensures
            r == setting_bool(self@, key@),
    {
        match self.get(key) {
            Some(JsonValue::Bool(b)) => Some(b),
            Some(JsonValue::String(s)) => {
                let lower = ascii_lowercase(&chars_of(s.as_str()));
                Some(crate::coerce::is_truthy(&lower))
            },
            Some(JsonValue::Number(n)) => Some(
                match n {
                    crate::json::JsonNumber::PosInt(u) => u != 0,
                    _ => false,
                },
            ),
            _ => None,
        }
    }

    /// Whether the setting `key` exists.
    pub fn contains(&self, key: &str) -> (b: bool)
        ensures
            b == setting(self@, key@) is Some,
    {
        self.get(key).is_some()
    }

    /// `host`, default `127.0.0.1`.
    pub fn host(&self) -> (r: String)
        ensures
            r@ == match setting_str(self@, "host"@) {
                Some(t) => t,
                None => "127.0.0.1"@,
            },
    {
        match self.get_str("host") {
            Some(h) => h,
            None => "127.0.0.1".to_string(),
        }
    }

    /// `port`, default `3000` (truncated to 16 bits).
    pub fn port(&self) -> (r: u16)
        ensures
            r == match setting_u64(self@, "port"@) {
                Some(n) => n as u16,
                None => 3000u16,
            },
    {
        match self.get_u64("port") {
            Some(n) => n as u16,
            None => 3000,
        }
    }

    /// `debug`, default `false`.
    pub fn debug(&self) -> (r: bool)
        ensures
            r == match setting_bool(self@, "debug"@) {
                Some(b) => b,
                None => false,
            },
    {
        match self.get_bool("debug") {
            Some(b) => b,
            None => false,
        }
    }

    /// Directory for templates: `templates.dir`, else `templates_dir`, else `templates`.
    pub fn templates_dir(&self) -> (r: String)
        ensures
            r@ == match setting_str(self@, "templates.dir"@) {
                Some(t) => t,
                None => match setting_str(self@, "templates_dir"@) {
                    Some(t) => t,
                    None => "templates"@,
                },
            },
    {
        match self.get_str("templates.dir") {
            Some(d) => d,
            None => match self.get_str("templates_dir") {
                Some(d) => d,
                None => "templates".to_string(),
            },
        }
    }
}

impl Settings {
    /// Stores each of `values`, in order, under its key as given and under
    /// its normalised key; settings count as loaded afterwards.
    pub fn merge_map(&mut self, values: Vec<(String, JsonValue)>)
        ensures
            final(self)@ == (SettingsView {
                config: merged(old(self)@.config, members_view(values@), values@.len()),
                loaded: true,
                ..old(self)@
            }),
    {
        proof {
            use_type_invariant(&*self);
        }
        let ghost start = self@;
        let ghost vs = members_view(values@);
        proof {
            lemma_members_view(values@);
        }
        let mut config: Vec<(String, JsonValue)> = Vec::new();
        std::mem::swap(&mut config, &mut self.config);
        let mut i: usize = 0;
        while i < values.len()
            invariant
                i <= values.len(),
                sorted_keys(config@),
                vs == members_view(values@),
                vs.len() == values@.len(),
                forall|j: int| 0 <= j < values@.len() ==> #[trigger] vs[j] == (values@[j].0@, values@[j].1@),
                json_values(map_of(config@)) == merged(start.config, vs, i as nat),
            decreases values.len() - i,
        {
            let key = &values[i].0;
            let value = &values[i].1;
            let normalized = normalize_key(key.as_str());
            let ghost c0 = config@;
            sorted_insert(&mut config, key.clone(), value.clone());
            let ghost c1 = config@;
            sorted_insert(&mut config, normalized, value.clone());
            proof {
                assert(vs[i as int] == (key@, value@));
            }
            i += 1;
        }
        self.config = config;
        self.auto_loaded = true;
    }

    /// Forgets everything loaded: no keys, an empty raw object, no files,
    /// not loaded, and the environment name read again from the environment.
    pub fn clear(&mut self)
        ensures
            final(self)@ == (SettingsView {
                config: Map::empty(),
                raw: Json::Obj(Seq::empty()),
                env_name: if old(self)@.environment.contains_key("FUSION_ENV"@) {
                    old(self)@.environment["FUSION_ENV"@]
                } else {
                    "dev"@
                },
                loaded_from: Seq::empty(),
                loaded: false,
                environment: old(self)@.environment,
            }),
    {
        proof {
            use_type_invariant(&*self);
        }
        self.config = Vec::new();
        self.raw = JsonValue::Object(Vec::new());
        self.loaded_from = Vec::new();
        self.auto_loaded = false;
        self.env_name = match self.environment.get("FUSION_ENV") {
            Some(e) => e.clone(),
            None => "dev".to_string(),
        };
        proof {
            lemma_members_view(Seq::<(String, JsonValue)>::empty());
        }
        assert(self@.config =~= Map::<Seq<char>, Json>::empty());
        assert(self@.loaded_from =~= Seq::<Seq<char>>::empty());
    }

    /// Picks the environment name before looking for `fusion.<env>.json`:
    /// `env_name` when given, else `FUSION_ENV` from the environment, else
    /// the current name; returns it.
    pub fn select_env(&mut self, env_name: Option<&str>) -> (r: String)
        ensures
            final(self)@ == (SettingsView {
                env_name: match env_name {
                    Some(e) => e@,
                    None => if old(self)@.environment.contains_key("FUSION_ENV"@) {
                        old(self)@.environment["FUSION_ENV"@]
                    } else {
                        old(self)@.env_name
                    },
                },
                ..old(self)@
            }),
            r@ == final(self)@.env_name,
    {
        proof {
            use_type_invariant(&*self);
        }
        let name = match env_name {
            Some(e) => e.to_string(),
            None => match self.environment.get("FUSION_ENV") {
                Some(e) => e.clone(),
                None => self.env_name.clone(),
            },
        };
        self.env_name = name.clone();
        name
    }

    /// Marks settings as loaded without a file (none was found).
    pub fn mark_loaded(&mut self)
        ensures
            final(self)@ == (SettingsView { loaded: true, ..old(self)@ }),
    {
        proof {
            use_type_invariant(&*self);
        }
        self.auto_loaded = true;
    }

    /// Loads the settings file `path` whose text is `text`: the whole object
    /// becomes the raw settings, its `env` string the environment name, its
    /// `config` object (or else its other members) is merged, a `commands`
    /// object is stored when no `commands` key is, and `resolved_path` is
    /// recorded. Text that is not a JSON object is an error and changes nothing.
    pub fn load_json_text(&mut self, path: &str, resolved_path: &str, text: &str) -> (r: Result<(), String>)
        ensures
            match r {
                Ok(()) => load_error(path@, text@) is None && (json_read(text@) matches Some(Json::Obj(ms))
                    && final(self)@ == loaded_settings(old(self)@, ms, resolved_path@)),
                Err(m) => load_error(path@, text@) == Some(m@) && final(self)@ == old(self)@,
            },
    {
        let data = match read_json(text) {
            Ok(v) => v,
            Err(e) => {
                let mut m = chars_of("invalid settings json ");
                extend(&mut m, &chars_of(path));
                extend(&mut m, &chars_of(": "));
                extend(&mut m, &chars_of(e.as_str()));
                assert(m@ =~= "invalid settings json "@ + path@ + ": "@ + json_error(text@));
                return Err(to_string(&m));
            },
        };
        let map = match data {
            JsonValue::Object(ms) => ms,
            _ => {
                let mut m = chars_of("settings json must be an object: ");
                extend(&mut m, &chars_of(path));
                assert(m@ =~= "settings json must be an object: "@ + path@);
                return Err(to_string(&m));
            },
        };
        let ghost ms = members_view(map@);
        let ghost start = self@;
        proof {
            lemma_members_view(map@);
            use_type_invariant(&*self);
        }
        self.raw = JsonValue::Object(crate::json::clone_members(&map));
        if let Some(JsonValue::String(env)) = crate::json::find_member(&map, "env") {
            self.env_name = env.clone();
        }
        let ghost after_env = self@;
        match crate::json::find_member(&map, "config") {
            Some(JsonValue::Object(config)) => {
                let values = crate::json::clone_members(config);
                proof {
                    lemma_members_view(config@);
                    lemma_members_view(values@);
                }
                assert(merge_source(ms) == members_view(config@));
                self.merge_map(values);
            },
            _ => {
                let filtered = without_env_commands_exec(&map);
                proof {
                    lemma_members_view(filtered@);
                }
                assert(merge_source(ms) == without_env_commands(ms));
                self.merge_map(filtered);
            },
        }
        assert(self@.config == merged(start.config, merge_source(ms), merge_source(ms).len()));
        if let Some(JsonValue::Object(commands)) = crate::json::find_member(&map, "commands") {
            proof {
                use_type_invariant(&*self);
            }
            let mut config: Vec<(String, JsonValue)> = Vec::new();
            std::mem::swap(&mut config, &mut self.config);
            let present = has_pair_key(&config, "commands");
            let ghost c0 = json_values(map_of(config@));
            assert(present == c0.contains_key("commands"@));
            if !present {
                let cmds = JsonValue::Object(crate::json::clone_members(commands));
                let ghost cv = cmds@;
                let ghost before = config@;
                let name = "commands".to_string();
                let ghost name_g = name;
                let ghost cmds_g = cmds;
                sorted_insert(&mut config, name, cmds);
                proof {
                    lemma_insert_view(before, config@, name_g, cmds_g);
                }
                assert(json_values(map_of(config@)) == c0.insert("commands"@, cv));
            }
            self.config = config;
        }
        proof {
            use_type_invariant(&*self);
        }
        let mut files: Vec<String> = Vec::new();
        std::mem::swap(&mut files, &mut self.loaded_from);
        files.push(resolved_path.to_string());
        self.loaded_from = files;
        self.auto_loaded = true;
        proof {
            assert(self@.loaded_from =~= start.loaded_from.push(resolved_path@));
        }
        Ok(())
    }

    /// The normalised stored keys, each once, in increasing order.
    pub fn keys(&self) -> (r: Vec<String>)
        ensures
            forall|i: int, j: int| 0 <= i < j < r@.len() ==> seq_lt(#[trigger] r@[i]@, #[trigger] r@[j]@),
            forall|i: int| 0 <= i < r@.len() ==> #[trigger] key_listed(self@.config, r@[i]@),
            forall|k: Seq<char>| #[trigger] self@.config.contains_key(k) ==> exists|i: int| 0 <= i < r@.len() && #[trigger] r@[i]@ == normalized_key(k),
    {
        proof {
            use_type_invariant(self);
            lemma_sorted_unique(self.config@);
        }
        let mut acc: Vec<(String, ())> = Vec::new();
        let mut i: usize = 0;
        while i < self.config.len()
            invariant
                i <= self.config@.len(),
                sorted_keys(acc@),
                forall|x: Seq<char>| #[trigger] map_of(acc@).contains_key(x) <==> exists|j: int| 0 <= j < i && normalized_key(#[trigger] self.config@[j].0@) == x,
            decreases self.config@.len() - i,
        {
            let n = normalize_key(self.config[i].0.as_str());
            let ghost before = map_of(acc@);
            sorted_insert(&mut acc, n, ());
            assert forall|x: Seq<char>| #[trigger] map_of(acc@).contains_key(x) <==> exists|j: int| 0 <= j < i + 1 && normalized_key(#[trigger] self.config@[j].0@) == x by {
                if x == normalized_key(self.config@[i as int].0@) {
                    assert(0 <= i < i + 1 && normalized_key(self.config@[i as int].0@) == x);
                }
                if exists|j: int| 0 <= j < i + 1 && normalized_key(#[trigger] self.config@[j].0@) == x {
                    let j = choose|j: int| 0 <= j < i + 1 && normalized_key(self.config@[j].0@) == x;
                    if j < i {
                        assert(before.contains_key(x));
                    }
                }
            }
            i += 1;
        }
        proof {
            lemma_sorted_unique(acc@);
        }
        let mut r: Vec<String> = Vec::new();
        let mut j: usize = 0;
        while j < acc.len()
            invariant
                j <= acc@.len(),
                sorted_keys(acc@),
                keys_unique(acc@),
                forall|x: Seq<char>| #[trigger] map_of(acc@).contains_key(x) <==> exists|jj: int| 0 <= jj < self.config@.len() && normalized_key(#[trigger] self.config@[jj].0@) == x,
                r@.len() == j,
                forall|a: int| 0 <= a < j ==> #[trigger] r@[a]@ == acc@[a].0@,
            decreases acc@.len() - j,
        {
            r.push(acc[j].0.clone());
            j += 1;
        }
        proof {
            assert forall|a: int, b: int| 0 <= a < b < r@.len() implies seq_lt(#[trigger] r@[a]@, #[trigger] r@[b]@) by {
                assert(seq_lt(acc@[a].0@, acc@[b].0@));
            }
            assert forall|a: int| 0 <= a < r@.len() implies #[trigger] key_listed(self@.config, r@[a]@) by {
                lemma_map_of_at(acc@, a);
                assert(map_of(acc@).contains_key(acc@[a].0@));
                let jj = choose|jj: int| 0 <= jj < self.config@.len() && normalized_key(self.config@[jj].0@) == acc@[a].0@;
                lemma_map_of_at(self.config@, jj);
                assert(self@.config.contains_key(self.config@[jj].0@));
                assert(r@[a]@ == acc@[a].0@);
                assert(self@.config.contains_key(self.config@[jj].0@) && normalized_key(self.config@[jj].0@) == r@[a]@);
            }
            assert forall|k: Seq<char>| #[trigger] self@.config.contains_key(k) implies exists|a: int| 0 <= a < r@.len() && #[trigger] r@[a]@ == normalized_key(k) by {
                let jj = choose|jj: int| 0 <= jj < self.config@.len() && self.config@[jj].0@ == k;
                assert(map_of(acc@).contains_key(normalized_key(k)));
                let a = choose|a: int| 0 <= a < acc@.len() && acc@[a].0@ == normalized_key(k);
                assert(r@[a]@ == normalized_key(k));
            }
        }
        r
    }
}

/// Members of `ms` other than `env` and `commands`, in order.
fn without_env_commands_exec(ms: &Vec<(String, JsonValue)>) -> (r: Vec<(String, JsonValue)>)
    ensures
        members_view(r@) == without_env_commands(members_view(ms@)),
{
    let ghost mv = members_view(ms@);
    proof {
        lemma_members_view(ms@);
    }
    let mut out: Vec<(String, JsonValue)> = Vec::new();
    let mut i: usize = 0;
    proof {
        lemma_members_view(out@);
        assert(mv.take(0) =~= Seq::<(Seq<char>, Json)>::empty());
    }
    while i < ms.len()
        invariant
            i <= ms.len(),
            mv == members_view(ms@),
            mv.len() == ms@.len(),
            forall|j: int| 0 <= j < ms@.len() ==> #[trigger] mv[j] == (ms@[j].0@, ms@[j].1@),
            members_view(out@) == without_env_commands(mv.take(i as int)),
        decreases ms.len() - i,
    {
        assert(mv.take(i + 1).drop_last() =~= mv.take(i as int));
        assert(mv.take(i + 1).last() == mv[i as int]);
        let k = chars_of(ms[i].0.as_str());
        if !chars_eq(&k, &chars_of("env")) && !chars_eq(&k, &chars_of("commands")) {
            let ghost before = out@;
            out.push((ms[i].0.clone(), ms[i].1.clone()));
            proof {
                lemma_members_view(out@);
                lemma_members_view(before);
                assert(members_view(out@) =~= members_view(before).push(mv[i as int]));
            }
        }
        i += 1;
    }
    assert(mv.take(ms.len() as int) =~= mv);
    out
}

fn has_pair_key(ps: &Vec<(String, JsonValue)>, k: &str) -> (b: bool)
    ensures
        b == crate::strmap::has_key(ps@, k@),
{
    let kc = chars_of(k);
    let mut i: usize = 0;
    while i < ps.len()
        invariant
            i <= ps@.len(),
            kc@ == k@,
            forall|j: int| 0 <= j < i ==> ps@[j].0@ != k@,
        decreases ps@.len() - i,
    {
        if chars_eq(&chars_of(ps[i].0.as_str()), &kc) {
            return true;
        }
        i += 1;
    }
    false
}

/// Looking a key up in a listing of a map finds the map's value.
proof fn lemma_member_of_listing(s: Seq<(Seq<char>, Json)>, m: Map<Seq<char>, Json>, k: Seq<char>)
    requires
        crate::order::is_listing(s, m),
    ensures
        member(s, k) == (if m.contains_key(k) {
            Some(m[k])
        } else {
            None::<Json>
        }),
    decreases s.len(),
{
    if s.len() == 0 {
        if m.contains_key(k) {
            let i = choose|i: int| 0 <= i < s.len() && s[i].0 == k;
        }
    } else if s[0].0 != k {
        let t = s.drop_first();
        let m1 = m.remove(s[0].0);
        assert forall|a: int, b: int| 0 <= a < b < t.len() implies seq_lt(#[trigger] t[a].0, #[trigger] t[b].0) by {
            assert(seq_lt(s[a + 1].0, s[b + 1].0));
        }
        assert forall|a: int| 0 <= a < t.len() implies #[trigger] m1.contains_key(t[a].0) && m1[t[a].0] == t[a].1 by {
            assert(seq_lt(s[0].0, s[a + 1].0));
            crate::order::lemma_lt_irreflexive(s[0].0);
            assert(m.contains_key(s[a + 1].0));
        }
        assert forall|x: Seq<char>| #[trigger] m1.contains_key(x) implies exists|a: int| 0 <= a < t.len() && t[a].0 == x by {
            let j = choose|j: int| 0 <= j < s.len() && s[j].0 == x;
            assert(t[j - 1].0 == x);
        }
        lemma_member_of_listing(t, m1, k);
    } else {
        assert(m.contains_key(s[0].0));
    }
}

/// A key without a dot that is merged into the settings reads back as its
/// value, with placeholders resolved.
pub proof fn law_merged_key_reads_back(v: SettingsView, k: Seq<char>, x: Json)
    requires
        v.config.dom().finite(),
        !has_char(k, '.'),
    ensures
        setting(SettingsView { config: merged(v.config, seq![(k, x)], 1), loaded: true, ..v }, k) == Some(
            resolved(x, v.environment),
        ),
{
    let c = merged(v.config, seq![(k, x)], 1);
    assert(merged(v.config, seq![(k, x)], 0) == v.config);
    assert(c == v.config.insert(k, x).insert(normalized_key(k), x));
    assert(c.dom().finite());
    crate::order::lemma_listing_exists(c);
    lemma_member_of_listing(listing(c), c, k);
    assert(c.contains_key(k) && c[k] == x);
}

} // verus!
