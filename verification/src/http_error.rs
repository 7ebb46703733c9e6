//! HTTP error raised by handlers and by dispatch logic.

use vstd::prelude::*;

use crate::decimal::{decimal, format_u64};
use crate::json::{members_view, Json, JsonValue};
use crate::text::{chars_of, extend, to_string};
use crate::order::{keyed, lemma_sorted_listing, listing, sort_by_key, sorted_keys};
use crate::strmap::{keys_unique, lemma_map_of_at, map_of, StrMap};

verus! {

/// The text view of a map of strings.
pub open spec fn text_map(m: Map<Seq<char>, String>) -> Map<Seq<char>, Seq<char>> {
    m.map_values(|s: String| s@)
}

/// JSON string members for text pairs.
pub open spec fn text_members(l: Seq<(Seq<char>, Seq<char>)>) -> Seq<(Seq<char>, Json)> {
    l.map_values(|p: (Seq<char>, Seq<char>)| (p.0, Json::Str(p.1)))
}

/// Pairs with their values taken as text.
pub open spec fn text_pairs(ps: Seq<(String, String)>) -> Seq<(String, Seq<char>)> {
    ps.map_values(|p: (String, String)| (p.0, p.1@))
}

proof fn lemma_text_pairs(ps: Seq<(String, String)>)
    requires
        keys_unique(ps),
    ensures
        keys_unique(text_pairs(ps)),
        map_of(text_pairs(ps)) == text_map(map_of(ps)),
        sorted_keys(ps) ==> sorted_keys(text_pairs(ps)),
{
    let ts = text_pairs(ps);
    assert(keys_unique(ts));
    assert forall|k: Seq<char>| #[trigger] map_of(ts).contains_key(k) <==> text_map(map_of(ps)).contains_key(k) by {
        if map_of(ts).contains_key(k) {
            let i = choose|i: int| 0 <= i < ts.len() && ts[i].0@ == k;
            assert(ps[i].0@ == k);
        }
        if map_of(ps).contains_key(k) {
            let i = choose|i: int| 0 <= i < ps.len() && ps[i].0@ == k;
            assert(ts[i].0@ == k);
        }
    }
    assert forall|k: Seq<char>| #[trigger] map_of(ts).contains_key(k) implies map_of(ts)[k] == text_map(map_of(ps))[k] by {
        let i = choose|i: int| 0 <= i < ts.len() && ts[i].0@ == k;
        lemma_map_of_at(ts, i);
        lemma_map_of_at(ps, i);
    }
    assert(map_of(ts) =~= text_map(map_of(ps)));
    if sorted_keys(ps) {
        assert forall|i: int, j: int| 0 <= i < j < ts.len() implies crate::order::seq_lt(#[trigger] ts[i].0@, #[trigger] ts[j].0@) by {
            assert(crate::order::seq_lt(ps[i].0@, ps[j].0@));
        }
    }
}

/// The pairs of a string map as JSON string members, in increasing key order
/// (the order of a `serde_json` object).
pub fn string_members(m: &StrMap<String>) -> (r: Vec<(String, JsonValue)>)
    ensures
        members_view(r@) == text_members(listing(text_map(m@))),
{
    let es = m.entries();
    let mut ps: Vec<(String, String)> = Vec::new();
    let mut i: usize = 0;
    while i < es.len()
        invariant
            i <= es.len(),
            es@ == m.pairs(),
            keys_unique(es@),
            ps@.len() == i,
            forall|j: int| 0 <= j < i ==> #[trigger] ps@[j].0@ == es@[j].0@ && ps@[j].1@ == es@[j].1@,
        decreases es.len() - i,
    {
        ps.push((es[i].0.clone(), es[i].1.clone()));
        i += 1;
    }
    proof {
        assert(keys_unique(ps@));
        lemma_text_pairs(ps@);
        lemma_text_pairs(es@);
        assert forall|k: Seq<char>| #[trigger] map_of(ps@).contains_key(k) <==> map_of(es@).contains_key(k) by {
            if map_of(ps@).contains_key(k) {
                let a = choose|a: int| 0 <= a < ps@.len() && ps@[a].0@ == k;
                assert(es@[a].0@ == k);
            }
            if map_of(es@).contains_key(k) {
                let a = choose|a: int| 0 <= a < es@.len() && es@[a].0@ == k;
                assert(ps@[a].0@ == k);
            }
        }
        assert forall|k: Seq<char>| #[trigger] map_of(ps@).contains_key(k) implies map_of(ps@)[k]@ == map_of(es@)[k]@ by {
            let a = choose|a: int| 0 <= a < ps@.len() && ps@[a].0@ == k;
            lemma_map_of_at(ps@, a);
            lemma_map_of_at(es@, a);
        }
        assert(text_map(map_of(ps@)) =~= text_map(map_of(es@)));
    }
    let sorted = sort_by_key(ps);
    let mut r: Vec<(String, JsonValue)> = Vec::new();
    let mut j: usize = 0;
    while j < sorted.len()
        invariant
            j <= sorted.len(),
            r@.len() == j,
            forall|a: int| 0 <= a < j ==> #[trigger] r@[a].0@ == sorted@[a].0@ && r@[a].1@ == Json::Str(sorted@[a].1@),
        decreases sorted.len() - j,
    {
        r.push((sorted[j].0.clone(), JsonValue::String(sorted[j].1.clone())));
        j += 1;
    }
    proof {
        lemma_text_pairs(sorted@);
        lemma_sorted_listing(text_pairs(sorted@));
        crate::json::lemma_members_view(r@);
        assert(members_view(r@) =~= text_members(keyed(text_pairs(sorted@))));
    }
    r
}

/// Headers of a response envelope: `content-type: application/json` is
/// added when the body is neither a string nor null and no `content-type`
/// key is set.
pub open spec fn envelope_headers(body: Json, h: Map<Seq<char>, Seq<char>>) -> Map<Seq<char>, Seq<char>> {
    if !(body is Str) && !(body is Null) && !h.contains_key("content-type"@) {
        h.insert("content-type"@, "application/json"@)
    } else {
        h
    }
}

/// The framework response envelope: `body`, then `headers` when there are
/// any, then `status` (the key order of a serde_json object).
pub open spec fn envelope(status: u16, body: Json, h: Map<Seq<char>, Seq<char>>) -> Json {
    let hs = envelope_headers(body, h);
    if hs == Map::<Seq<char>, Seq<char>>::empty() {
        Json::Obj(seq![("body"@, body), ("status"@, Json::PosInt(status as u64))])
    } else {
        Json::Obj(
            seq![
                ("body"@, body),
                ("headers"@, Json::Obj(text_members(listing(hs)))),
                ("status"@, Json::PosInt(status as u64)),
            ],
        )
    }
}

/// Builds the response envelope for `body`, `status` and `headers`.
pub fn envelope_value(body: JsonValue, status: u16, headers: StrMap<String>) -> (r: JsonValue)
    ensures
        r@ == envelope(status, body@, text_map(headers@)),
{
    let mut hdrs = headers;
    let ghost h0 = text_map(hdrs@);
    if !body.is_string() && !body.is_null() {
        let ghost before = hdrs@;
        let stored = hdrs.insert_if_absent("content-type".to_string(), "application/json".to_string());
        proof {
            if stored {
                assert(text_map(hdrs@) =~= h0.insert("content-type"@, "application/json"@));
            }
        }
    }
    assert(text_map(hdrs@) == envelope_headers(body@, h0));
    let ghost body_view = body@;
    let mut members: Vec<(String, JsonValue)> = Vec::new();
    members.push(("body".to_string(), body));
    if hdrs.len() > 0 {
        let hm = string_members(&hdrs);
        proof {
            let p = hdrs.pairs()[0];
            lemma_map_of_at(hdrs.pairs(), 0);
            assert(text_map(hdrs@).contains_key(p.0@));
        }
        members.push(("headers".to_string(), JsonValue::Object(hm)));
    } else {
        assert(text_map(hdrs@) =~= Map::<Seq<char>, Seq<char>>::empty());
    }
    members.push(("status".to_string(), JsonValue::from_u64(status as u64)));
    let r = JsonValue::Object(members);
    proof {
        crate::json::lemma_members_view(members@);
        assert(members_view(members@) =~= envelope(status, body_view, h0)->Obj_0);
    }
    r
}

/// Structured HTTP error (equivalent to `HTTPException` in host languages).
#[derive(Debug)]
pub struct HttpError {
    pub status: u16,
    pub detail: JsonValue,
    pub headers: StrMap<String>,
}

impl HttpError {
    /// An error with no extra headers.
    pub fn new(status: u16, detail: JsonValue) -> (e: HttpError)
        ensures
            e.status == status,
            e.detail@ == detail@,
            e.headers@ == Map::<Seq<char>, String>::empty(),
    {
        HttpError { status, detail, headers: StrMap::new() }
    }

    /// The same error carrying `headers`.
    pub fn with_headers(self, headers: StrMap<String>) -> (e: HttpError)
        ensures
            e.status == self.status,
            e.detail@ == self.detail@,
            e.headers@ == headers@,
    {
        HttpError { status: self.status, detail: self.detail, headers }
    }

    /// The framework response envelope for this error.
    pub fn to_envelope(&self) -> (r: JsonValue)
        ensures
            r@ == envelope(self.status, self.detail@, text_map(self.headers@)),
    {
        envelope_value(self.detail.clone(), self.status, self.headers.clone())
    }

    /// The error's text: the detail when it is a non-empty string, otherwise
    /// `HTTP <status>`.
    pub fn message(&self) -> (r: String)
        ensures
            r@ == error_message(self.status, self.detail@),
    {
        match &self.detail {
            JsonValue::String(s) => {
                if !s.as_str().is_empty() {
                    return s.clone();
                }
            },
            _ => {},
        }
        let mut out = chars_of("HTTP ");
        let digits = format_u64(self.status as u64);
        extend(&mut out, &digits);
        to_string(&out)
    }
}

/// Text of an error: a non-empty string detail, otherwise `HTTP <status>`.
pub open spec fn error_message(status: u16, detail: Json) -> Seq<char> {
    match detail {
        Json::Str(s) => if s.len() > 0 {
            s
        } else {
            "HTTP "@ + decimal(status as nat)
        },
        _ => "HTTP "@ + decimal(status as nat),
    }
}

} // verus!
