//! Handler return values (JSON values) to responses, the rules shared by all
//! language bindings:
//! - a string is a `200` text/plain body;
//! - an object with `body`, or with only `status`/`headers` (and
//!   `suppress_headers`) keys, is an HTTP envelope;
//! - any other value is a `200` application/json body.

use vstd::prelude::*;

use crate::http_error::{envelope, envelope_headers};
use crate::json::{json_written, member, members_view, write_json, Json, JsonValue};
use crate::order::{is_listing, listing};
use crate::response::{header_texts, name_texts, utf8, Response, ResponseView};
use crate::text::{chars_of, eq_ignore_ascii_case, eq_ignore_case};

verus! {

/// A member allowed in an envelope that has no `body` key.
pub open spec fn envelope_member_ok(k: Seq<char>, v: Json) -> bool {
    ||| k == "status"@ && (v is PosInt || v is NegInt)
    ||| k == "headers"@ && (v is Obj || v is Null)
    ||| k == "suppress_headers"@ && (v is Arr || v is Null)
}

/// Some member of `ms` is named `k`.
pub open spec fn has_member(ms: Seq<(Seq<char>, Json)>, k: Seq<char>) -> bool {
    exists|i: int| 0 <= i < ms.len() && ms[i].0 == k
}

/// The object members `ms` form a framework envelope such as
/// `{"status": 200, "body": "..."}`; plain data objects do not.
pub open spec fn is_envelope(ms: Seq<(Seq<char>, Json)>) -> bool {
    ||| has_member(ms, "body"@)
    ||| (forall|i: int| 0 <= i < ms.len() ==> envelope_member_ok(#[trigger] ms[i].0, ms[i].1))
        && (has_member(ms, "status"@) || has_member(ms, "headers"@))
}

proof fn lemma_envelope_keys()
    ensures
        "status"@ != "headers"@,
        "status"@ != "suppress_headers"@,
        "headers"@ != "suppress_headers"@,
{
    reveal_strlit("status");
    reveal_strlit("headers");
    reveal_strlit("suppress_headers");
    assert("status"@.len() == 6);
    assert("headers"@.len() == 7);
    assert("suppress_headers"@.len() == 16);
}

/// True for framework envelopes like `{"status": 200, "body": "..."}`.
/// Plain data objects (e.g. `{"message": "hello"}`) are not envelopes.
pub fn is_response_envelope(map: &Vec<(String, JsonValue)>) -> (b: bool)
    ensures
        b == is_envelope(members_view(map@)),
{
    let ghost ms = members_view(map@);
    proof {
        crate::json::lemma_members_view(map@);
    }
    let body = chars_of("body");
    let status = chars_of("status");
    let headers = chars_of("headers");
    let suppress = chars_of("suppress_headers");
    let mut i: usize = 0;
    while i < map.len()
        invariant
            i <= map.len(),
            ms == members_view(map@),
            ms.len() == map@.len(),
            forall|j: int| 0 <= j < map@.len() ==> #[trigger] ms[j] == (map@[j].0@, map@[j].1@),
            body@ == "body"@,
            forall|j: int| 0 <= j < i ==> ms[j].0 != "body"@,
        decreases map.len() - i,
    {
        if crate::text::chars_eq(&chars_of(map[i].0.as_str()), &body) {
            assert(ms[i as int].0 == "body"@);
            return true;
        }
        i += 1;
    }
    assert(!has_member(ms, "body"@));
    let mut has_status = false;
    let mut has_headers = false;
    let mut j: usize = 0;
    while j < map.len()
        invariant
            j <= map.len(),
            ms == members_view(map@),
            ms.len() == map@.len(),
            forall|a: int| 0 <= a < map@.len() ==> #[trigger] ms[a] == (map@[a].0@, map@[a].1@),
            status@ == "status"@,
            headers@ == "headers"@,
            suppress@ == "suppress_headers"@,
            !has_member(ms, "body"@),
            forall|a: int| 0 <= a < j ==> envelope_member_ok(#[trigger] ms[a].0, ms[a].1),
            has_status == exists|a: int| 0 <= a < j && ms[a].0 == "status"@,
            has_headers == exists|a: int| 0 <= a < j && ms[a].0 == "headers"@,
        decreases map.len() - j,
    {
        proof {
            lemma_envelope_keys();
        }
        let key = chars_of(map[j].0.as_str());
        let value = &map[j].1;
        assert(ms[j as int] == (key@, value@));
        if crate::text::chars_eq(&key, &status) {
            let integer = match value {
                JsonValue::Number(crate::json::JsonNumber::PosInt(_)) => true,
                JsonValue::Number(crate::json::JsonNumber::NegInt(_)) => true,
                _ => false,
            };
            if !integer {
                assert(!(value@ is PosInt) && !(value@ is NegInt));
                assert(!envelope_member_ok(ms[j as int].0, ms[j as int].1));
                return false;
            }
            has_status = true;
            assert(ms[j as int].0 == "status"@);
        } else if crate::text::chars_eq(&key, &headers) {
            let ok = match value {
                JsonValue::Object(_) => true,
                JsonValue::Null => true,
                _ => false,
            };
            if !ok {
                assert(!envelope_member_ok(ms[j as int].0, ms[j as int].1));
                return false;
            }
            has_headers = true;
            assert(ms[j as int].0 == "headers"@);
        } else if crate::text::chars_eq(&key, &suppress) {
            let ok = match value {
                JsonValue::Array(_) => true,
                JsonValue::Null => true,
                _ => false,
            };
            if !ok {
                assert(!envelope_member_ok(ms[j as int].0, ms[j as int].1));
                return false;
            }
        } else {
            assert(!envelope_member_ok(ms[j as int].0, ms[j as int].1));
            return false;
        }
        j += 1;
    }
    has_status || has_headers
}

/// The status of an envelope: an integer `status` (a negative one wraps to
/// `u64`), else `200`, capped at `u16::MAX`.
pub open spec fn envelope_status(ms: Seq<(Seq<char>, Json)>) -> u16 {
    let n: u64 = match member(ms, "status"@) {
        Some(Json::PosInt(n)) => n,
        Some(Json::NegInt(n)) => n as u64,
        _ => 200,
    };
    if n > 65535 {
        65535
    } else {
        n as u16
    }
}

/// The body bytes of an envelope: a string as UTF-8, nothing for null or a
/// missing body, and the JSON text of any other value.
pub open spec fn envelope_body(ms: Seq<(Seq<char>, Json)>) -> Seq<u8> {
    match member(ms, "body"@) {
        Some(Json::Str(s)) => utf8(s),
        Some(Json::Null) => Seq::empty(),
        None => Seq::empty(),
        Some(v) => utf8(json_written(v)),
    }
}

/// A header value: a string as is, anything else as its JSON text.
pub open spec fn header_text(v: Json) -> Seq<char> {
    match v {
        Json::Str(s) => s,
        _ => json_written(v),
    }
}

/// The headers of an envelope's `headers` object, in its order.
pub open spec fn envelope_header_list(ms: Seq<(Seq<char>, Json)>) -> Seq<(Seq<char>, Seq<char>)> {
    match member(ms, "headers"@) {
        Some(Json::Obj(hm)) => hm.map_values(|p: (Seq<char>, Json)| (p.0, header_text(p.1))),
        _ => Seq::empty(),
    }
}

/// The non-empty strings among `items`, in order.
pub open spec fn nonempty_strings(items: Seq<Json>) -> Seq<Seq<char>>
    decreases items.len(),
{
    if items.len() == 0 {
        Seq::empty()
    } else {
        let rest = nonempty_strings(items.drop_last());
        match items.last() {
            Json::Str(s) => if s.len() > 0 {
                rest.push(s)
            } else {
                rest
            },
            _ => rest,
        }
    }
}

/// The header names an envelope asks fingerprinting not to add back.
pub open spec fn envelope_suppress(ms: Seq<(Seq<char>, Json)>) -> Seq<Seq<char>> {
    match member(ms, "suppress_headers"@) {
        Some(Json::Arr(items)) => nonempty_strings(items),
        _ => Seq::empty(),
    }
}

/// Some header is named `content-type`, ignoring ASCII case.
pub open spec fn has_content_type(hs: Seq<(Seq<char>, Seq<char>)>) -> bool {
    exists|i: int| 0 <= i < hs.len() && eq_ignore_ascii_case(hs[i].0, "content-type"@)
}

/// The response an envelope stands for; `content-type: application/json` is
/// added for a body that is neither a string nor null when no content type
/// is given.
pub open spec fn envelope_response(ms: Seq<(Seq<char>, Json)>) -> ResponseView {
    let hs = envelope_header_list(ms);
    let json_body = match member(ms, "body"@) {
        Some(Json::Str(_)) => false,
        Some(Json::Null) => false,
        None => false,
        Some(_) => true,
    };
    ResponseView {
        status: envelope_status(ms),
        headers: if !has_content_type(hs) && json_body {
            hs.push(("content-type"@, "application/json"@))
        } else {
            hs
        },
        body: envelope_body(ms),
        suppress: envelope_suppress(ms),
    }
}

/// A JSON response: the value's JSON text with `application/json`.
pub open spec fn json_response(status: u16, v: Json) -> ResponseView {
    ResponseView {
        status,
        headers: seq![("content-type"@, "application/json"@)],
        body: utf8(json_written(v)),
        suppress: Seq::empty(),
    }
}

/// The response a handler's return value stands for.
pub open spec fn value_response(v: Json) -> ResponseView {
    match v {
        Json::Str(s) => ResponseView {
            status: 200,
            headers: seq![("content-type"@, "text/plain; charset=utf-8"@)],
            body: utf8(s),
            suppress: Seq::empty(),
        },
        Json::Obj(ms) => if is_envelope(ms) {
            envelope_response(ms)
        } else {
            json_response(200, v)
        },
        _ => json_response(200, v),
    }
}

impl Response {
    /// JSON response with `application/json` content type.
    pub fn json(status: u16, value: &JsonValue) -> (r: Response)
        ensures
            r@ == json_response(status, value@),
    {
        let text = write_json(value);
        let r = Response::new(status, text.as_str().as_bytes_vec());
        r.with_header("content-type", "application/json")
    }
}

/// Build an HTTP response from a JSON-like handler return value.
pub fn response_from_value(value: JsonValue) -> (r: Response)
    ensures
        r@ == value_response(value@),
{
    match value {
        JsonValue::String(s) => Response::text(200, s.as_str()),
        JsonValue::Object(map) => {
            if is_response_envelope(&map) {
                response_from_envelope(map)
            } else {
                let v = JsonValue::Object(map);
                Response::json(200, &v)
            }
        },
        other => Response::json(200, &other),
    }
}

/// The response an envelope's members stand for.
pub fn response_from_envelope(map: Vec<(String, JsonValue)>) -> (r: Response)
    ensures
        r@ == envelope_response(members_view(map@)),
{
    let ghost ms = members_view(map@);
    let obj = JsonValue::Object(map);
    assert(obj@ == Json::Obj(ms));
    let status_member = obj.get("status");
    let n: u64 = match status_member {
        Some(v) => match v.as_u64() {
            Some(n) => n,
            None => match v.as_i64() {
                Some(i) => i as u64,
                None => 200,
            },
        },
        None => 200,
    };
    let status: u16 = if n > 65535 {
        65535
    } else {
        n as u16
    };
    assert(status == envelope_status(ms));
    let body_member = obj.get("body");
    let json_body: bool;
    let body: Vec<u8> = match body_member {
        Some(JsonValue::String(s)) => {
            json_body = false;
            s.as_str().as_bytes_vec()
        },
        Some(JsonValue::Null) => {
            json_body = false;
            Vec::new()
        },
        None => {
            json_body = false;
            Vec::new()
        },
        Some(other) => {
            json_body = true;
            write_json(other).as_str().as_bytes_vec()
        },
    };
    assert(body@ == envelope_body(ms));
    let mut response = Response::new(status, body);
    let ghost hs = envelope_header_list(ms);
    match obj.get("headers") {
        Some(JsonValue::Object(hm)) => {
            proof {
                crate::json::lemma_members_view(hm@);
            }
            let mut i: usize = 0;
            while i < hm.len()
                invariant
                    i <= hm.len(),
                    hs == members_view(hm@).map_values(|p: (Seq<char>, Json)| (p.0, header_text(p.1))),
                    members_view(hm@).len() == hm@.len(),
                    forall|j: int| 0 <= j < hm@.len() ==> #[trigger] members_view(hm@)[j] == (hm@[j].0@, hm@[j].1@),
                    response@.headers == hs.take(i as int),
                    response@.status == status,
                    response@.body == envelope_body(ms),
                    response@.suppress == Seq::<Seq<char>>::empty(),
                decreases hm.len() - i,
            {
                let value = match &hm[i].1 {
                    JsonValue::String(s) => s.clone(),
                    other => write_json(other),
                };
                let ghost old_hs = response.headers@;
                response.headers.push((hm[i].0.clone(), value));
                assert(header_texts(response.headers@) =~= header_texts(old_hs).push((hm@[i as int].0@, value@)));
                assert(hs.take(i + 1) =~= hs.take(i as int).push(hs[i as int]));
                i += 1;
            }
            assert(hs.take(hm.len() as int) =~= hs);
        },
        _ => {
            assert(response@.headers =~= hs);
        },
    }
    let ghost sup = envelope_suppress(ms);
    match obj.get("suppress_headers") {
        Some(JsonValue::Array(names)) => {
            proof {
                crate::json::lemma_items_view(names@);
            }
            let ghost items = crate::json::items_view(names@);
            let mut i: usize = 0;
            assert(items.take(0) =~= Seq::<Json>::empty());
            while i < names.len()
                invariant
                    i <= names.len(),
                    items == crate::json::items_view(names@),
                    items.len() == names@.len(),
                    forall|j: int| 0 <= j < names@.len() ==> #[trigger] items[j] == names@[j]@,
                    sup == nonempty_strings(items),
                    response@.headers == hs,
                    response@.status == status,
                    response@.body == envelope_body(ms),
                    response@.suppress == nonempty_strings(items.take(i as int)),
                decreases names.len() - i,
            {
                assert(items.take(i + 1).drop_last() =~= items.take(i as int));
                if let Some(s) = names[i].as_str() {
                    if !s.is_empty() {
                        let ghost old_sup = response.suppress_headers@;
                        response.suppress_headers.push(s.to_string());
                        assert(name_texts(response.suppress_headers@) =~= name_texts(old_sup).push(s@));
                    }
                }
                i += 1;
            }
            assert(items.take(names.len() as int) =~= items);
        },
        _ => {
            assert(response@.suppress =~= sup);
        },
    }
    let mut has_type = false;
    let ct = chars_of("content-type");
    let mut k: usize = 0;
    while k < response.headers.len()
        invariant
            k <= response.headers@.len(),
            ct@ == "content-type"@,
            has_type == exists|a: int| 0 <= a < k && eq_ignore_ascii_case(response@.headers[a].0, "content-type"@),
        decreases response.headers@.len() - k,
    {
        let name = chars_of(response.headers[k].0.as_str());
        assert(response@.headers[k as int].0 == name@);
        if eq_ignore_case(&name, &ct) {
            has_type = true;
        }
        k += 1;
    }
    if !has_type && json_body {
        response = response.with_header("content-type", "application/json");
    }
    response
}

/// The body bytes a response gets for an envelope's body value.
pub open spec fn body_bytes(body: Json) -> Seq<u8> {
    match body {
        Json::Str(s) => utf8(s),
        Json::Null => Seq::empty(),
        _ => utf8(json_written(body)),
    }
}

proof fn lemma_body_key()
    ensures
        "body"@ != "status"@,
        "body"@ != "headers"@,
        "body"@ != "suppress_headers"@,
        "headers"@ != "suppress_headers"@,
        "status"@ != "suppress_headers"@,
        "status"@ != "headers"@,
{
    reveal_strlit("body");
    reveal_strlit("status");
    reveal_strlit("headers");
    reveal_strlit("suppress_headers");
    assert("body"@.len() == 4);
    assert("status"@.len() == 6);
    assert("headers"@.len() == 7);
    assert("suppress_headers"@.len() == 16);
}

/// An envelope built for a status, body and headers (what `to_envelope`
/// and `build_response` return) is answered by `response_from_value` with
/// that status, the body's bytes, and the envelope's headers in key order.
pub proof fn law_envelope_response(status: u16, body: Json, h: Map<Seq<char>, Seq<char>>)
    requires
        h.dom().finite(),
    ensures
        value_response(envelope(status, body, h)) == (ResponseView {
            status,
            headers: listing(envelope_headers(body, h)),
            body: body_bytes(body),
            suppress: Seq::empty(),
        }),
{
    lemma_body_key();
    let hs = envelope_headers(body, h);
    assert(hs.dom().finite());
    crate::order::lemma_listing_exists(hs);
    let l = listing(hs);
    let ms = envelope(status, body, h)->Obj_0;
    assert(has_member(ms, "body"@)) by {
        assert(ms[0].0 == "body"@);
    }
    assert(member(ms, "body"@) == Some(body));
    let json_body = !(body is Str) && !(body is Null);
    if hs == Map::<Seq<char>, Seq<char>>::empty() {
        assert(ms == seq![("body"@, body), ("status"@, Json::PosInt(status as u64))]);
        assert(member(ms, "status"@) == Some(Json::PosInt(status as u64))) by {
            assert(ms.drop_first() =~= seq![("status"@, Json::PosInt(status as u64))]);
            assert(member(ms, "status"@) == member(ms.drop_first(), "status"@));
        }
        assert(member(ms, "headers"@) is None) by {
            let r1 = ms.drop_first();
            assert(r1 =~= seq![("status"@, Json::PosInt(status as u64))]);
            assert(r1.drop_first() =~= Seq::<(Seq<char>, Json)>::empty());
            assert(member(ms, "headers"@) == member(r1, "headers"@));
            assert(member(r1, "headers"@) == member(r1.drop_first(), "headers"@));
        }
        assert(member(ms, "suppress_headers"@) is None) by {
            let r1 = ms.drop_first();
            assert(r1 =~= seq![("status"@, Json::PosInt(status as u64))]);
            assert(r1.drop_first() =~= Seq::<(Seq<char>, Json)>::empty());
            assert(member(ms, "suppress_headers"@) == member(r1, "suppress_headers"@));
            assert(member(r1, "suppress_headers"@) == member(r1.drop_first(), "suppress_headers"@));
        }
        assert(!json_body) by {
            if json_body {
                assert(hs.contains_key("content-type"@));
            }
        }
        assert(is_listing(Seq::<(Seq<char>, Seq<char>)>::empty(), hs));
        crate::order::lemma_listing_unique(l, Seq::<(Seq<char>, Seq<char>)>::empty(), hs);
        assert(envelope_header_list(ms) =~= l);
    } else {
        let hm = crate::http_error::text_members(l);
        assert(ms == seq![("body"@, body), ("headers"@, Json::Obj(hm)), ("status"@, Json::PosInt(status as u64))]);
        let r1 = ms.drop_first();
        assert(r1 =~= seq![("headers"@, Json::Obj(hm)), ("status"@, Json::PosInt(status as u64))]);
        let r2 = r1.drop_first();
        assert(r2 =~= seq![("status"@, Json::PosInt(status as u64))]);
        assert(r2.drop_first() =~= Seq::<(Seq<char>, Json)>::empty());
        assert(member(ms, "status"@) == member(r1, "status"@));
        assert(member(r1, "status"@) == member(r2, "status"@));
        assert(member(ms, "status"@) == Some(Json::PosInt(status as u64)));
        assert(member(ms, "headers"@) == member(r1, "headers"@));
        assert(member(ms, "headers"@) == Some(Json::Obj(hm)));
        assert(member(ms, "suppress_headers"@) == member(r1, "suppress_headers"@));
        assert(member(r1, "suppress_headers"@) == member(r2, "suppress_headers"@));
        assert(member(r2, "suppress_headers"@) == member(r2.drop_first(), "suppress_headers"@));
        assert(member(ms, "suppress_headers"@) is None);
        assert(envelope_header_list(ms) =~= l);
        if json_body {
            assert(hs.contains_key("content-type"@));
            let i = choose|i: int| 0 <= i < l.len() && l[i].0 == "content-type"@;
            assert(eq_ignore_ascii_case(l[i].0, "content-type"@));
            assert(has_content_type(l));
        }
    }
}

} // verus!
