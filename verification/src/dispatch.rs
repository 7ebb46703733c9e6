//! Handler argument binding shared by every language binding: where each
//! parameter comes from (path, then query for reads or the JSON body for
//! writes), how it is coerced, and the response envelope handlers build.
//!
//! Float readings of raw values are the host's (see `coerce`): `bind_args`
//! takes one per parameter, for the raw value that `raw_args` finds.

use vstd::prelude::*;

use crate::coerce::{coerced_param, coerce_param, ParamKind};
use crate::http_error::{envelope, envelope_value, text_map, HttpError};
use crate::json::{
    json_i64, json_read, json_written, member, members_view, read_json, write_json, Json,
    JsonNumber, JsonValue,
};
use crate::request::{utf8_lossy, Request};
use crate::strmap::StrMap;
use crate::text::{ascii_upper_seq, ascii_uppercase, chars_eq, chars_of, to_string, trim, trim_ws};

verus! {

/// The names of the HTTP methods that read parameters from a JSON request
/// body, in the order `body_methods` lists them.
pub open spec fn body_method_names() -> Seq<Seq<char>> {
    seq!["POST"@, "PUT"@, "PATCH"@]
}

/// The HTTP methods that read parameters from a JSON request body.
pub fn body_methods() -> (r: Vec<&'static str>)
    ensures
        r@.map_values(|m: &'static str| m@) == body_method_names(),
        r@.len() == 3,
        r@[0]@ == "POST"@,
        r@[1]@ == "PUT"@,
        r@[2]@ == "PATCH"@,
{
    let r = vec!["POST", "PUT", "PATCH"];
    assert(r@.map_values(|m: &'static str| m@) =~= body_method_names());
    r
}

/// `m` (already uppercase) is a method whose parameters come from the body.
pub open spec fn is_body_method(m: Seq<char>) -> bool {
    m == "POST"@ || m == "PUT"@ || m == "PATCH"@
}

fn body_method(m: &Vec<char>) -> (b: bool)
    ensures
        b == is_body_method(m@),
{
    chars_eq(m, &chars_of("POST")) || chars_eq(m, &chars_of("PUT")) || chars_eq(m, &chars_of("PATCH"))
}

/// Metadata for one handler parameter, registered at mount time by bindings.
#[derive(Debug)]
pub struct ParamSpec {
    pub name: String,
    pub kind: ParamKind,
    pub optional: bool,
    pub has_default: bool,
}

/// The members of the JSON object that `body` holds, after trimming; `None`
/// for an empty body, text that is not JSON, or JSON that is not an object.
pub open spec fn object_fields(body: Seq<char>) -> Option<Seq<(Seq<char>, Json)>> {
    let t = trim_ws(body);
    if t.len() == 0 {
        None
    } else {
        match json_read(t) {
            Some(Json::Obj(ms)) => Some(ms),
            _ => None,
        }
    }
}

/// Parse a JSON object from a request body string.
pub fn parse_json_object(body: &str) -> (r: Option<Vec<(String, JsonValue)>>)
    ensures
        match r {
            Some(ms) => object_fields(body@) == Some(members_view(ms@)),
            None => object_fields(body@) is None,
        },
{
    let t = to_string(&trim(&chars_of(body)));
    if t.as_str().is_empty() {
        return None;
    }
    match read_json(t.as_str()) {
        Ok(JsonValue::Object(ms)) => Some(ms),
        _ => None,
    }
}

/// The detail of the error for a boolean given to a numeric parameter.
pub open spec fn bool_error(expected: Seq<char>) -> Json {
    Json::Obj(seq![("detail"@, Json::Str("expected "@ + expected + ", got bool"@))])
}

/// A float reading kept by a float parameter given a number; zero stands for
/// a number with no finite reading.
pub open spec fn number_as_float(float: Option<Seq<char>>) -> Json {
    match float {
        Some(t) => Json::Float(t),
        None => Json::PosInt(0),
    }
}

/// What `coerce_value` gives for `raw` under `kind`: the value, or the
/// detail of a 400 error.
pub open spec fn coerced_value(raw: Json, kind: ParamKind, float: Option<Seq<char>>) -> Result<Json, Json> {
    match kind {
        ParamKind::Int => match raw {
            Json::Bool(_) => Err(bool_error("int"@)),
            Json::PosInt(_) => Ok(raw),
            Json::NegInt(n) => Ok(json_i64(n)),
            Json::Str(s) => Ok(coerced_param(s, ParamKind::Int, float)),
            _ => Ok(coerced_param(json_written(raw), ParamKind::Int, float)),
        },
        ParamKind::Float => match raw {
            Json::Bool(_) => Err(bool_error("float"@)),
            Json::PosInt(_) => Ok(number_as_float(float)),
            Json::NegInt(_) => Ok(number_as_float(float)),
            Json::Float(_) => Ok(number_as_float(float)),
            Json::Str(s) => Ok(coerced_param(s, ParamKind::Float, float)),
            _ => Ok(coerced_param(json_written(raw), ParamKind::Float, float)),
        },
        ParamKind::Bool => match raw {
            Json::Bool(_) => Ok(raw),
            Json::Str(s) => Ok(coerced_param(s, ParamKind::Bool, float)),
            _ => Ok(coerced_param(json_written(raw), ParamKind::Bool, float)),
        },
        _ => match raw {
            Json::Null => Ok(Json::Str(Seq::empty())),
            Json::Str(_) => Ok(raw),
            _ => Ok(Json::Str(json_written(raw))),
        },
    }
}

/// The text of an optional string.
pub open spec fn opt_text(f: Option<String>) -> Option<Seq<char>> {
    match f {
        Some(t) => Some(t@),
        None => None,
    }
}

fn copy_opt(f: &Option<String>) -> (r: Option<String>)
    ensures
        opt_text(r) == opt_text(*f),
{
    match f {
        Some(t) => Some(t.clone()),
        None => None,
    }
}

fn bool_error_value(expected: &str) -> (e: HttpError)
    ensures
        e.status == 400,
        e.detail@ == bool_error(expected@),
        e.headers@ == Map::<Seq<char>, String>::empty(),
{
    let mut msg = chars_of("expected ");
    crate::text::extend(&mut msg, &chars_of(expected));
    crate::text::extend(&mut msg, &chars_of(", got bool"));
    let ms = vec![("detail".to_string(), JsonValue::String(to_string(&msg)))];
    proof {
        crate::json::lemma_members_view(ms@);
        assert(msg@ =~= "expected "@ + expected@ + ", got bool"@);
        assert(members_view(ms@) =~= seq![("detail"@, Json::Str(msg@))]);
    }
    HttpError::new(400, JsonValue::Object(ms))
}

/// Coerce a raw value (path/query string or JSON scalar) to the target kind;
/// `float` is the host's reading of `raw` as a floating-point number.
pub fn coerce_value(raw: &JsonValue, kind: ParamKind, float: Option<String>) -> (r: Result<JsonValue, HttpError>)
    ensures
        match r {
            Ok(v) => coerced_value(raw@, kind, opt_text(float)) == Ok::<Json, Json>(v@),
            Err(e) => coerced_value(raw@, kind, opt_text(float)) == Err::<Json, Json>(e.detail@)
                && e.status == 400 && e.headers@ == Map::<Seq<char>, String>::empty(),
        },
{
    match kind {
        ParamKind::Int => {
            if raw.as_bool().is_some() {
                return Err(bool_error_value("int"));
            }
            if let Some(n) = raw.as_i64() {
                proof {
                    if let Json::PosInt(m) = raw@ {
                        assert(m <= i64::MAX);
                        assert(n == m as i64);
                        assert(n >= 0);
                        assert((n as u64) == m);
                    }
                }
                return Ok(JsonValue::from_i64(n));
            }
            if let Some(n) = raw.as_u64() {
                return Ok(JsonValue::from_u64(n));
            }
            if let Some(s) = raw.as_str() {
                return Ok(coerce_param(s, ParamKind::Int, float));
            }
            let text = write_json(raw);
            Ok(coerce_param(text.as_str(), ParamKind::Int, float))
        },
        ParamKind::Float => {
            if raw.as_bool().is_some() {
                return Err(bool_error_value("float"));
            }
            match raw {
                JsonValue::Number(_) => {
                    return Ok(
                        match float {
                            Some(t) => JsonValue::Number(JsonNumber::Float(t)),
                            None => JsonValue::from_u64(0),
                        },
                    );
                },
                _ => {},
            }
            if let Some(s) = raw.as_str() {
                return Ok(coerce_param(s, ParamKind::Float, float));
            }
            let text = write_json(raw);
            Ok(coerce_param(text.as_str(), ParamKind::Float, float))
        },
        ParamKind::Bool => {
            if let Some(b) = raw.as_bool() {
                return Ok(JsonValue::Bool(b));
            }
            if let Some(s) = raw.as_str() {
                return Ok(coerce_param(s, ParamKind::Bool, float));
            }
            let text = write_json(raw);
            Ok(coerce_param(text.as_str(), ParamKind::Bool, float))
        },
        _ => {
            if raw.is_null() {
                return Ok(JsonValue::String(String::new()));
            }
            if let Some(s) = raw.as_str() {
                return Ok(JsonValue::from_str(s));
            }
            let text = write_json(raw);
            Ok(JsonValue::String(text))
        },
    }
}

/// Uppercase method of a request, and the body members that parameters of
/// write methods are read from.
pub open spec fn request_fields(req: &Request) -> Option<Seq<(Seq<char>, Json)>> {
    if is_body_method(ascii_upper_seq(req.method@)) {
        object_fields(utf8_lossy(req.body@))
    } else {
        None
    }
}

/// Where the raw value of parameter `name` comes from: a path parameter;
/// else, for write methods, the member of the JSON body; else, for other
/// methods, a query parameter.
pub open spec fn raw_arg(name: Seq<char>, req: &Request) -> Option<Json> {
    if req.params@.contains_key(name) {
        Some(Json::Str(req.params@[name]@))
    } else if is_body_method(ascii_upper_seq(req.method@)) {
        match request_fields(req) {
            Some(ms) => member(ms, name),
            None => None,
        }
    } else if req.query@.contains_key(name) {
        Some(Json::Str(req.query@[name]@))
    } else {
        None
    }
}

/// The raw values of the parameters `specs` in `req`.
pub open spec fn raw_values(specs: Seq<ParamSpec>, req: &Request) -> Seq<Option<Json>> {
    Seq::new(specs.len(), |i: int| raw_arg(specs[i].name@, req))
}

/// Binding of one parameter onto the arguments bound so far.
pub open spec fn bind_one(
    m: Map<Seq<char>, Json>,
    spec: ParamSpec,
    raw: Option<Json>,
    float: Option<Seq<char>>,
) -> Result<Map<Seq<char>, Json>, Json> {
    match raw {
        None => if spec.has_default {
            Ok(m)
        } else {
            Ok(m.insert(spec.name@, Json::Null))
        },
        Some(v) => if v is Null && spec.optional {
            Ok(m.insert(spec.name@, Json::Null))
        } else {
            match coerced_value(v, spec.kind, float) {
                Ok(c) => Ok(m.insert(spec.name@, c)),
                Err(d) => Err(d),
            }
        },
    }
}

/// The arguments bound for the first `n` parameters, or the detail of the
/// first error.
pub open spec fn bound_args(
    specs: Seq<ParamSpec>,
    raws: Seq<Option<Json>>,
    floats: Seq<Option<Seq<char>>>,
    n: nat,
) -> Result<Map<Seq<char>, Json>, Json>
    decreases n,
{
    if n == 0 {
        Ok(Map::empty())
    } else {
        match bound_args(specs, raws, floats, (n - 1) as nat) {
            Ok(m) => bind_one(m, specs[n - 1], raws[n - 1], floats[n - 1]),
            Err(d) => Err(d),
        }
    }
}

/// JSON view of a map of values.
pub open spec fn json_map(m: Map<Seq<char>, JsonValue>) -> Map<Seq<char>, Json> {
    m.map_values(|v: JsonValue| v@)
}

/// The float texts of the host's readings.
pub open spec fn float_texts(floats: Seq<Option<String>>) -> Seq<Option<Seq<char>>> {
    floats.map_values(|f: Option<String>| opt_text(f))
}

struct Source {
    method: Vec<char>,
    fields: Option<JsonValue>,
}

fn request_source(req: &Request) -> (s: Source)
    ensures
        s.method@ == ascii_upper_seq(req.method@),
        match s.fields {
            Some(v) => request_fields(req) is Some && v@ == Json::Obj(request_fields(req)->0),
            None => request_fields(req) is None,
        },
{
    let method = ascii_uppercase(&chars_of(req.method.as_str()));
    let fields = if body_method(&method) {
        match parse_json_object(req.body_str().as_str()) {
            Some(ms) => Some(JsonValue::Object(ms)),
            None => None,
        }
    } else {
        None
    };
    Source { method, fields }
}

fn raw_of(name: &str, req: &Request, src: &Source) -> (r: Option<JsonValue>)
    requires
        src.method@ == ascii_upper_seq(req.method@),
        match src.fields {
            Some(v) => request_fields(req) is Some && v@ == Json::Obj(request_fields(req)->0),
            None => request_fields(req) is None,
        },
    ensures
        match r {
            Some(v) => raw_arg(name@, req) == Some(v@),
            None => raw_arg(name@, req) is None,
        },
{
    if let Some(value) = req.params.get(name) {
        Some(JsonValue::from_str(value.as_str()))
    } else if body_method(&src.method) {
        match &src.fields {
            Some(fields) => match fields.get(name) {
                Some(v) => Some(v.clone()),
                None => None,
            },
            None => None,
        }
    } else if let Some(value) = req.query.get(name) {
        Some(JsonValue::from_str(value.as_str()))
    } else {
        None
    }
}

/// The raw value of each parameter in `req` (see `raw_arg`), the values a
/// host reads as floating-point numbers for `bind_args`.
pub fn raw_args(specs: &Vec<ParamSpec>, req: &Request) -> (r: Vec<Option<JsonValue>>)
    ensures
        r@.len() == specs@.len(),
        forall|i: int| 0 <= i < specs@.len() ==> match #[trigger] r@[i] {
            Some(v) => raw_values(specs@, req)[i] == Some(v@),
            None => raw_values(specs@, req)[i] is None,
        },
{
    let src = request_source(req);
    let mut r: Vec<Option<JsonValue>> = Vec::new();
    let mut i: usize = 0;
    while i < specs.len()
        invariant
            i <= specs.len(),
            r@.len() == i,
            src.method@ == ascii_upper_seq(req.method@),
            match src.fields {
                Some(v) => request_fields(req) is Some && v@ == Json::Obj(request_fields(req)->0),
                None => request_fields(req) is None,
            },
            forall|j: int| 0 <= j < i ==> match #[trigger] r@[j] {
                Some(v) => raw_values(specs@, req)[j] == Some(v@),
                None => raw_values(specs@, req)[j] is None,
            },
        decreases specs.len() - i,
    {
        r.push(raw_of(specs[i].name.as_str(), req, &src));
        i += 1;
    }
    r
}

/// Bind handler arguments: path first, then query (read) or JSON body
/// (write); `floats[i]` is the host's float reading of the raw value of
/// `specs[i]` (see `raw_args`).
pub fn bind_args(specs: &Vec<ParamSpec>, req: &Request, floats: &Vec<Option<String>>) -> (r: Result<StrMap<JsonValue>, HttpError>)
    requires
        floats@.len() == specs@.len(),
    ensures
        match r {
            Ok(m) => bound_args(specs@, raw_values(specs@, req), float_texts(floats@), specs@.len())
                == Ok::<Map<Seq<char>, Json>, Json>(json_map(m@)),
            Err(e) => bound_args(specs@, raw_values(specs@, req), float_texts(floats@), specs@.len())
                == Err::<Map<Seq<char>, Json>, Json>(e.detail@) && e.status == 400,
        },
{
    let ghost raws = raw_values(specs@, req);
    let ghost fl = float_texts(floats@);
    let src = request_source(req);
    let mut out: StrMap<JsonValue> = StrMap::new();
    assert(json_map(out@) =~= Map::<Seq<char>, Json>::empty());
    let mut i: usize = 0;
    while i < specs.len()
        invariant
            i <= specs.len(),
            floats@.len() == specs@.len(),
            raws == raw_values(specs@, req),
            fl == float_texts(floats@),
            src.method@ == ascii_upper_seq(req.method@),
            match src.fields {
                Some(v) => request_fields(req) is Some && v@ == Json::Obj(request_fields(req)->0),
                None => request_fields(req) is None,
            },
            bound_args(specs@, raws, fl, i as nat) == Ok::<Map<Seq<char>, Json>, Json>(json_map(out@)),
        decreases specs.len() - i,
    {
        let spec = &specs[i];
        let raw = raw_of(spec.name.as_str(), req, &src);
        assert(raws[i as int] == raw_arg(spec.name@, req));
        let ghost before = json_map(out@);
        match raw {
            None => {
                if !spec.has_default {
                    out.insert(spec.name.clone(), JsonValue::Null);
                    assert(json_map(out@) =~= before.insert(spec.name@, Json::Null));
                }
            },
            Some(v) => {
                if v.is_null() && spec.optional {
                    out.insert(spec.name.clone(), JsonValue::Null);
                    assert(json_map(out@) =~= before.insert(spec.name@, Json::Null));
                } else {
                    let f = copy_opt(&floats[i]);
                    assert(fl[i as int] == opt_text(floats@[i as int]));
                    match coerce_value(&v, spec.kind, f) {
                        Ok(c) => {
                            let ghost cv = c@;
                            out.insert(spec.name.clone(), c);
                            assert(json_map(out@) =~= before.insert(spec.name@, cv));
                        },
                        Err(e) => {
                            assert(bound_args(specs@, raws, fl, (i + 1) as nat) == Err::<Map<Seq<char>, Json>, Json>(e.detail@));
                            proof {
                                lemma_bound_error_sticks(specs@, raws, fl, (i + 1) as nat, specs@.len());
                            }
                            return Err(e);
                        },
                    }
                }
            },
        }
        i += 1;
    }
    Ok(out)
}

proof fn lemma_bound_error_sticks(
    specs: Seq<ParamSpec>,
    raws: Seq<Option<Json>>,
    floats: Seq<Option<Seq<char>>>,
    i: nat,
    n: nat,
)
    requires
        i <= n,
        bound_args(specs, raws, floats, i) is Err,
    ensures
        bound_args(specs, raws, floats, n) == bound_args(specs, raws, floats, i),
    decreases n - i,
{
    if i < n {
        lemma_bound_error_sticks(specs, raws, floats, i, (n - 1) as nat);
    }
}

/// Build a framework response envelope from parts.
pub fn build_response(body: JsonValue, status: u16, headers: StrMap<String>) -> (r: JsonValue)
    ensures
        r@ == envelope(status, body@, text_map(headers@)),
{
    envelope_value(body, status, headers)
}

proof fn lemma_missing_param(specs: Seq<ParamSpec>, raws: Seq<Option<Json>>, floats: Seq<Option<Seq<char>>>, i: int, n: nat)
    requires
        0 <= i < specs.len(),
        n <= specs.len(),
        raws.len() == specs.len(),
        raws[i] is None,
        forall|j: int| 0 <= j < specs.len() && j != i ==> #[trigger] specs[j].name@ != specs[i].name@,
        bound_args(specs, raws, floats, n) is Ok,
    ensures
        n <= i ==> !bound_args(specs, raws, floats, n)->Ok_0.contains_key(specs[i].name@),
        n > i && specs[i].has_default ==> !bound_args(specs, raws, floats, n)->Ok_0.contains_key(specs[i].name@),
        n > i && !specs[i].has_default ==> bound_args(specs, raws, floats, n)->Ok_0.contains_key(specs[i].name@)
            && bound_args(specs, raws, floats, n)->Ok_0[specs[i].name@] == Json::Null,
    decreases n,
{
    if n > 0 {
        lemma_missing_param(specs, raws, floats, i, (n - 1) as nat);
        if n - 1 != i {
            assert(specs[n - 1].name@ != specs[i].name@);
        }
    }
}

/// A parameter that the request does not supply (no path parameter, body
/// member or query value of its name) is left out of the bound arguments
/// when it has a default and bound to `null` otherwise, when binding
/// succeeds and no other parameter has its name.
pub proof fn law_missing_param_binding(specs: Seq<ParamSpec>, req: &Request, floats: Seq<Option<Seq<char>>>, i: int)
    requires
        0 <= i < specs.len(),
        raw_arg(specs[i].name@, req) is None,
        forall|j: int| 0 <= j < specs.len() && j != i ==> #[trigger] specs[j].name@ != specs[i].name@,
        bound_args(specs, raw_values(specs, req), floats, specs.len()) is Ok,
    ensures
        specs[i].has_default ==> !bound_args(specs, raw_values(specs, req), floats, specs.len())->Ok_0.contains_key(
            specs[i].name@,
        ),
        !specs[i].has_default ==> bound_args(specs, raw_values(specs, req), floats, specs.len())->Ok_0[specs[i].name@]
            == Json::Null,
{
    lemma_missing_param(specs, raw_values(specs, req), floats, i, specs.len());
}

/// A method reads its parameters from the body exactly when it is one of
/// the methods that `body_methods` lists.
pub proof fn law_body_methods_listed(m: Seq<char>)
    ensures
        is_body_method(m) <==> body_method_names().contains(m),
{
    if m == "POST"@ {
        assert(body_method_names()[0] == m);
    }
    if m == "PUT"@ {
        assert(body_method_names()[1] == m);
    }
    if m == "PATCH"@ {
        assert(body_method_names()[2] == m);
    }
}

/// For a `POST`, `PUT` or `PATCH` request (in any ASCII case) whose body is a
/// JSON object, a parameter that is not a path parameter takes its raw value
/// from the body member of its name (none when the body has no such member),
/// whatever the query string holds.
pub proof fn law_write_request_reads_body(name: Seq<char>, req: &Request)
    requires
        ascii_upper_seq(req.method@) == "POST"@ || ascii_upper_seq(req.method@) == "PUT"@
            || ascii_upper_seq(req.method@) == "PATCH"@,
        object_fields(utf8_lossy(req.body@)) is Some,
        !req.params@.contains_key(name),
    ensures
        raw_arg(name, req) == member(object_fields(utf8_lossy(req.body@))->0, name),
{
}

/// For any other method, a parameter that is not a path parameter takes its
/// raw value from the query string, whatever the body holds.
pub proof fn law_read_request_reads_query(name: Seq<char>, req: &Request)
    requires
        !body_method_names().contains(ascii_upper_seq(req.method@)),
        !req.params@.contains_key(name),
    ensures
        raw_arg(name, req) == (if req.query@.contains_key(name) {
            Some(Json::Str(req.query@[name]@))
        } else {
            None::<Json>
        }),
{
    law_body_methods_listed(ascii_upper_seq(req.method@));
}

} // verus!
