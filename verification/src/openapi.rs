//! Class-based API registration and its OpenAPI 3 description: the registry
//! of API classes (route path, parameters of each method, Swagger metadata),
//! the order in which their handlers are mounted, and the OpenAPI document
//! built from them. Reading a class's methods and signatures is the host's
//! part; it hands the registry plain parameter descriptions.

use vstd::prelude::*;

use crate::coerce::ParamKind;
use crate::dispatch::{body_method_names, is_body_method, ParamSpec};
use crate::json::{get_member, items_view, lemma_items_view, lemma_members_view, members_view, Json, JsonValue};
use crate::order::{lemma_listing_exists, listing, sorted_insert, sorted_keys};
use crate::request::split_on;
use crate::router::param_of;
use crate::settings::{json_values, lemma_members_listing};
use crate::strmap::{map_of, StrMap};
use crate::naming::{resolve_route_path, route_path};
use crate::text::{
    ascii_upper_seq, ascii_uppercase, chars_eq, chars_of, extend, split_char, to_string, trim, trim_char, trim_matches,
    trim_start_char, trim_start_matches, trim_ws,
};

verus! {

/// The parameter names among the pieces `ps`, in order.
pub open spec fn param_names(ps: Seq<Seq<char>>) -> Seq<Seq<char>>
    decreases ps.len(),
{
    if ps.len() == 0 {
        Seq::empty()
    } else {
        match param_of(ps.last()) {
            Some(n) => param_names(ps.drop_last()).push(n),
            None => param_names(ps.drop_last()),
        }
    }
}

/// The names of the `{name}` and `[name]` segments of `path`, in order.
pub fn extract_path_params_from_pattern(path: &str) -> (r: Vec<String>)
    ensures
        r@.map_values(|s: String| s@) == param_names(split_char(trim_char(path@, '/'), '/')),
{
    let t = trim_matches(&chars_of(path), '/');
    let pieces = split_on(&t, '/');
    let ghost ps = pieces@.map_values(|v: Vec<char>| v@);
    let mut r: Vec<String> = Vec::new();
    let mut i: usize = 0;
    assert(ps.take(0) =~= Seq::<Seq<char>>::empty());
    assert(r@.map_values(|s: String| s@) =~= param_names(ps.take(0)));
    while i < pieces.len()
        invariant
            i <= pieces.len(),
            ps == pieces@.map_values(|v: Vec<char>| v@),
            r@.map_values(|s: String| s@) == param_names(ps.take(i as int)),
        decreases pieces.len() - i,
    {
        assert(ps.take(i + 1).drop_last() =~= ps.take(i as int));
        assert(ps.take(i + 1).last() == pieces@[i as int]@);
        let seg = to_string(&pieces[i]);
        match crate::router::param_name(seg.as_str()) {
            Some(name) => {
                let ghost before = r@;
                r.push(name);
                assert(r@.map_values(|s: String| s@) =~= before.map_values(|s: String| s@).push(
                    r@[before.len() as int]@,
                ));
            },
            None => {},
        }
        i += 1;
    }
    assert(ps.take(pieces.len() as int) =~= ps);
    r
}

/// `{"type": t}`
pub open spec fn typed(t: Seq<char>) -> Json {
    Json::Obj(seq![("type"@, Json::Str(t))])
}

/// `{"format": "int64", "type": "integer"}`
pub open spec fn int64_schema() -> Json {
    Json::Obj(seq![("format"@, Json::Str("int64"@)), ("type"@, Json::Str("integer"@))])
}

/// The members of the schema of a parameter of `kind`, in key order.
pub open spec fn schema_members(kind: ParamKind) -> Seq<(Seq<char>, Json)> {
    match kind {
        ParamKind::String => seq![("type"@, Json::Str("string"@))],
        ParamKind::Int => seq![("format"@, Json::Str("int64"@)), ("type"@, Json::Str("integer"@))],
        ParamKind::Float => seq![("type"@, Json::Str("number"@))],
        ParamKind::Bool => seq![("type"@, Json::Str("boolean"@))],
        ParamKind::Auto => seq![
            ("oneOf"@, Json::Arr(seq![int64_schema(), typed("number"@), typed("boolean"@), typed("string"@)])),
        ],
    }
}

/// The schema of a parameter of `kind`, with `"nullable": true` when it may
/// be absent; members in key order, as a JSON object lists them (`format`,
/// then `nullable`, then `oneOf` or `type`).
pub open spec fn param_schema(kind: ParamKind, nullable: bool) -> Json {
    let ms = schema_members(kind);
    if !nullable {
        Json::Obj(ms)
    } else if kind == ParamKind::Int {
        Json::Obj(seq![ms[0], ("nullable"@, Json::Bool(true)), ms[1]])
    } else {
        Json::Obj(seq![("nullable"@, Json::Bool(true))] + ms)
    }
}

fn member(key: &str, value: JsonValue) -> (m: (String, JsonValue))
    ensures
        m.0@ == key@,
        m.1 == value,
{
    (key.to_string(), value)
}

fn typed_value(t: &str) -> (v: JsonValue)
    ensures
        v@ == typed(t@),
{
    let ms = vec![member("type", JsonValue::from_str(t))];
    proof {
        crate::json::lemma_members_view(ms@);
    }
    assert(crate::json::members_view(ms@) =~= seq![("type"@, Json::Str(t@))]);
    JsonValue::Object(ms)
}

fn int64_value() -> (v: JsonValue)
    ensures
        v@ == int64_schema(),
{
    let ms = vec![member("format", JsonValue::from_str("int64")), member("type", JsonValue::from_str("integer"))];
    proof {
        crate::json::lemma_members_view(ms@);
    }
    assert(crate::json::members_view(ms@) =~= seq![("format"@, Json::Str("int64"@)), ("type"@, Json::Str("integer"@))]);
    JsonValue::Object(ms)
}

/// The JSON schema of a parameter of `kind`; `nullable` adds
/// `"nullable": true`.
pub fn schema_for_param(kind: ParamKind, nullable: bool) -> (r: JsonValue)
    ensures
        r@ == param_schema(kind, nullable),
{
    let ms: Vec<(String, JsonValue)> = match kind {
        ParamKind::String => vec![member("type", JsonValue::from_str("string"))],
        ParamKind::Int => vec![member("format", JsonValue::from_str("int64")), member("type", JsonValue::from_str("integer"))],
        ParamKind::Float => vec![member("type", JsonValue::from_str("number"))],
        ParamKind::Bool => vec![member("type", JsonValue::from_str("boolean"))],
        ParamKind::Auto => {
            let items = vec![int64_value(), typed_value("number"), typed_value("boolean"), typed_value("string")];
            proof {
                crate::json::lemma_items_view(items@);
            }
            assert(crate::json::items_view(items@) =~= seq![int64_schema(), typed("number"@), typed("boolean"@), typed("string"@)]);
            vec![member("oneOf", JsonValue::Array(items))]
        },
    };
    let ghost plain = ms@;
    proof {
        crate::json::lemma_members_view(ms@);
        assert(crate::json::members_view(plain) =~= schema_members(kind));
    }
    let mut out = ms;
    if nullable {
        let at: usize = if kind == ParamKind::Int { 1 } else { 0 };
        out.insert(at, member("nullable", JsonValue::Bool(true)));
        proof {
            crate::json::lemma_members_view(out@);
        }
    }
    let r = JsonValue::Object(out);
    assert(r@ == param_schema(kind, nullable)) by {
        let ms = schema_members(kind);
        if nullable {
            if kind == ParamKind::Int {
                assert(crate::json::members_view(out@) =~= seq![ms[0], ("nullable"@, Json::Bool(true)), ms[1]]);
            } else {
                assert(crate::json::members_view(out@) =~= seq![("nullable"@, Json::Bool(true))] + ms);
            }
        } else {
            assert(out@ == plain);
        }
    }
    r
}

// ─── The OpenAPI document ───────────────────────────────────────────────────

/// Swagger metadata of a registered API class.
pub struct SwaggerMeta {
    pub tags: Vec<String>,
    pub description: Option<String>,
    pub title: Option<String>,
    pub deprecated: bool,
}

/// A registered API class: its route path, class name, the parameters of
/// each HTTP method it defines (by lowercase method name), and its metadata.
pub struct ApiRoute {
    pub path: String,
    pub api_name: String,
    pub method_specs: StrMap<Vec<ParamSpec>>,
    pub swagger: SwaggerMeta,
}

/// `path` with a leading `/`.
pub open spec fn rooted(path: Seq<char>) -> Seq<char> {
    if path.len() > 0 && path[0] == '/' {
        path
    } else {
        seq!['/'] + path
    }
}

/// The path parameter names of a rooted path.
pub open spec fn path_params(path: Seq<char>) -> Seq<Seq<char>> {
    param_names(split_char(trim_char(path, '/'), '/'))
}

/// Methods whose parameters travel in the JSON body.
pub open spec fn is_write_method(upper: Seq<char>) -> bool {
    upper == "POST"@ || upper == "PUT"@ || upper == "PATCH"@
}

/// A parameter may be absent: it is optional or has a default.
pub open spec fn may_be_absent(spec: ParamSpec) -> bool {
    spec.optional || spec.has_default
}

/// The description of a path or query parameter.
pub open spec fn parameter_json(spec: ParamSpec, place: Seq<char>) -> Json {
    Json::Obj(
        seq![
            ("in"@, Json::Str(place)),
            ("name"@, Json::Str(spec.name@)),
            ("required"@, Json::Bool(!may_be_absent(spec))),
            ("schema"@, param_schema(spec.kind, may_be_absent(spec))),
        ],
    )
}

/// The path and query parameters among `specs`: a name of the path is a
/// path parameter; the others are query parameters unless the method is a
/// write method, whose other parameters are body properties.
pub open spec fn operation_params(specs: Seq<ParamSpec>, pp: Seq<Seq<char>>, write: bool) -> Seq<Json>
    decreases specs.len(),
{
    if specs.len() == 0 {
        Seq::empty()
    } else {
        let rest = operation_params(specs.drop_last(), pp, write);
        let s = specs.last();
        if pp.contains(s.name@) {
            rest.push(parameter_json(s, "path"@))
        } else if write {
            rest
        } else {
            rest.push(parameter_json(s, "query"@))
        }
    }
}

/// The body properties among `specs`, by name (a later one wins).
pub open spec fn body_properties(specs: Seq<ParamSpec>, pp: Seq<Seq<char>>, write: bool) -> Map<Seq<char>, Json>
    decreases specs.len(),
{
    if specs.len() == 0 {
        Map::empty()
    } else {
        let rest = body_properties(specs.drop_last(), pp, write);
        let s = specs.last();
        if !pp.contains(s.name@) && write {
            rest.insert(s.name@, param_schema(s.kind, may_be_absent(s)))
        } else {
            rest
        }
    }
}

/// The names of the required body properties, in order.
pub open spec fn body_required(specs: Seq<ParamSpec>, pp: Seq<Seq<char>>, write: bool) -> Seq<Seq<char>>
    decreases specs.len(),
{
    if specs.len() == 0 {
        Seq::empty()
    } else {
        let rest = body_required(specs.drop_last(), pp, write);
        let s = specs.last();
        if !pp.contains(s.name@) && write && !may_be_absent(s) {
            rest.push(s.name@)
        } else {
            rest
        }
    }
}

/// `{"type": "object"}` under `application/json`.
pub open spec fn json_object_content(schema: Json) -> Json {
    Json::Obj(seq![("application/json"@, Json::Obj(seq![("schema"@, schema)]))])
}

/// The responses of every operation: `200` with a JSON object.
pub open spec fn ok_responses() -> Json {
    Json::Obj(
        seq![
            (
                "200"@,
                Json::Obj(
                    seq![
                        ("content"@, json_object_content(typed("object"@))),
                        ("description"@, Json::Str("OK"@)),
                    ],
                ),
            ),
        ],
    )
}

/// Strings as a JSON array.
pub open spec fn str_items(ss: Seq<Seq<char>>) -> Seq<Json> {
    ss.map_values(|t: Seq<char>| Json::Str(t))
}

/// The request body of an operation with body properties.
pub open spec fn request_body_json(props: Map<Seq<char>, Json>, required: Seq<Seq<char>>) -> Json {
    Json::Obj(
        seq![
            (
                "content"@,
                json_object_content(
                    Json::Obj(
                        seq![
                            ("properties"@, Json::Obj(listing(props))),
                            ("required"@, Json::Arr(str_items(required))),
                            ("type"@, Json::Str("object"@)),
                        ],
                    ),
                ),
            ),
            ("required"@, Json::Bool(required.len() > 0)),
        ],
    )
}

/// The summary of an operation: the title, else `<class> <METHOD>`.
pub open spec fn summary(route: ApiRoute, upper: Seq<char>) -> Seq<char> {
    match route.swagger.title {
        Some(t) => t@,
        None => route.api_name@ + seq![' '] + upper,
    }
}

/// The description of an operation (empty when there is none).
pub open spec fn description(route: ApiRoute) -> Seq<char> {
    match route.swagger.description {
        Some(d) => d@,
        None => Seq::empty(),
    }
}

/// The tags of a route as text.
pub open spec fn tag_texts(route: ApiRoute) -> Seq<Seq<char>> {
    route.swagger.tags@.map_values(|t: String| t@)
}

/// The OpenAPI operation for `method` (lowercase) of `route` with parameters `specs`.
pub open spec fn operation_json(route: ApiRoute, method: Seq<char>, specs: Seq<ParamSpec>) -> Json {
    let upper = ascii_upper_seq(method);
    let pp = path_params(rooted(route.path@));
    let write = is_write_method(upper);
    let params = operation_params(specs, pp, write);
    let props = body_properties(specs, pp, write);
    let head = seq![
        ("deprecated"@, Json::Bool(route.swagger.deprecated)),
        ("description"@, Json::Str(description(route))),
        ("operationId"@, Json::Str(route.api_name@ + seq!['_'] + method)),
    ];
    let with_params = if params.len() > 0 {
        head.push(("parameters"@, Json::Arr(params)))
    } else {
        head
    };
    let with_body = if listing(props).len() > 0 {
        with_params.push(("requestBody"@, request_body_json(props, body_required(specs, pp, write))))
    } else {
        with_params
    };
    Json::Obj(
        with_body + seq![
            ("responses"@, ok_responses()),
            ("summary"@, Json::Str(summary(route, upper))),
            ("tags"@, Json::Arr(str_items(tag_texts(route)))),
        ],
    )
}

/// The operations of `route`, by method name.
pub open spec fn operations(route: ApiRoute) -> Map<Seq<char>, Json> {
    Map::new(
        |m: Seq<char>| route.method_specs@.contains_key(m),
        |m: Seq<char>| operation_json(route, m, route.method_specs@[m]@),
    )
}

/// The path items of `routes`, by rooted path (a later route wins).
pub open spec fn path_items(routes: Seq<ApiRoute>) -> Map<Seq<char>, Json>
    decreases routes.len(),
{
    if routes.len() == 0 {
        Map::empty()
    } else {
        path_items(routes.drop_last()).insert(
            rooted(routes.last().path@),
            Json::Obj(listing(operations(routes.last()))),
        )
    }
}

/// Every tag of `routes`.
pub open spec fn all_tags(routes: Seq<ApiRoute>) -> Map<Seq<char>, Json> {
    Map::new(
        |t: Seq<char>| exists|i: int| 0 <= i < routes.len() && #[trigger] tag_texts(routes[i]).contains(t),
        |t: Seq<char>| Json::Null,
    )
}

/// `{"name": t}` for each tag.
pub open spec fn tag_objects(ts: Seq<(Seq<char>, Json)>) -> Seq<Json> {
    ts.map_values(|p: (Seq<char>, Json)| Json::Obj(seq![("name"@, Json::Str(p.0))]))
}

/// The OpenAPI document of `routes`.
pub open spec fn openapi_document(routes: Seq<ApiRoute>) -> Json {
    let head = seq![
        (
            "info"@,
            Json::Obj(seq![("title"@, Json::Str("fusion-framework"@)), ("version"@, Json::Str("0.1.0"@))]),
        ),
        ("openapi"@, Json::Str("3.0.3"@)),
        ("paths"@, Json::Obj(listing(path_items(routes)))),
    ];
    let tags = listing(all_tags(routes));
    if tags.len() > 0 {
        Json::Obj(head.push(("tags"@, Json::Arr(tag_objects(tags)))))
    } else {
        Json::Obj(head)
    }
}

fn rooted_path(path: &str) -> (r: String)
    ensures
        r@ == rooted(path@),
{
    let p = chars_of(path);
    if p.len() > 0 && p[0] == '/' {
        path.to_string()
    } else {
        let mut v = vec!['/'];
        extend(&mut v, &p);
        assert(v@ =~= seq!['/'] + path@);
        to_string(&v)
    }
}

fn contains_name(names: &Vec<String>, n: &str) -> (b: bool)
    ensures
        b == names@.map_values(|s: String| s@).contains(n@),
{
    let ghost ns = names@.map_values(|s: String| s@);
    let nc = chars_of(n);
    let mut i: usize = 0;
    while i < names.len()
        invariant
            i <= names.len(),
            nc@ == n@,
            ns == names@.map_values(|s: String| s@),
            forall|j: int| 0 <= j < i ==> ns[j] != n@,
        decreases names.len() - i,
    {
        if chars_eq(&chars_of(names[i].as_str()), &nc) {
            assert(ns[i as int] == n@);
            return true;
        }
        i += 1;
    }
    false
}

fn str_value(s: &str) -> (v: JsonValue)
    ensures
        v@ == Json::Str(s@),
{
    JsonValue::from_str(s)
}

fn object2(k1: &str, v1: JsonValue, k2: &str, v2: JsonValue) -> (r: JsonValue)
    ensures
        r@ == Json::Obj(seq![(k1@, v1@), (k2@, v2@)]),
{
    let ms = vec![member(k1, v1), member(k2, v2)];
    proof {
        lemma_members_view(ms@);
    }
    assert(members_view(ms@) =~= seq![(k1@, v1@), (k2@, v2@)]);
    JsonValue::Object(ms)
}

fn object1(k: &str, v: JsonValue) -> (r: JsonValue)
    ensures
        r@ == Json::Obj(seq![(k@, v@)]),
{
    let ms = vec![member(k, v)];
    proof {
        lemma_members_view(ms@);
    }
    assert(members_view(ms@) =~= seq![(k@, v@)]);
    JsonValue::Object(ms)
}

fn parameter_value(spec: &ParamSpec, place: &str) -> (r: JsonValue)
    ensures
        r@ == parameter_json(*spec, place@),
{
    let absent = spec.optional || spec.has_default;
    let ms = vec![
        member("in", str_value(place)),
        member("name", str_value(spec.name.as_str())),
        member("required", JsonValue::Bool(!absent)),
        member("schema", schema_for_param(spec.kind, absent)),
    ];
    proof {
        lemma_members_view(ms@);
    }
    assert(members_view(ms@) =~= seq![
        ("in"@, Json::Str(place@)),
        ("name"@, Json::Str(spec.name@)),
        ("required"@, Json::Bool(!may_be_absent(*spec))),
        ("schema"@, param_schema(spec.kind, may_be_absent(*spec))),
    ]);
    JsonValue::Object(ms)
}

fn content_value(schema: JsonValue) -> (r: JsonValue)
    ensures
        r@ == json_object_content(schema@),
{
    object1("application/json", object1("schema", schema))
}

fn ok_responses_value() -> (r: JsonValue)
    ensures
        r@ == ok_responses(),
{
    let ok = object2("content", content_value(typed_value("object")), "description", str_value("OK"));
    object1("200", ok)
}

fn str_array(ss: &Vec<String>) -> (r: JsonValue)
    ensures
        r@ == Json::Arr(str_items(ss@.map_values(|s: String| s@))),
{
    let mut items: Vec<JsonValue> = Vec::new();
    let mut i: usize = 0;
    while i < ss.len()
        invariant
            i <= ss.len(),
            items@.len() == i,
            forall|j: int| 0 <= j < i ==> #[trigger] items@[j]@ == Json::Str(ss@[j]@),
        decreases ss.len() - i,
    {
        items.push(str_value(ss[i].as_str()));
        i += 1;
    }
    proof {
        lemma_items_view(items@);
    }
    assert(items_view(items@) =~= str_items(ss@.map_values(|s: String| s@)));
    JsonValue::Array(items)
}


/// Names as text.
pub open spec fn texts(ns: Seq<String>) -> Seq<Seq<char>> {
    ns.map_values(|s: String| s@)
}

proof fn lemma_items_push(s: Seq<JsonValue>, x: JsonValue)
    ensures
        items_view(s.push(x)) == items_view(s).push(x@),
{
    assert(s.push(x).drop_last() =~= s);
}

fn operation_parts(specs: &Vec<ParamSpec>, pp: &Vec<String>, write: bool) -> (r: (
    Vec<JsonValue>,
    Vec<(String, JsonValue)>,
    Vec<String>,
))
    ensures
        items_view(r.0@) == operation_params(specs@, texts(pp@), write),
        sorted_keys(r.1@),
        json_values(map_of(r.1@)) == body_properties(specs@, texts(pp@), write),
        texts(r.2@) == body_required(specs@, texts(pp@), write),
{
    let ghost ppv = texts(pp@);
    let mut params: Vec<JsonValue> = Vec::new();
    let mut props: Vec<(String, JsonValue)> = Vec::new();
    let mut req: Vec<String> = Vec::new();
    let mut i: usize = 0;
    assert(specs@.take(0) =~= Seq::<ParamSpec>::empty());
    assert(json_values(map_of(props@)) =~= Map::<Seq<char>, Json>::empty());
    assert(texts(req@) =~= Seq::<Seq<char>>::empty());
    while i < specs.len()
        invariant
            i <= specs.len(),
            ppv == texts(pp@),
            items_view(params@) == operation_params(specs@.take(i as int), ppv, write),
            sorted_keys(props@),
            json_values(map_of(props@)) == body_properties(specs@.take(i as int), ppv, write),
            texts(req@) == body_required(specs@.take(i as int), ppv, write),
        decreases specs.len() - i,
    {
        assert(specs@.take(i + 1).drop_last() =~= specs@.take(i as int));
        assert(specs@.take(i + 1).last() == specs@[i as int]);
        let spec = &specs[i];
        let absent = spec.optional || spec.has_default;
        if contains_name(pp, spec.name.as_str()) {
            let v = parameter_value(spec, "path");
            proof {
                lemma_items_push(params@, v);
            }
            params.push(v);
        } else if write {
            let schema = schema_for_param(spec.kind, absent);
            let ghost before = props@;
            let ghost sv = schema@;
            sorted_insert(&mut props, spec.name.clone(), schema);
            assert(json_values(map_of(props@)) =~= json_values(map_of(before)).insert(spec.name@, sv));
            if !absent {
                let ghost rb = req@;
                req.push(spec.name.clone());
                assert(texts(req@) =~= texts(rb).push(spec.name@));
            }
        } else {
            let v = parameter_value(spec, "query");
            proof {
                lemma_items_push(params@, v);
            }
            params.push(v);
        }
        i += 1;
    }
    assert(specs@.take(specs.len() as int) =~= specs@);
    (params, props, req)
}

fn object3(k1: &str, v1: JsonValue, k2: &str, v2: JsonValue, k3: &str, v3: JsonValue) -> (r: JsonValue)
    ensures
        r@ == Json::Obj(seq![(k1@, v1@), (k2@, v2@), (k3@, v3@)]),
{
    let ms = vec![member(k1, v1), member(k2, v2), member(k3, v3)];
    proof {
        lemma_members_view(ms@);
    }
    assert(members_view(ms@) =~= seq![(k1@, v1@), (k2@, v2@), (k3@, v3@)]);
    JsonValue::Object(ms)
}

fn joined(a: &str, sep: char, b: &str) -> (r: String)
    ensures
        r@ == a@ + seq![sep] + b@,
{
    let mut v = chars_of(a);
    v.push(sep);
    extend(&mut v, &chars_of(b));
    to_string(&v)
}

fn is_write(upper: &Vec<char>) -> (b: bool)
    ensures
        b == is_write_method(upper@),
{
    chars_eq(upper, &chars_of("POST")) || chars_eq(upper, &chars_of("PUT")) || chars_eq(upper, &chars_of("PATCH"))
}

proof fn lemma_members_push(ms: Seq<(String, JsonValue)>, m: (String, JsonValue))
    ensures
        members_view(ms.push(m)) == members_view(ms).push((m.0@, m.1@)),
{
    assert(ms.push(m).drop_last() =~= ms);
}

/// The OpenAPI operation for `method` (a lowercase method name) of `route`,
/// given the method's parameters.
pub fn operation_object(route: &ApiRoute, method: &str, specs: &Vec<ParamSpec>) -> (r: JsonValue)
    ensures
        r@ == operation_json(*route, method@, specs@),
{
    let upper_chars = ascii_uppercase(&chars_of(method));
    let upper = to_string(&upper_chars);
    let path = rooted_path(route.path.as_str());
    let pp = extract_path_params_from_pattern(path.as_str());
    let write = is_write(&upper_chars);
    let (params, props, req) = operation_parts(specs, &pp, write);
    let ghost pv = items_view(params@);
    let ghost props_map = json_values(map_of(props@));
    let ghost reqv = texts(req@);
    let desc = match &route.swagger.description {
        Some(d) => d.clone(),
        None => String::new(),
    };
    let mut ms: Vec<(String, JsonValue)> = vec![
        member("deprecated", JsonValue::Bool(route.swagger.deprecated)),
        member("description", JsonValue::String(desc)),
        member("operationId", JsonValue::String(joined(route.api_name.as_str(), '_', method))),
    ];
    proof {
        lemma_members_view(ms@);
    }
    let ghost head = seq![
        ("deprecated"@, Json::Bool(route.swagger.deprecated)),
        ("description"@, Json::Str(description(*route))),
        ("operationId"@, Json::Str(route.api_name@ + seq!['_'] + method@)),
    ];
    assert(members_view(ms@) =~= head);
    proof {
        lemma_items_view(params@);
        lemma_members_listing(props@);
        lemma_members_view(props@);
    }
    let ghost with_params = if pv.len() > 0 {
        head.push(("parameters"@, Json::Arr(pv)))
    } else {
        head
    };
    if params.len() > 0 {
        let ghost before = ms@;
        let m = member("parameters", JsonValue::Array(params));
        proof {
            lemma_members_push(before, m);
        }
        ms.push(m);
    }
    assert(members_view(ms@) == with_params);
    let ghost with_body = if listing(props_map).len() > 0 {
        with_params.push(("requestBody"@, request_body_json(props_map, reqv)))
    } else {
        with_params
    };
    if props.len() > 0 {
        let schema = object3(
            "properties",
            JsonValue::Object(props),
            "required",
            str_array(&req),
            "type",
            str_value("object"),
        );
        let body = object2("content", content_value(schema), "required", JsonValue::Bool(req.len() > 0));
        assert(body@ == request_body_json(props_map, reqv));
        let ghost before = ms@;
        let m = member("requestBody", body);
        proof {
            lemma_members_push(before, m);
        }
        ms.push(m);
    }
    assert(members_view(ms@) == with_body);
    let summary_text = match &route.swagger.title {
        Some(t) => t.clone(),
        None => joined(route.api_name.as_str(), ' ', upper.as_str()),
    };
    let ghost before = ms@;
    let m1 = member("responses", ok_responses_value());
    proof {
        lemma_members_push(before, m1);
    }
    ms.push(m1);
    let ghost before = ms@;
    let m2 = member("summary", JsonValue::String(summary_text));
    proof {
        lemma_members_push(before, m2);
    }
    ms.push(m2);
    let ghost before = ms@;
    let m3 = member("tags", str_array(&route.swagger.tags));
    proof {
        lemma_members_push(before, m3);
    }
    ms.push(m3);
    assert(members_view(ms@) =~= with_body + seq![
        ("responses"@, ok_responses()),
        ("summary"@, Json::Str(summary(*route, ascii_upper_seq(method@)))),
        ("tags"@, Json::Arr(str_items(tag_texts(*route)))),
    ]);
    JsonValue::Object(ms)
}


/// The operations of `route` for the first `n` of the method entries `es`.
pub open spec fn operations_among(route: ApiRoute, es: Seq<(String, Vec<ParamSpec>)>, n: int) -> Map<Seq<char>, Json> {
    Map::new(
        |m: Seq<char>| exists|j: int| 0 <= j < n && #[trigger] es[j].0@ == m,
        |m: Seq<char>| operation_json(route, m, route.method_specs@[m]@),
    )
}

/// The operations of `route` as a JSON object, by method name.
pub fn operations_object(route: &ApiRoute) -> (r: JsonValue)
    ensures
        r@ == Json::Obj(listing(operations(*route))),
{
    let es = route.method_specs.entries();
    let mut ps: Vec<(String, JsonValue)> = Vec::new();
    let mut i: usize = 0;
    assert(json_values(map_of(ps@)) =~= operations_among(*route, es@, 0));
    while i < es.len()
        invariant
            i <= es.len(),
            es@ == route.method_specs.pairs(),
            crate::strmap::keys_unique(es@),
            sorted_keys(ps@),
            json_values(map_of(ps@)) == operations_among(*route, es@, i as int),
        decreases es.len() - i,
    {
        proof {
            crate::strmap::lemma_map_of_at(es@, i as int);
        }
        let op = operation_object(route, es[i].0.as_str(), &es[i].1);
        let ghost before = ps@;
        let ghost opv = op@;
        sorted_insert(&mut ps, es[i].0.clone(), op);
        assert(json_values(map_of(ps@)) =~= operations_among(*route, es@, i + 1)) by {
            assert(json_values(map_of(ps@)) =~= json_values(map_of(before)).insert(es@[i as int].0@, opv));
            assert forall|m: Seq<char>| #[trigger] operations_among(*route, es@, i + 1).contains_key(m) <==> (
            operations_among(*route, es@, i as int).contains_key(m) || m == es@[i as int].0@) by {
                if m == es@[i as int].0@ {
                    assert(es@[i as int].0@ == m);
                }
            }
        }
        i += 1;
    }
    assert(operations_among(*route, es@, es.len() as int) =~= operations(*route));
    proof {
        lemma_members_listing(ps@);
    }
    JsonValue::Object(ps)
}

/// `t` is among the first `n` of `ss`.
pub open spec fn among(ss: Seq<Seq<char>>, n: int, t: Seq<char>) -> bool {
    exists|k: int| 0 <= k < n && #[trigger] ss[k] == t
}

/// The tags of the first `n` of `routes`.
pub open spec fn tags_among(routes: Seq<ApiRoute>, n: int) -> Map<Seq<char>, Json> {
    Map::new(
        |t: Seq<char>| exists|i: int| 0 <= i < n && #[trigger] tag_texts(routes[i]).contains(t),
        |t: Seq<char>| Json::Null,
    )
}

fn add_tags(tags: &mut Vec<(String, JsonValue)>, routes: &Vec<ApiRoute>, i: usize)
    requires
        i < routes.len(),
        sorted_keys(old(tags)@),
        json_values(map_of(old(tags)@)) == tags_among(routes@, i as int),
    ensures
        sorted_keys(final(tags)@),
        json_values(map_of(final(tags)@)) == tags_among(routes@, i + 1),
{
    let ts = &routes[i].swagger.tags;
    let ghost tv = tag_texts(routes@[i as int]);
    let mut j: usize = 0;
    while j < ts.len()
        invariant
            i < routes.len(),
            j <= ts.len(),
            *ts == routes@[i as int].swagger.tags,
            tv == tag_texts(routes@[i as int]),
            sorted_keys(tags@),
            json_values(map_of(tags@)) == Map::new(
                |t: Seq<char>| tags_among(routes@, i as int).contains_key(t) || among(tv, j as int, t),
                |t: Seq<char>| Json::Null,
            ),
        decreases ts.len() - j,
    {
        let ghost before = tags@;
        sorted_insert(tags, ts[j].clone(), JsonValue::Null);
        assert(tv[j as int] == ts@[j as int]@);
        assert(json_values(map_of(tags@)) =~= Map::new(
            |t: Seq<char>| tags_among(routes@, i as int).contains_key(t) || among(tv, j + 1, t),
            |t: Seq<char>| Json::Null,
        )) by {
            assert(json_values(map_of(tags@)) =~= json_values(map_of(before)).insert(ts@[j as int]@, Json::Null));
            assert forall|t: Seq<char>| #[trigger] among(tv, j + 1, t) <==> (among(tv, j as int, t) || t == tv[j as int]) by {
                if t == tv[j as int] {
                    assert(tv[j as int] == t);
                }
                if among(tv, j + 1, t) {
                    let k = choose|k: int| 0 <= k < j + 1 && #[trigger] tv[k] == t;
                    if k < j {
                        assert(tv[k] == t);
                    }
                }
            }
        }
        j += 1;
    }
    assert(json_values(map_of(tags@)) =~= tags_among(routes@, i + 1)) by {
        assert forall|t: Seq<char>| #[trigger] tags_among(routes@, i + 1).contains_key(t) <==> (tags_among(routes@, i as int).contains_key(t)
            || among(tv, ts.len() as int, t)) by {
            if tags_among(routes@, i + 1).contains_key(t) {
                let a = choose|a: int| 0 <= a < i + 1 && #[trigger] tag_texts(routes@[a]).contains(t);
                if a == i {
                    let k = choose|k: int| 0 <= k < tv.len() && tv[k] == t;
                    assert(tv[k] == t);
                }
            }
            if among(tv, ts.len() as int, t) {
                let k = choose|k: int| 0 <= k < ts.len() && #[trigger] tv[k] == t;
                assert(tv.contains(t));
                assert(tag_texts(routes@[i as int]).contains(t));
            }
            if tags_among(routes@, i as int).contains_key(t) {
                let a = choose|a: int| 0 <= a < i && #[trigger] tag_texts(routes@[a]).contains(t);
                assert(tag_texts(routes@[a]).contains(t));
            }
        }
    }
}

/// The OpenAPI 3 document describing `routes`.
pub fn openapi_spec(routes: &Vec<ApiRoute>) -> (r: JsonValue)
    ensures
        r@ == openapi_document(routes@),
{
    let mut paths: Vec<(String, JsonValue)> = Vec::new();
    let mut tags: Vec<(String, JsonValue)> = Vec::new();
    let mut i: usize = 0;
    assert(routes@.take(0) =~= Seq::<ApiRoute>::empty());
    assert(json_values(map_of(paths@)) =~= path_items(routes@.take(0)));
    assert(json_values(map_of(tags@)) =~= tags_among(routes@, 0));
    while i < routes.len()
        invariant
            i <= routes.len(),
            sorted_keys(paths@),
            json_values(map_of(paths@)) == path_items(routes@.take(i as int)),
            sorted_keys(tags@),
            json_values(map_of(tags@)) == tags_among(routes@, i as int),
        decreases routes.len() - i,
    {
        assert(routes@.take(i + 1).drop_last() =~= routes@.take(i as int));
        assert(routes@.take(i + 1).last() == routes@[i as int]);
        let route = &routes[i];
        let path = rooted_path(route.path.as_str());
        let ops = operations_object(route);
        let ghost before = paths@;
        let ghost opsv = ops@;
        sorted_insert(&mut paths, path, ops);
        assert(json_values(map_of(paths@)) =~= json_values(map_of(before)).insert(rooted(route.path@), opsv));
        add_tags(&mut tags, routes, i);
        i += 1;
    }
    assert(routes@.take(routes.len() as int) =~= routes@);
    assert(tags_among(routes@, routes.len() as int) =~= all_tags(routes@));
    proof {
        lemma_members_listing(paths@);
        lemma_members_listing(tags@);
        lemma_members_view(tags@);
    }
    let info = object2("title", str_value("fusion-framework"), "version", str_value("0.1.0"));
    let mut ms: Vec<(String, JsonValue)> = vec![
        member("info", info),
        member("openapi", str_value("3.0.3")),
        member("paths", JsonValue::Object(paths)),
    ];
    proof {
        lemma_members_view(ms@);
    }
    let ghost head = seq![
        (
            "info"@,
            Json::Obj(seq![("title"@, Json::Str("fusion-framework"@)), ("version"@, Json::Str("0.1.0"@))]),
        ),
        ("openapi"@, Json::Str("3.0.3"@)),
        ("paths"@, Json::Obj(listing(path_items(routes@)))),
    ];
    assert(members_view(ms@) =~= head);
    if tags.len() > 0 {
        let mut items: Vec<JsonValue> = Vec::new();
        let mut j: usize = 0;
        while j < tags.len()
            invariant
                j <= tags.len(),
                items@.len() == j,
                forall|a: int| 0 <= a < j ==> #[trigger] items@[a]@ == Json::Obj(seq![("name"@, Json::Str(tags@[a].0@))]),
            decreases tags.len() - j,
        {
            items.push(object1("name", str_value(tags[j].0.as_str())));
            j += 1;
        }
        proof {
            lemma_items_view(items@);
        }
        assert(items_view(items@) =~= tag_objects(listing(all_tags(routes@))));
        let ghost before = ms@;
        let m = member("tags", JsonValue::Array(items));
        proof {
            lemma_members_push(before, m);
        }
        ms.push(m);
    }
    JsonValue::Object(ms)
}


/// `resolved` under the API version `version` (trimmed of whitespace and
/// `/`): `<version>/<resolved without leading />`; unchanged without one.
pub open spec fn versioned(resolved: Seq<char>, version: Option<Seq<char>>) -> Seq<char> {
    match version {
        Some(v) => {
            let t = trim_char(trim_ws(v), '/');
            if t.len() > 0 {
                t + seq!['/'] + trim_start_char(resolved, '/')
            } else {
                resolved
            }
        },
        None => resolved,
    }
}

/// The text of an optional string slice.
pub open spec fn opt_str(o: Option<&str>) -> Option<Seq<char>> {
    match o {
        Some(s) => Some(s@),
        None => None,
    }
}

/// The route path of an API class registered from `template` under `version`.
pub fn versioned_route_path(resolved: &str, version: Option<&str>) -> (r: String)
    ensures
        r@ == versioned(resolved@, opt_str(version)),
{
    match version {
        Some(v) => {
            let t = trim_matches(&trim(&chars_of(v)), '/');
            if t.len() > 0 {
                let mut out = t;
                out.push('/');
                extend(&mut out, &trim_start_matches(&chars_of(resolved), '/'));
                to_string(&out)
            } else {
                resolved.to_string()
            }
        },
        None => resolved.to_string(),
    }
}

/// The API classes registered for documentation and mounting, in order.
pub struct ApiRegistry {
    routes: Vec<ApiRoute>,
}

impl ApiRegistry {
    /// The registered classes, in order.
    pub closed spec fn registered(&self) -> Seq<ApiRoute> {
        self.routes@
    }

    /// Nothing registered.
    pub fn new() -> (r: ApiRegistry)
        ensures
            r.registered() == Seq::<ApiRoute>::empty(),
    {
        ApiRegistry { routes: Vec::new() }
    }

    /// Forget every registered class.
    pub fn clear_registry(&mut self)
        ensures
            final(self).registered() == Seq::<ApiRoute>::empty(),
    {
        self.routes = Vec::new();
    }

    /// Registers the API class `class_name` on the route `template` (its
    /// `[module]` token resolved), under `version` when one is given, with
    /// the parameters of the methods it defines; returns the route path.
    pub fn register_route(
        &mut self,
        template: &str,
        class_name: &str,
        method_specs: StrMap<Vec<ParamSpec>>,
        tags: Vec<String>,
        description: Option<String>,
        title: Option<String>,
        version: Option<&str>,
        deprecated: bool,
    ) -> (r: String)
        ensures
            r@ == versioned(route_path(template@, class_name@), opt_str(version)),
            final(self).registered().len() == old(self).registered().len() + 1,
            final(self).registered().drop_last() == old(self).registered(),
            final(self).registered().last().path@ == r@,
            final(self).registered().last().api_name@ == class_name@,
            final(self).registered().last().method_specs == method_specs,
            final(self).registered().last().swagger == (SwaggerMeta { tags, description, title, deprecated }),
    {
        let resolved = resolve_route_path(template, class_name);
        let path = versioned_route_path(resolved.as_str(), version);
        let route = ApiRoute {
            path: path.clone(),
            api_name: class_name.to_string(),
            method_specs,
            swagger: SwaggerMeta { tags, description, title, deprecated },
        };
        let ghost before = self.routes@;
        self.routes.push(route);
        assert(self.routes@.drop_last() =~= before);
        path
    }

    /// The registered classes, in order.
    pub fn entries(&self) -> (r: &Vec<ApiRoute>)
        ensures
            r@ == self.registered(),
    {
        &self.routes
    }
}


/// The method names among `names` that `route` defines, in order, each with
/// the route's index `i`.
pub open spec fn defined_methods(route: ApiRoute, i: int, names: Seq<Seq<char>>) -> Seq<(int, Seq<char>)>
    decreases names.len(),
{
    if names.len() == 0 {
        Seq::empty()
    } else {
        let rest = defined_methods(route, i, names.drop_last());
        if route.method_specs@.contains_key(names.last()) {
            rest.push((i, names.last()))
        } else {
            rest
        }
    }
}

/// The HTTP method names in mounting order.
pub open spec fn method_names() -> Seq<Seq<char>> {
    seq!["get"@, "post"@, "put"@, "patch"@, "delete"@, "head"@, "options"@]
}

/// The handlers to mount for `routes`: route by route, each defined method
/// in the order of `method_names`.
pub open spec fn mount_order(routes: Seq<ApiRoute>) -> Seq<(int, Seq<char>)>
    decreases routes.len(),
{
    if routes.len() == 0 {
        Seq::empty()
    } else {
        mount_order(routes.drop_last()) + defined_methods(routes.last(), routes.len() - 1, method_names())
    }
}

impl ApiRegistry {
    /// The (class index, method name) pairs to mount, in order: class by
    /// class, each method it defines in the order get, post, put, patch,
    /// delete, head, options.
    pub fn mount_plan(&self) -> (r: Vec<(usize, &'static str)>)
        ensures
            r@.map_values(|p: (usize, &'static str)| (p.0 as int, p.1@)) == mount_order(self.registered()),
    {
        let methods = crate::naming::http_methods();
        let ghost names = methods@.map_values(|m: &'static str| m@);
        assert(names =~= method_names());
        let mut r: Vec<(usize, &'static str)> = Vec::new();
        let mut i: usize = 0;
        assert(self.routes@.take(0) =~= Seq::<ApiRoute>::empty());
        assert(r@.map_values(|p: (usize, &'static str)| (p.0 as int, p.1@)) =~= mount_order(self.routes@.take(0)));
        while i < self.routes.len()
            invariant
                i <= self.routes@.len(),
                methods@.len() == 7,
                names == methods@.map_values(|m: &'static str| m@),
                names == method_names(),
                r@.map_values(|p: (usize, &'static str)| (p.0 as int, p.1@)) == mount_order(self.routes@.take(i as int)),
            decreases self.routes@.len() - i,
        {
            assert(self.routes@.take(i + 1).drop_last() =~= self.routes@.take(i as int));
            assert(self.routes@.take(i + 1).last() == self.routes@[i as int]);
            let ghost base = r@.map_values(|p: (usize, &'static str)| (p.0 as int, p.1@));
            let route = &self.routes[i];
            let mut k: usize = 0;
            assert(names.take(0) =~= Seq::<Seq<char>>::empty());
            assert(r@.map_values(|p: (usize, &'static str)| (p.0 as int, p.1@)) =~= base + defined_methods(*route, i as int, names.take(0)));
            while k < methods.len()
                invariant
                    i < self.routes@.len(),
                    *route == self.routes@[i as int],
                    k <= methods@.len(),
                    names == methods@.map_values(|m: &'static str| m@),
                    r@.map_values(|p: (usize, &'static str)| (p.0 as int, p.1@)) == base + defined_methods(*route, i as int, names.take(k as int)),
                decreases methods@.len() - k,
            {
                assert(names.take(k + 1).drop_last() =~= names.take(k as int));
                assert(names.take(k + 1).last() == methods@[k as int]@);
                if route.method_specs.contains_key(methods[k]) {
                    let ghost before = r@;
                    r.push((i, methods[k]));
                    assert(r@.map_values(|p: (usize, &'static str)| (p.0 as int, p.1@)) =~= before.map_values(
                        |p: (usize, &'static str)| (p.0 as int, p.1@),
                    ).push((i as int, methods@[k as int]@)));
                }
                k += 1;
            }
            assert(names.take(7) =~= names);
            i += 1;
        }
        assert(self.routes@.take(self.routes@.len() as int) =~= self.routes@);
        r
    }
}

// ─── Laws ───────────────────────────────────────────────────────────────────

/// The `parameters` array of an operation object (empty when it has none).
pub open spec fn documented_parameters(op: Json) -> Seq<Json> {
    match get_member(op, "parameters"@) {
        Some(Json::Arr(ps)) => ps,
        _ => Seq::empty(),
    }
}

/// The methods documented with a request body are exactly the methods whose
/// handlers read their parameters from the JSON body.
pub proof fn law_write_methods_are_body_methods(upper: Seq<char>)
    ensures
        is_write_method(upper) <==> is_body_method(upper),
        is_write_method(upper) <==> body_method_names().contains(upper),
{
    let names = body_method_names();
    if is_write_method(upper) {
        if upper == "POST"@ {
            assert(names[0] == upper);
        } else if upper == "PUT"@ {
            assert(names[1] == upper);
        } else {
            assert(names[2] == upper);
        }
    }
    if names.contains(upper) {
        let i = choose|i: int| 0 <= i < names.len() && names[i] == upper;
        assert(i == 0 || i == 1 || i == 2);
    }
}

/// `member` skips a prefix that does not hold the key.
proof fn lemma_member_after(a: Seq<(Seq<char>, Json)>, b: Seq<(Seq<char>, Json)>, k: Seq<char>)
    requires
        forall|i: int| 0 <= i < a.len() ==> #[trigger] a[i].0 != k,
    ensures
        crate::json::member(a + b, k) == crate::json::member(b, k),
    decreases a.len(),
{
    if a.len() > 0 {
        assert(a[0].0 != k);
        assert((a + b).drop_first() =~= a.drop_first() + b);
        lemma_member_after(a.drop_first(), b, k);
    }
}

/// Under a write method every entry of the parameter list describes a path
/// parameter among `specs`.
proof fn lemma_write_params(specs: Seq<ParamSpec>, pp: Seq<Seq<char>>)
    ensures
        forall|j: int| 0 <= j < operation_params(specs, pp, true).len() ==> exists|i: int|
            0 <= i < specs.len() && pp.contains(specs[i].name@) && #[trigger] operation_params(specs, pp, true)[j]
                == parameter_json(specs[i], "path"@),
    decreases specs.len(),
{
    if specs.len() > 0 {
        let init = specs.drop_last();
        lemma_write_params(init, pp);
        let rest = operation_params(init, pp, true);
        assert forall|j: int| 0 <= j < operation_params(specs, pp, true).len() implies exists|i: int|
            0 <= i < specs.len() && pp.contains(specs[i].name@) && #[trigger] operation_params(specs, pp, true)[j]
                == parameter_json(specs[i], "path"@) by {
            if j < rest.len() {
                assert(operation_params(specs, pp, true)[j] == rest[j]);
                let i = choose|i: int| 0 <= i < init.len() && pp.contains(init[i].name@) && rest[j] == parameter_json(init[i], "path"@);
                assert(specs[i] == init[i]);
            } else {
                assert(specs[specs.len() - 1] == specs.last());
            }
        }
    }
}

/// Under a write method every parameter outside the path is a body
/// property, and a required one is listed as required.
proof fn lemma_write_props(specs: Seq<ParamSpec>, pp: Seq<Seq<char>>)
    ensures
        body_properties(specs, pp, true).dom().finite(),
        forall|i: int| 0 <= i < specs.len() && !pp.contains(#[trigger] specs[i].name@) ==>
            body_properties(specs, pp, true).contains_key(specs[i].name@),
        forall|i: int| 0 <= i < specs.len() && !pp.contains(#[trigger] specs[i].name@) && !may_be_absent(specs[i]) ==>
            body_required(specs, pp, true).contains(specs[i].name@),
    decreases specs.len(),
{
    if specs.len() > 0 {
        let init = specs.drop_last();
        lemma_write_props(init, pp);
        let req0 = body_required(init, pp, true);
        assert forall|i: int| 0 <= i < specs.len() && !pp.contains(#[trigger] specs[i].name@) && !may_be_absent(specs[i]) implies
            body_required(specs, pp, true).contains(specs[i].name@) by {
            if i < init.len() {
                assert(init[i] == specs[i]);
                let k = choose|k: int| 0 <= k < req0.len() && req0[k] == specs[i].name@;
                if body_required(specs, pp, true) != req0 {
                    assert(body_required(specs, pp, true) == req0.push(specs.last().name@));
                    assert(body_required(specs, pp, true)[k] == req0[k]);
                }
            } else {
                assert(specs[i] == specs.last());
                let r = body_required(specs, pp, true);
                assert(r[r.len() - 1] == specs[i].name@);
            }
        }
        assert forall|i: int| 0 <= i < specs.len() && !pp.contains(#[trigger] specs[i].name@) implies
            body_properties(specs, pp, true).contains_key(specs[i].name@) by {
            if i < init.len() {
                assert(init[i] == specs[i]);
            } else {
                assert(specs[i] == specs.last());
            }
        }
    }
}

/// For a `POST`, `PUT` or `PATCH` operation (the method in any ASCII case),
/// the `parameters` list holds path parameters only, never a query
/// parameter; as soon as a parameter lies outside the path, the operation
/// has a request body whose properties hold every such parameter and whose
/// `required` list names each of them that may not be absent.
pub proof fn law_write_operation_documents_body(route: ApiRoute, method: Seq<char>, specs: Seq<ParamSpec>)
    requires
        ascii_upper_seq(method) == "POST"@ || ascii_upper_seq(method) == "PUT"@ || ascii_upper_seq(method)
            == "PATCH"@,
    ensures
        forall|j: int| 0 <= j < documented_parameters(operation_json(route, method, specs)).len() ==> exists|i: int|
            0 <= i < specs.len() && path_params(rooted(route.path@)).contains(specs[i].name@)
                && #[trigger] documented_parameters(operation_json(route, method, specs))[j] == parameter_json(
                specs[i],
                "path"@,
            ),
        forall|i: int| 0 <= i < specs.len() && !path_params(rooted(route.path@)).contains(#[trigger] specs[i].name@) ==> {
            &&& get_member(operation_json(route, method, specs), "requestBody"@) == Some(
                request_body_json(
                    body_properties(specs, path_params(rooted(route.path@)), true),
                    body_required(specs, path_params(rooted(route.path@)), true),
                ),
            )
            &&& body_properties(specs, path_params(rooted(route.path@)), true).contains_key(specs[i].name@)
            &&& !may_be_absent(specs[i]) ==> body_required(specs, path_params(rooted(route.path@)), true).contains(
                specs[i].name@,
            )
        },
{
    reveal_strlit("POST");
    reveal_strlit("PUT");
    reveal_strlit("PATCH");
    reveal_strlit("deprecated");
    reveal_strlit("description");
    reveal_strlit("operationId");
    reveal_strlit("parameters");
    reveal_strlit("requestBody");
    reveal_strlit("responses");
    reveal_strlit("summary");
    reveal_strlit("tags");
    let upper = ascii_upper_seq(method);
    assert(is_write_method(upper));
    let pp = path_params(rooted(route.path@));
    let params = operation_params(specs, pp, true);
    let props = body_properties(specs, pp, true);
    lemma_write_params(specs, pp);
    lemma_write_props(specs, pp);
    let head = seq![
        ("deprecated"@, Json::Bool(route.swagger.deprecated)),
        ("description"@, Json::Str(description(route))),
        ("operationId"@, Json::Str(route.api_name@ + seq!['_'] + method)),
    ];
    let with_params = if params.len() > 0 {
        head.push(("parameters"@, Json::Arr(params)))
    } else {
        head
    };
    let body = request_body_json(props, body_required(specs, pp, true));
    let with_body = if listing(props).len() > 0 {
        with_params.push(("requestBody"@, body))
    } else {
        with_params
    };
    let tail = seq![
        ("responses"@, ok_responses()),
        ("summary"@, Json::Str(summary(route, upper))),
        ("tags"@, Json::Arr(str_items(tag_texts(route)))),
    ];
    let op = operation_json(route, method, specs);
    assert(op == Json::Obj(with_body + tail));
    assert("deprecated"@[0] != "parameters"@[0]);
    assert("description"@[0] != "parameters"@[0]);
    assert("operationId"@[0] != "parameters"@[0]);
    assert("deprecated"@[0] != "requestBody"@[0]);
    assert("description"@[0] != "requestBody"@[0]);
    assert("operationId"@[0] != "requestBody"@[0]);
    assert("parameters"@[0] != "requestBody"@[0]);
    assert("responses"@[2] != "requestBody"@[2]);
    assert("summary"@[0] != "requestBody"@[0]);
    assert("tags"@[0] != "requestBody"@[0]);
    assert("responses"@[0] != "parameters"@[0]);
    assert("summary"@[0] != "parameters"@[0]);
    assert("tags"@[0] != "parameters"@[0]);
    // The `parameters` member.
    if params.len() > 0 {
        assert(with_body + tail =~= head + (seq![("parameters"@, Json::Arr(params))] + (with_body.skip(4) + tail)));
        lemma_member_after(head, seq![("parameters"@, Json::Arr(params))] + (with_body.skip(4) + tail), "parameters"@);
        assert(documented_parameters(op) == params);
    } else {
        assert forall|i: int| 0 <= i < with_body.len() + tail.len() implies #[trigger] (with_body + tail)[i].0
            != "parameters"@ by {
            if i < with_body.len() {
                if i == 3 {
                    assert((with_body + tail)[i].0 == "requestBody"@);
                }
            }
        }
        lemma_member_after(with_body + tail, Seq::empty(), "parameters"@);
        assert(with_body + tail + Seq::<(Seq<char>, Json)>::empty() =~= with_body + tail);
        assert(documented_parameters(op) == Seq::<Json>::empty());
    }
    // The `requestBody` member.
    if exists|i: int| 0 <= i < specs.len() && !pp.contains(#[trigger] specs[i].name@) {
        let i = choose|i: int| 0 <= i < specs.len() && !pp.contains(#[trigger] specs[i].name@);
        assert(props.contains_key(specs[i].name@));
        lemma_listing_exists(props);
        let l = listing(props);
        let k = choose|k: int| 0 <= k < l.len() && l[k].0 == specs[i].name@;
        assert(l.len() > 0);
        assert(with_body + tail =~= with_params + (seq![("requestBody"@, body)] + tail));
        assert forall|n: int| 0 <= n < with_params.len() implies #[trigger] with_params[n].0 != "requestBody"@ by {
        }
        lemma_member_after(with_params, seq![("requestBody"@, body)] + tail, "requestBody"@);
    }
}

} // verus!
