//! Pagination parsing for list APIs and the standard paginated body.

use vstd::prelude::*;

use crate::decimal::{parse_u64, parse_u64_exec};
use crate::http_error::HttpError;
use crate::json::{get_member, Json, JsonValue};
use crate::strmap::StrMap;
use crate::text::{chars_of, trim, trim_ws};

verus! {

/// Defaults applied when query params are missing or invalid.
#[derive(Debug, Clone, Copy)]
pub struct PageConfig {
    pub default_page_size: u64,
    pub max_page_size: u64,
}

impl Default for PageConfig {
    fn default() -> (c: Self)
        ensures
            c.default_page_size == 20,
            c.max_page_size == 100,
    {
        PageConfig { default_page_size: 20, max_page_size: 100 }
    }
}

/// Normalized pagination state for a list request.
#[derive(Debug, Clone, Copy, PartialEq, Eq, Structural)]
pub struct PageParams {
    /// 1-based page index.
    pub page: u64,
    pub page_size: u64,
    /// Item offset (0-based). May differ from `(page - 1) * page_size` when `offset` query is set.
    pub offset: u64,
}

/// `a + b`, capped at `u64::MAX`.
pub open spec fn sat_add(a: u64, b: u64) -> u64 {
    if a + b > u64::MAX {
        u64::MAX
    } else {
        (a + b) as u64
    }
}

/// `a * b`, capped at `u64::MAX`.
pub open spec fn sat_mul(a: u64, b: u64) -> u64 {
    if a * b > u64::MAX {
        u64::MAX
    } else {
        (a * b) as u64
    }
}

/// Number of pages of `page_size` items needed for `total` items (0 for size 0).
pub open spec fn page_count(total: u64, page_size: u64) -> int {
    if page_size == 0 {
        0
    } else {
        total / page_size + if total % page_size != 0 {
            1int
        } else {
            0int
        }
    }
}

impl PageParams {
    /// Items per page.
    pub fn limit(&self) -> (r: u64)
        ensures
            r == self.page_size,
    {
        self.page_size
    }

    /// Pages needed for `total` items; 0 when `page_size` is 0.
    pub fn total_pages(total: u64, page_size: u64) -> (r: u64)
        ensures
            r == page_count(total, page_size),
    {
        if page_size == 0 {
            return 0;
        }
        let q = total / page_size;
        if total % page_size != 0 {
            assert(q < u64::MAX) by (nonlinear_arith)
                requires
                    q == total / page_size,
                    page_size > 0,
                    total % page_size != 0,
            {
                if q == u64::MAX {
                    assert(page_size == 1 || q * page_size > total);
                }
            }
            q + 1
        } else {
            q
        }
    }

    /// More items follow this page.
    pub fn has_next(&self, total: u64) -> (b: bool)
        ensures
            b == (sat_add(self.offset, self.page_size) < total),
    {
        let end = if self.offset > u64::MAX - self.page_size {
            u64::MAX
        } else {
            self.offset + self.page_size
        };
        end < total
    }

    /// A page precedes this one.
    pub fn has_prev(&self) -> (b: bool)
        ensures
            b == (self.page > 1),
    {
        self.page > 1
    }
}

/// The number in query parameter `key`: trimmed, non-empty, a valid `u64`.
pub open spec fn query_number(q: Map<Seq<char>, String>, key: Seq<char>) -> Option<u64> {
    if q.contains_key(key) && trim_ws(q[key]@).len() > 0 {
        parse_u64(trim_ws(q[key]@))
    } else {
        None
    }
}

/// The number of the first of `keys` that holds one.
pub open spec fn first_query_number(q: Map<Seq<char>, String>, keys: Seq<Seq<char>>) -> Option<
    u64,
>
    decreases keys.len(),
{
    if keys.len() == 0 {
        None
    } else {
        match query_number(q, keys[0]) {
            Some(n) => Some(n),
            None => first_query_number(q, keys.drop_first()),
        }
    }
}

/// Page size query keys, in order of preference.
pub open spec fn size_keys() -> Seq<Seq<char>> {
    seq!["page_size"@, "per_page"@, "limit"@]
}

/// Requested page: `Err` holds the rejection message.
pub open spec fn requested_page(q: Map<Seq<char>, String>) -> Result<u64, Seq<char>> {
    match query_number(q, "page"@) {
        None => Ok(1),
        Some(p) => if p == 0 {
            Err("page must be >= 1"@)
        } else {
            Ok(p)
        },
    }
}

/// Requested page size, clamped to the maximum: `Err` holds the rejection message.
pub open spec fn requested_size(q: Map<Seq<char>, String>, c: PageConfig) -> Result<u64, Seq<char>> {
    match first_query_number(q, size_keys()) {
        None => Ok(c.default_page_size),
        Some(n) => if n == 0 {
            Err("page_size must be >= 1"@)
        } else if n < c.max_page_size {
            Ok(n)
        } else {
            Ok(c.max_page_size)
        },
    }
}

/// What `parse_page_params` computes: `(page, page_size, offset)` or the message of the 400.
pub open spec fn page_params_of(q: Map<Seq<char>, String>, c: PageConfig) -> Result<
    (u64, u64, u64),
    Seq<char>,
> {
    match requested_page(q) {
        Err(m) => Err(m),
        Ok(page) => match requested_size(q, c) {
            Err(m) => Err(m),
            Ok(size) => Ok(
                (
                    page,
                    size,
                    match query_number(q, "offset"@) {
                        None => sat_mul((page - 1) as u64, size),
                        Some(o) => o,
                    },
                ),
            ),
        },
    }
}

fn query_u64(query: &StrMap<String>, key: &str) -> (r: Option<u64>)
    ensures
        r == query_number(query@, key@),
{
    match query.get(key) {
        Some(v) => {
            let cs = chars_of(v.as_str());
            let t = trim(&cs);
            if t.len() == 0 {
                None
            } else {
                parse_u64_exec(&t)
            }
        },
        None => None,
    }
}

fn first_query_u64(query: &StrMap<String>, keys: &Vec<&str>) -> (r: Option<u64>)
    ensures
        r == first_query_number(query@, keys@.map_values(|k: &str| k@)),
{
    let ghost ks = keys@.map_values(|k: &str| k@);
    let mut i: usize = 0;
    assert(ks.skip(0) =~= ks);
    while i < keys.len()
        invariant
            i <= keys.len(),
            ks == keys@.map_values(|k: &str| k@),
            first_query_number(query@, ks) == first_query_number(query@, ks.skip(i as int)),
        decreases keys.len() - i,
    {
        assert(ks.skip(i as int)[0] == keys@[i as int]@);
        let r = query_u64(query, keys[i]);
        if r.is_some() {
            return r;
        }
        assert(ks.skip(i as int).drop_first() =~= ks.skip(i + 1));
        i += 1;
    }
    assert(ks.skip(i as int) =~= Seq::<Seq<char>>::empty());
    None
}

fn bad_request(message: &str) -> (e: HttpError)
    ensures
        e.status == 400,
        e.detail@ == Json::Str(message@),
        e.headers@ == Map::<Seq<char>, String>::empty(),
{
    HttpError::new(400, JsonValue::from_str(message))
}

/// Parse `page`, `page_size` / `per_page` / `limit`, and optional `offset` from query params.
pub fn parse_page_params(query: &StrMap<String>, config: &PageConfig) -> (r: Result<
    PageParams,
    HttpError,
>)
    ensures
        match r {
            Ok(p) => page_params_of(query@, *config) == Ok::<(u64, u64, u64), Seq<char>>(
                (p.page, p.page_size, p.offset),
            ),
            Err(e) => {
                &&& page_params_of(query@, *config) is Err
                &&& e.status == 400
                &&& e.detail@ == Json::Str(page_params_of(query@, *config)->Err_0)
                &&& e.headers@ == Map::<Seq<char>, String>::empty()
            },
        },
{
    let page = match query_u64(query, "page") {
        None => 1,
        Some(p) => {
            if p == 0 {
                return Err(bad_request("page must be >= 1"));
            }
            p
        },
    };
    let keys: Vec<&str> = vec!["page_size", "per_page", "limit"];
    assert(keys@.map_values(|k: &str| k@) =~= size_keys());
    let raw_size = first_query_u64(query, &keys);
    let page_size = match raw_size {
        None => config.default_page_size,
        Some(n) => {
            if n == 0 {
                return Err(bad_request("page_size must be >= 1"));
            }
            if n < config.max_page_size {
                n
            } else {
                config.max_page_size
            }
        },
    };
    let offset = match query_u64(query, "offset") {
        None => {
            let prev = page - 1;
            if page_size != 0 && prev > u64::MAX / page_size {
                assert(prev * page_size > u64::MAX) by (nonlinear_arith)
                    requires
                        page_size > 0,
                        prev > u64::MAX / page_size,
                ;
                u64::MAX
            } else {
                assert(prev * page_size <= u64::MAX) by (nonlinear_arith)
                    requires
                        page_size == 0 || prev <= u64::MAX / page_size,
                ;
                prev * page_size
            }
        },
        Some(o) => o,
    };
    Ok(PageParams { page, page_size, offset })
}

/// The standard paginated body `{ items, pagination: { ... } }` (members in key order).
pub open spec fn paginated_json(items: Json, total: u64, p: PageParams) -> Json {
    Json::Obj(
        seq![
            ("items"@, items),
            (
                "pagination"@,
                Json::Obj(
                    seq![
                        ("has_next"@, Json::Bool(sat_add(p.offset, p.page_size) < total)),
                        ("has_prev"@, Json::Bool(p.page > 1)),
                        ("limit"@, Json::PosInt(p.page_size)),
                        ("offset"@, Json::PosInt(p.offset)),
                        ("page"@, Json::PosInt(p.page)),
                        ("page_size"@, Json::PosInt(p.page_size)),
                        ("total"@, Json::PosInt(total)),
                        ("total_pages"@, Json::PosInt(page_count(total, p.page_size) as u64)),
                    ],
                ),
            ),
        ],
    )
}

/// Build the standard paginated JSON body: `{ items, pagination: { ... } }`.
pub fn paginated_body(items: JsonValue, total: u64, params: &PageParams) -> (r: JsonValue)
    ensures
        r@ == paginated_json(items@, total, *params),
{
    let total_pages = PageParams::total_pages(total, params.page_size);
    let mut meta: Vec<(String, JsonValue)> = Vec::new();
    meta.push(("has_next".to_string(), JsonValue::Bool(params.has_next(total))));
    meta.push(("has_prev".to_string(), JsonValue::Bool(params.has_prev())));
    meta.push(("limit".to_string(), JsonValue::from_u64(params.limit())));
    meta.push(("offset".to_string(), JsonValue::from_u64(params.offset)));
    meta.push(("page".to_string(), JsonValue::from_u64(params.page)));
    meta.push(("page_size".to_string(), JsonValue::from_u64(params.page_size)));
    meta.push(("total".to_string(), JsonValue::from_u64(total)));
    meta.push(("total_pages".to_string(), JsonValue::from_u64(total_pages)));
    let ghost mv = meta@;
    let mut body: Vec<(String, JsonValue)> = Vec::new();
    body.push(("items".to_string(), items));
    body.push(("pagination".to_string(), JsonValue::Object(meta)));
    let r = JsonValue::Object(body);
    proof {
        crate::json::lemma_members_view(mv);
        crate::json::lemma_members_view(body@);
        let pm = crate::json::members_view(mv);
        assert(pm =~= seq![
            ("has_next"@, Json::Bool(sat_add(params.offset, params.page_size) < total)),
            ("has_prev"@, Json::Bool(params.page > 1)),
            ("limit"@, Json::PosInt(params.page_size)),
            ("offset"@, Json::PosInt(params.offset)),
            ("page"@, Json::PosInt(params.page)),
            ("page_size"@, Json::PosInt(params.page_size)),
            ("total"@, Json::PosInt(total)),
            ("total_pages"@, Json::PosInt(page_count(total, params.page_size) as u64)),
        ]);
        assert(crate::json::members_view(body@) =~= seq![
            ("items"@, items@),
            ("pagination"@, Json::Obj(pm)),
        ]);
    }
    r
}

/// Bounds `[start, end)` of the page in a collection of `len` items.
pub open spec fn page_bounds(len: nat, p: PageParams) -> (int, int) {
    if len == 0 || p.offset >= len {
        (0, 0)
    } else {
        (
            p.offset as int,
            if sat_add(p.offset, p.page_size) < len {
                sat_add(p.offset, p.page_size) as int
            } else {
                len as int
            },
        )
    }
}

/// Slice an in-memory collection using normalized pagination bounds.
pub fn paginate_slice<T: Clone>(items: &[T], params: &PageParams) -> (r: Vec<T>)
    ensures
        r.len() == page_bounds(items@.len(), *params).1 - page_bounds(items@.len(), *params).0,
        forall|i: int|
            0 <= i < r.len() ==> cloned(items@[page_bounds(items@.len(), *params).0 + i], #[trigger] r@[i]),
{
    let len = items.len();
    if len == 0 || params.offset >= len as u64 {
        return Vec::new();
    }
    let start = params.offset as usize;
    let sum = if params.offset > u64::MAX - params.page_size {
        u64::MAX
    } else {
        params.offset + params.page_size
    };
    let end: usize = if sum < len as u64 {
        sum as usize
    } else {
        len
    };
    let mut r: Vec<T> = Vec::new();
    let mut i = start;
    while i < end
        invariant
            start <= i <= end <= items@.len(),
            start == page_bounds(items@.len(), *params).0,
            end == page_bounds(items@.len(), *params).1,
            r.len() == i - start,
            forall|j: int| 0 <= j < r.len() ==> cloned(items@[start + j], #[trigger] r@[j]),
        decreases end - i,
    {
        r.push(items[i].clone());
        i += 1;
    }
    r
}

// ─── Laws ───────────────────────────────────────────────────────────────────

/// Accepted parameters always name a page of at least 1 and a size within `[1, max]`
/// when the configuration's own sizes are at least 1.
pub proof fn law_page_params_in_range(q: Map<Seq<char>, String>, c: PageConfig)
    requires
        1 <= c.default_page_size <= c.max_page_size,
        page_params_of(q, c) is Ok,
    ensures
        page_params_of(q, c)->Ok_0.0 >= 1,
        1 <= page_params_of(q, c)->Ok_0.1 <= c.max_page_size,
{
}

/// Without an explicit `offset`, the offset is the start of the page.
pub proof fn law_offset_is_page_start(q: Map<Seq<char>, String>, c: PageConfig)
    requires
        page_params_of(q, c) is Ok,
        query_number(q, "offset"@) is None,
        (page_params_of(q, c)->Ok_0.0 - 1) * page_params_of(q, c)->Ok_0.1 <= u64::MAX,
    ensures
        page_params_of(q, c)->Ok_0.2 == (page_params_of(q, c)->Ok_0.0 - 1) * page_params_of(
            q,
            c,
        )->Ok_0.1,
{
}

/// A page slice never holds more than `page_size` items nor runs past the collection.
pub proof fn law_page_bounds(len: nat, p: PageParams)
    ensures
        0 <= page_bounds(len, p).0 <= page_bounds(len, p).1 <= len,
        page_bounds(len, p).1 - page_bounds(len, p).0 <= p.page_size,
{
}

/// `has_next` agrees with the page slice: more items follow exactly when the
/// slice ends before the collection does.
pub proof fn law_has_next_matches_slice(len: u64, p: PageParams)
    requires
        p.offset < len,
    ensures
        (sat_add(p.offset, p.page_size) < len) == (page_bounds(len as nat, p).1 < len),
{
}

/// The `has_next` flag of a paginated body says whether items follow the
/// page: the page's end, `offset + page_size` counted without overflow,
/// lies before `total`; it agrees with `PageParams::has_next`, and, when the
/// page starts inside a collection of `total` items, with the page slice
/// ending before the collection does.
pub proof fn law_paginated_has_next(items: Json, total: u64, p: PageParams)
    ensures
        get_member(get_member(paginated_json(items, total, p), "pagination"@)->0, "has_next"@) == Some(
            Json::Bool((p.offset as int + p.page_size as int) < (total as int)),
        ),
        ((p.offset as int + p.page_size as int) < (total as int)) == (sat_add(p.offset, p.page_size) < total),
        p.offset < total ==> (((p.offset as int + p.page_size as int) < (total as int)) == (page_bounds(
            total as nat,
            p,
        ).1 < total)),
{
    reveal_strlit("items");
    reveal_strlit("pagination");
    reveal_strlit("has_next");
    assert("items"@[0] != "pagination"@[0]);
    let outer = seq![
        ("items"@, items),
        (
            "pagination"@,
            Json::Obj(
                seq![
                    ("has_next"@, Json::Bool(sat_add(p.offset, p.page_size) < total)),
                    ("has_prev"@, Json::Bool(p.page > 1)),
                    ("limit"@, Json::PosInt(p.page_size)),
                    ("offset"@, Json::PosInt(p.offset)),
                    ("page"@, Json::PosInt(p.page)),
                    ("page_size"@, Json::PosInt(p.page_size)),
                    ("total"@, Json::PosInt(total)),
                    ("total_pages"@, Json::PosInt(page_count(total, p.page_size) as u64)),
                ],
            ),
        ),
    ];
    assert(paginated_json(items, total, p) == Json::Obj(outer));
    assert(outer.drop_first()[0] == outer[1]);
    assert(crate::json::member(outer.drop_first(), "pagination"@) == Some(outer[1].1));
    assert(crate::json::member(outer, "pagination"@) == Some(outer[1].1));
    let inner = outer[1].1->Obj_0;
    assert(crate::json::member(inner, "has_next"@) == Some(inner[0].1));
}

/// Every item lies on exactly the pages counted by `total_pages`.
pub proof fn law_total_pages_cover(total: u64, page_size: u64)
    requires
        page_size > 0,
    ensures
        page_count(total, page_size) * page_size >= total,
        page_count(total, page_size) == 0 || (page_count(total, page_size) - 1) * page_size < total,
{
    let q = total / page_size;
    let r = total % page_size;
    assert(total == q * page_size + r && 0 <= r < page_size) by (nonlinear_arith)
        requires
            page_size > 0,
            q == total / page_size,
            r == total % page_size,
    ;
    if r != 0 {
        assert((q + 1) * page_size >= total) by (nonlinear_arith)
            requires
                total == q * page_size + r,
                r < page_size,
        ;
        assert(q * page_size < total) by (nonlinear_arith)
            requires
                total == q * page_size + r,
                r > 0,
        ;
    } else {
        if q > 0 {
            assert((q - 1) * page_size < total) by (nonlinear_arith)
                requires
                    total == q * page_size,
                    page_size > 0,
                    q > 0,
            ;
        }
    }
}

} // verus!
